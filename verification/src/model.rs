//! Data model: weapons, constants, and every entity the engine reasons
//! about. All quantities are fixed-point integers (see `geom`): positions
//! in milli-units, angles in milli-radians, health in milli-points,
//! times in ticks.

use vstd::prelude::*;

use crate::geom::{in_coord, Vec2, ARENA_MAX, COORD_MAX};

verus! {

/// Largest health / shield / damage magnitude in milli-points.
pub const HP_MAX: i64 = 1_000_000;

/// Largest ammo count for one weapon type.
pub const AMMO_MAX: i64 = 1_000_000;

/// Largest tick number the engine accepts.
pub const TICK_MAX: i64 = 1_000_000_000;

/// Largest projectile speed, in milli-units per tick.
pub const SPEED_MAX: i64 = 10_000;

/// Largest projectile life time, in ticks.
pub const LIFE_MAX: i64 = 1_000;

/// Largest weapon spread half-angle, in milli-radians.
pub const SPREAD_MAX: i64 = 4_000;

/// Largest field of view, in milli-radians (just under 2*pi).
pub const FOV_MAX: i64 = 6_283;

/// Largest obstacle radius, in milli-units.
pub const RADIUS_MAX: i64 = 1_000_000;

/// Aim progress is scaled to 0..=AIM_SCALE.
pub const AIM_SCALE: i64 = 1_000;

/// How many weapon types the engine supports; the per-unit ammo table has
/// this fixed size so that units stay plain copyable values.
pub const AMMO_SLOTS: usize = 8;

/// Properties of one weapon type.
#[derive(Clone, Copy, Debug)]
pub struct WeaponProperties {
    /// Ticks needed to aim fully from scratch.
    pub aim_ticks: i64,
    /// Field of view while fully aimed, milli-radians.
    pub aim_field_of_view: i64,
    /// Ticks between two shots; at least one.
    pub fire_rate_ticks: i64,
    /// Damage of one projectile, milli-points.
    pub projectile_damage: i64,
    /// Projectile speed, milli-units per tick.
    pub projectile_speed: i64,
    /// Projectile life time, ticks.
    pub projectile_life_ticks: i64,
    /// Spread half-angle, milli-radians.
    pub spread: i64,
    /// Most ammo of this type a unit can carry.
    pub max_inventory_ammo: i64,
}

impl WeaponProperties {
    pub open spec fn valid(self) -> bool {
        &&& 0 <= self.aim_ticks <= TICK_MAX
        &&& 0 <= self.aim_field_of_view <= FOV_MAX
        &&& 1 <= self.fire_rate_ticks <= TICK_MAX
        &&& 0 <= self.projectile_damage <= HP_MAX
        &&& 0 <= self.projectile_speed <= SPEED_MAX
        &&& 0 <= self.projectile_life_ticks <= LIFE_MAX
        &&& 0 <= self.spread <= SPREAD_MAX
        &&& 1 <= self.max_inventory_ammo <= AMMO_MAX
    }

    /// How far a projectile of this weapon can travel before it expires.
    pub open spec fn spec_firing_distance(self) -> int {
        self.projectile_speed * self.projectile_life_ticks
    }

    pub fn firing_distance(&self) -> (r: i64)
        requires
            self.valid(),
        ensures
            r == self.spec_firing_distance(),
            0 <= r <= SPEED_MAX * LIFE_MAX,
    {
        proof {
            assert(0 <= self.projectile_speed * self.projectile_life_ticks
                <= SPEED_MAX * LIFE_MAX) by (nonlinear_arith)
                requires
                    0 <= self.projectile_speed <= SPEED_MAX,
                    0 <= self.projectile_life_ticks <= LIFE_MAX,
            {
            }
        }
        self.projectile_speed * self.projectile_life_ticks
    }
}

/// A static round obstacle.
#[derive(Clone, Copy, Debug)]
pub struct Obstacle {
    pub id: i64,
    pub position: Vec2,
    pub radius: i64,
    /// Whether projectiles and shots pass through it.
    pub can_shoot_through: bool,
}

impl Obstacle {
    pub open spec fn valid(self) -> bool {
        self.position.in_arena() && 0 <= self.radius <= RADIUS_MAX
    }
}

/// The global constants table, supplied once at startup.
#[derive(Clone, Debug)]
pub struct Constants {
    pub unit_radius: i64,
    pub unit_health: i64,
    pub max_shield: i64,
    pub max_shield_potions_in_inventory: i64,
    pub view_distance: i64,
    /// Field of view with no weapon aimed, milli-radians.
    pub field_of_view: i64,
    /// Fastest forward movement, milli-units per tick.
    pub max_unit_forward_speed: i64,
    /// Fastest backward movement, milli-units per tick.
    pub max_unit_backward_speed: i64,
    /// How fast the zone border shrinks, milli-units per tick.
    pub zone_speed: i64,
    /// Length of the initial spawning window, ticks.
    pub spawn_ticks: i64,
    pub weapons: Vec<WeaponProperties>,
    pub obstacles: Vec<Obstacle>,
}

impl Constants {
    pub open spec fn valid(self) -> bool {
        &&& 1 <= self.unit_radius <= RADIUS_MAX
        &&& 1 <= self.unit_health <= HP_MAX
        &&& 0 <= self.max_shield <= HP_MAX
        &&& 0 <= self.max_shield_potions_in_inventory <= AMMO_MAX
        &&& 0 <= self.view_distance <= COORD_MAX
        &&& 0 <= self.field_of_view <= FOV_MAX
        &&& 1 <= self.max_unit_forward_speed <= SPEED_MAX
        &&& 0 <= self.max_unit_backward_speed <= SPEED_MAX
        &&& self.weapons.len() <= AMMO_SLOTS
        &&& 0 <= self.zone_speed <= SPEED_MAX
        &&& 0 <= self.spawn_ticks <= TICK_MAX
        &&& forall|i: int| 0 <= i < self.weapons.len() ==> (#[trigger] self.weapons[i]).valid()
        &&& forall|i: int| 0 <= i < self.obstacles.len() ==> (#[trigger] self.obstacles[i]).valid()
    }
}

/// The payload of a loot item.
#[derive(Clone, Copy, Debug)]
pub enum Item {
    Weapon { type_index: usize },
    ShieldPotions { amount: i64 },
    Ammo { weapon_type_index: usize, amount: i64 },
}

impl Item {
    pub open spec fn valid(self, n_weapons: int) -> bool {
        match self {
            Item::Weapon { type_index } => type_index < n_weapons,
            Item::ShieldPotions { amount } => 0 <= amount <= AMMO_MAX,
            Item::Ammo { weapon_type_index, amount } =>
                weapon_type_index < n_weapons && 0 <= amount <= AMMO_MAX,
        }
    }
}

/// A loot item lying on the ground.
#[derive(Clone, Copy, Debug)]
pub struct Loot {
    pub id: i64,
    pub position: Vec2,
    pub item: Item,
}

impl Loot {
    pub open spec fn valid(self, n_weapons: int) -> bool {
        self.position.in_arena() && self.item.valid(n_weapons)
    }
}

/// A projectile in flight.
#[derive(Clone, Copy, Debug)]
pub struct Projectile {
    pub id: i64,
    pub weapon_type_index: usize,
    pub shooter_id: i64,
    pub shooter_player_id: i64,
    pub position: Vec2,
    /// Displacement per tick, milli-units.
    pub velocity: Vec2,
    /// Remaining ticks before the projectile expires.
    pub life_ticks: i64,
}

impl Projectile {
    pub open spec fn valid(self, n_weapons: int) -> bool {
        &&& self.position.in_arena()
        &&& -SPEED_MAX <= self.velocity.x <= SPEED_MAX
        &&& -SPEED_MAX <= self.velocity.y <= SPEED_MAX
        &&& 0 <= self.life_ticks <= LIFE_MAX
        &&& -1_000_000 <= self.velocity.x * self.life_ticks <= 1_000_000
        &&& -1_000_000 <= self.velocity.y * self.life_ticks <= 1_000_000
        &&& self.weapon_type_index < n_weapons
    }
}

/// A sound heard during the last tick.
#[derive(Clone, Copy, Debug)]
pub struct Sound {
    pub type_index: usize,
    pub unit_id: i64,
    pub position: Vec2,
}

impl Sound {
    pub open spec fn valid(self) -> bool {
        self.position.in_arena()
    }
}

/// An action a unit is in the middle of performing.
#[derive(Clone, Copy, Debug)]
pub struct Action {
    pub finish_tick: i64,
}

/// The current and the next safe area.
#[derive(Clone, Copy, Debug)]
pub struct Zone {
    pub current_center: Vec2,
    pub current_radius: i64,
    pub next_center: Vec2,
    pub next_radius: i64,
}

impl Zone {
    pub open spec fn valid(self) -> bool {
        &&& self.current_center.in_arena()
        &&& self.next_center.in_arena()
        &&& 0 <= self.current_radius <= ARENA_MAX
        &&& 0 <= self.next_radius <= ARENA_MAX
    }
}

/// A unit, either seen this tick or remembered.
#[derive(Clone, Copy, Debug)]
pub struct Unit {
    pub id: i64,
    pub player_id: i64,
    pub health: i64,
    pub shield: i64,
    pub extra_lives: i64,
    pub position: Vec2,
    /// Ticks until the unit spawns, or None once it has spawned.
    pub remaining_spawn_time: Option<i64>,
    pub velocity: Vec2,
    /// View direction; roughly a unit vector at milli scale.
    pub direction: Vec2,
    /// Aim progress: 0 (not aiming) ..= AIM_SCALE (ready).
    pub aim: i64,
    pub action: Option<Action>,
    pub health_regeneration_start_tick: i64,
    /// Index of the held weapon into `ammo` and the weapon table.
    pub weapon: Option<usize>,
    pub next_shot_tick: i64,
    /// Ammo per weapon type, indexed by weapon type; slots past the
    /// weapon table are unused and stay 0.
    pub ammo: [i64; AMMO_SLOTS],
    pub shield_potions: i64,
}

impl Unit {
    pub open spec fn valid(self, n_weapons: int) -> bool {
        &&& self.position.in_arena()
        &&& self.velocity.in_arena()
        &&& self.direction.in_arena()
        &&& 0 <= self.health <= HP_MAX
        &&& 0 <= self.shield <= HP_MAX
        &&& 0 <= self.aim <= AIM_SCALE
        &&& 0 <= self.next_shot_tick <= TICK_MAX
        &&& (match self.remaining_spawn_time {
            Option::Some(t) => 0 <= t <= TICK_MAX,
            Option::None => true,
        })
        &&& forall|i: int| 0 <= i < AMMO_SLOTS ==> 0 <= #[trigger] self.ammo[i] <= AMMO_MAX
        &&& (match self.weapon {
            Option::Some(w) => w < n_weapons && w < AMMO_SLOTS,
            Option::None => true,
        })
        &&& 0 <= self.shield_potions <= AMMO_MAX
    }

    /// A blank unit; synthetic enemies are built from this.
    pub fn default() -> (r: Unit)
        ensures
            r.id == 0 && r.player_id == 0,
            r.health == 0 && r.shield == 0 && r.extra_lives == 0,
            r.position == (Vec2 { x: 0, y: 0 }),
            r.velocity == (Vec2 { x: 0, y: 0 }),
            r.direction == (Vec2 { x: 0, y: 0 }),
            r.remaining_spawn_time is None,
            r.aim == 0,
            r.action is None,
            r.health_regeneration_start_tick == 0,
            r.weapon is None,
            r.next_shot_tick == 0,
            forall|i: int| 0 <= i < AMMO_SLOTS ==> #[trigger] r.ammo[i] == 0,
            r.shield_potions == 0,
    {
        Unit {
            id: 0,
            player_id: 0,
            health: 0,
            shield: 0,
            extra_lives: 0,
            position: Vec2 { x: 0, y: 0 },
            remaining_spawn_time: Option::None,
            velocity: Vec2 { x: 0, y: 0 },
            direction: Vec2 { x: 0, y: 0 },
            aim: 0,
            action: Option::None,
            health_regeneration_start_tick: 0,
            weapon: Option::None,
            next_shot_tick: 0,
            ammo: [0; AMMO_SLOTS],
            shield_potions: 0,
        }
    }

    /// Ammo for the held weapon; 0 when no weapon is held.
    pub open spec fn spec_ammo_for_current_weapon(self) -> int {
        match self.weapon {
            Option::None => 0,
            Option::Some(w) => self.ammo[w as int] as int,
        }
    }

    /// A unit with no weapon has 0; a unit with weapon `w` has its own
    /// `ammo[w]`. The index is in bounds by the unit's validity.
    pub fn ammo_for_current_weapon(&self) -> (r: i64)
        requires
            match self.weapon {
                Option::Some(w) => w < AMMO_SLOTS,
                Option::None => true,
            },
        ensures
            r == self.spec_ammo_for_current_weapon(),
            self.weapon is None ==> r == 0,
    {
        match self.weapon {
            Option::None => 0,
            Option::Some(w) => self.ammo[w],
        }
    }

    /// Maximum range of the held weapon; 0 when no weapon is held.
    pub open spec fn spec_firing_distance(self, cons: Constants) -> int {
        match self.weapon {
            Option::None => 0,
            Option::Some(w) => cons.weapons[w as int].spec_firing_distance(),
        }
    }

    pub fn firing_distance(&self, cons: &Constants) -> (r: i64)
        requires
            cons.valid(),
            self.valid(cons.weapons.len() as int),
        ensures
            r == self.spec_firing_distance(*cons),
            0 <= r <= SPEED_MAX * LIFE_MAX,
    {
        match self.weapon {
            Option::None => 0,
            Option::Some(w) => cons.weapons[w].firing_distance(),
        }
    }
}

/// The action part of a unit's order.
#[derive(Clone, Copy, Debug, PartialEq, Eq, Structural)]
pub enum ActionOrder {
    Aim { shoot: bool },
    Pickup { loot: i64 },
    UseShieldPotion,
}

/// One unit's command for the tick: where to steer, where to look, and
/// what to do.
#[derive(Clone, Copy, Debug)]
pub struct UnitOrder {
    pub target_velocity: Vec2,
    pub target_direction: Vec2,
    pub action: Option<ActionOrder>,
}

/// The engine's sole output: one order per controlled unit.
#[derive(Clone, Debug)]
pub struct Order {
    pub unit_orders: Vec<(i64, UnitOrder)>,
}

/// One tick's snapshot of everything the team perceives.
#[derive(Clone, Debug)]
pub struct Game {
    pub my_id: i64,
    pub current_tick: i64,
    pub units: Vec<Unit>,
    pub loot: Vec<Loot>,
    pub projectiles: Vec<Projectile>,
    pub zone: Zone,
    pub sounds: Vec<Sound>,
}

impl Game {
    pub open spec fn valid(self, n_weapons: int) -> bool {
        &&& 0 <= self.current_tick <= TICK_MAX
        &&& forall|i: int| 0 <= i < self.units.len()
            ==> (#[trigger] self.units[i]).valid(n_weapons)
        &&& forall|i: int| 0 <= i < self.loot.len()
            ==> (#[trigger] self.loot[i]).valid(n_weapons)
        &&& forall|i: int| 0 <= i < self.projectiles.len()
            ==> (#[trigger] self.projectiles[i]).valid(n_weapons)
        &&& forall|i: int| 0 <= i < self.sounds.len() ==> (#[trigger] self.sounds[i]).valid()
        &&& self.zone.valid()
    }

    /// The units of the controlled team, in snapshot order.
    pub fn my_units(&self) -> (r: Vec<Unit>)
        ensures
            r@ == self.units@.filter(team_pred(self.my_id, true)),
    {
        let mut r: Vec<Unit> = Vec::new();
        let my_id = self.my_id;
        for i in 0..self.units.len()
            invariant
                my_id == self.my_id,
                r@ == self.units@.take(i as int).filter(team_pred(my_id, true)),
        {
            if self.units[i].player_id == my_id {
                let u = self.units[i];
                r.push(u);
            }
            proof {
                lemma_filter_take_step(self.units@, team_pred(my_id, true), i as int);
            }
        }
        proof {
            assert(self.units@.take(self.units@.len() as int) =~= self.units@);
        }
        r
    }

    /// The visible units of every other team, in snapshot order.
    pub fn enemy_units(&self) -> (r: Vec<Unit>)
        ensures
            r@ == self.units@.filter(team_pred(self.my_id, false)),
    {
        let mut r: Vec<Unit> = Vec::new();
        let my_id = self.my_id;
        for i in 0..self.units.len()
            invariant
                my_id == self.my_id,
                r@ == self.units@.take(i as int).filter(team_pred(my_id, false)),
        {
            if self.units[i].player_id != my_id {
                let u = self.units[i];
                r.push(u);
            }
            proof {
                lemma_filter_take_step(self.units@, team_pred(my_id, false), i as int);
            }
        }
        proof {
            assert(self.units@.take(self.units@.len() as int) =~= self.units@);
        }
        r
    }

    /// Loot whose position is within one unit radius of the given unit.
    pub fn intersecting_loot(&self, unit: &Unit, cons: &Constants) -> (r: Vec<Loot>)
        requires
            cons.valid(),
            unit.position.valid(),
            forall|i: int| 0 <= i < self.loot.len()
                ==> (#[trigger] self.loot[i]).position.valid(),
        ensures
            r@ == self.loot@.filter(near_pred(unit.position, cons.unit_radius)),
    {
        let mut r: Vec<Loot> = Vec::new();
        let upos = unit.position;
        let radius = cons.unit_radius;
        for i in 0..self.loot.len()
            invariant
                upos == unit.position,
                radius == cons.unit_radius,
                upos.valid(),
                cons.valid(),
                forall|j: int| 0 <= j < self.loot.len()
                    ==> (#[trigger] self.loot[j]).position.valid(),
                r@ == self.loot@.take(i as int).filter(near_pred(upos, radius)),
        {
            if upos.distance(&self.loot[i].position) < radius {
                let l = self.loot[i];
                r.push(l);
            }
            proof {
                lemma_filter_take_step(self.loot@, near_pred(upos, radius), i as int);
            }
        }
        proof {
            assert(self.loot@.take(self.loot@.len() as int) =~= self.loot@);
        }
        r
    }
}

/// Membership in (`mine == true`) or outside (`mine == false`) the team
/// with the given id, as a sequence predicate.
pub open spec fn team_pred(my_id: i64, mine: bool) -> spec_fn(Unit) -> bool {
    |u: Unit| (u.player_id == my_id) == mine
}

/// Loot lying strictly closer than `radius` to `p`.
pub open spec fn near_pred(p: Vec2, radius: i64) -> spec_fn(Loot) -> bool {
    |l: Loot| crate::geom::spec_distance(p, l.position) < radius
}

/// Filtering one more element extends the filtered prefix by that element
/// exactly when the predicate accepts it.
pub proof fn lemma_filter_take_step<T>(s: Seq<T>, pred: spec_fn(T) -> bool, i: int)
    requires
        0 <= i < s.len(),
    ensures
        pred(s[i]) ==> s.take(i + 1).filter(pred) == s.take(i).filter(pred).push(s[i]),
        !pred(s[i]) ==> s.take(i + 1).filter(pred) == s.take(i).filter(pred),
{
    assert(s.take(i + 1).drop_last() =~= s.take(i));
    assert(s.take(i + 1).last() == s[i]);
    reveal_with_fuel(Seq::filter, 2);
}


/// A candidate point is clear when it keeps `margin` away from every
/// obstacle's own radius.
pub open spec fn clear_pred(obstacles: Seq<Obstacle>, margin: i64) -> spec_fn(Vec2) -> bool {
    |p: Vec2| forall|i: int| 0 <= i < obstacles.len()
        ==> crate::geom::spec_distance((#[trigger] obstacles[i]).position, p)
            >= obstacles[i].radius + margin
}

/// Direction of ring sample `k` (of 10), as a milli-scale unit vector.
/// The ten bearings are fixed multiples of 36 degrees from the +x axis;
/// only their equal spacing matters to the movement scorer.
pub open spec fn spec_ring_dir(k: int) -> Vec2 {
    if k == 0 { Vec2 { x: 1000i64, y: 0i64 } }
    else if k == 1 { Vec2 { x: 809i64, y: 588i64 } }
    else if k == 2 { Vec2 { x: 309i64, y: 951i64 } }
    else if k == 3 { Vec2 { x: -309i64, y: 951i64 } }
    else if k == 4 { Vec2 { x: -809i64, y: 588i64 } }
    else if k == 5 { Vec2 { x: -1000i64, y: 0i64 } }
    else if k == 6 { Vec2 { x: -809i64, y: -588i64 } }
    else if k == 7 { Vec2 { x: -309i64, y: -951i64 } }
    else if k == 8 { Vec2 { x: 309i64, y: -951i64 } }
    else { Vec2 { x: 809i64, y: -588i64 } }
}

/// Executable twin of `spec_ring_dir`.
pub fn ring_dir(k: usize) -> (r: Vec2)
    requires
        k < 10,
    ensures
        r == spec_ring_dir(k as int),
        r.valid(),
{
    if k == 0 { Vec2 { x: 1000, y: 0 } }
    else if k == 1 { Vec2 { x: 809, y: 588 } }
    else if k == 2 { Vec2 { x: 309, y: 951 } }
    else if k == 3 { Vec2 { x: -309, y: 951 } }
    else if k == 4 { Vec2 { x: -809, y: 588 } }
    else if k == 5 { Vec2 { x: -1000, y: 0 } }
    else if k == 6 { Vec2 { x: -809, y: -588 } }
    else if k == 7 { Vec2 { x: -309, y: -951 } }
    else if k == 8 { Vec2 { x: 309, y: -951 } }
    else { Vec2 { x: 809, y: -588 } }
}

/// One point of the movement grid: `pos` shifted by whole game units.
pub open spec fn grid_point(pos: Vec2, radius: i64, a: int, b: int) -> Vec2 {
    Vec2 {
        x: (pos.x + (a - radius) * crate::geom::DIR_SCALE) as i64,
        y: (pos.y + (b - radius) * crate::geom::DIR_SCALE) as i64,
    }
}

/// Grid points near enough to `pos`.
pub open spec fn grid_near_pred(pos: Vec2, limit: i64) -> spec_fn(Vec2) -> bool {
    |p: Vec2| crate::geom::spec_distance(pos, p) <= limit
}

/// The full square grid around `pos`, row by row.
pub open spec fn spec_grid(pos: Vec2, radius: i64) -> Seq<Vec2> {
    Seq::new(((2 * radius + 1) * (2 * radius + 1)) as nat,
        |t: int| grid_point(pos, radius, t / (2 * radius + 1), t % (2 * radius + 1)))
}

impl Unit {
    /// The unit's view direction, with a fixed fallback when it is zero.
    pub open spec fn spec_dirn(self) -> Vec2 {
        if self.direction.x == 0 && self.direction.y == 0 {
            Vec2 { x: crate::geom::DIR_SCALE, y: 0 }
        } else {
            self.direction
        }
    }

    pub fn dirn(&self) -> (r: Vec2)
        requires
            self.direction.valid(),
        ensures
            r == self.spec_dirn(),
            r.valid(),
            !(r.x == 0 && r.y == 0),
    {
        if self.direction.x == 0 && self.direction.y == 0 {
            Vec2 { x: crate::geom::DIR_SCALE, y: 0 }
        } else {
            self.direction
        }
    }

    /// Half of the current view arc, in milli-radians: the field of view
    /// narrows toward the weapon's aimed field of view as aim progresses.
    pub open spec fn spec_half_view_mrad(self, cons: Constants) -> int {
        let fov = cons.field_of_view as int;
        let afov = match self.weapon {
            Option::None => fov,
            Option::Some(w) => cons.weapons[w as int].aim_field_of_view as int,
        };
        crate::geom::tdiv(fov - crate::geom::tdiv((fov - afov) * self.aim, AIM_SCALE as int), 2)
    }

    pub fn half_view_mrad(&self, cons: &Constants) -> (r: i64)
        requires
            cons.valid(),
            self.valid(cons.weapons.len() as int),
        ensures
            r == self.spec_half_view_mrad(*cons),
            -2 * FOV_MAX <= r <= 2 * FOV_MAX,
    {
        let fov = cons.field_of_view;
        let afov = match self.weapon {
            Option::None => fov,
            Option::Some(w) => cons.weapons[w].aim_field_of_view,
        };
        proof {
            assert(-FOV_MAX * AIM_SCALE <= (fov - afov) * self.aim <= FOV_MAX * AIM_SCALE)
                by (nonlinear_arith)
                requires
                    -FOV_MAX <= fov - afov <= FOV_MAX,
                    0 <= self.aim <= AIM_SCALE,
            {
            }
        }
        let narrowing = crate::geom::div_trunc((fov - afov) * self.aim, AIM_SCALE);
        proof {
            crate::geom::lemma_tdiv_keeps_range((fov - afov) * self.aim, FOV_MAX * AIM_SCALE as int);
        }
        crate::geom::div_trunc(fov - narrowing, 2)
    }

    /// Whether `p` lies inside the unit's current vision sector: within
    /// view distance, and within the (aim-narrowed) view arc around the
    /// unit's facing direction.
    pub open spec fn spec_is_inside_vision(self, p: Vec2, cons: Constants) -> bool {
        let d = crate::geom::spec_distance(self.position, p);
        if d > cons.view_distance {
            false
        } else if d == 0 {
            true
        } else {
            let dir = self.spec_dirn();
            let nd = crate::geom::spec_distance(dir, Vec2 { x: 0, y: 0 });
            let off = Vec2 { x: (p.x - self.position.x) as i64, y: (p.y - self.position.y) as i64 };
            crate::geom::COS_SCALE * crate::geom::spec_dot(off, dir)
                >= crate::geom::spec_cos_mrad(self.spec_half_view_mrad(cons)) * d * nd
        }
    }

    pub fn is_inside_vision(&self, p: &Vec2, cons: &Constants) -> (r: bool)
        requires
            cons.valid(),
            self.valid(cons.weapons.len() as int),
            p.valid(),
        ensures
            r == self.spec_is_inside_vision(*p, *cons),
    {
        let d = self.position.distance(p);
        if d > cons.view_distance {
            return false;
        }
        if d == 0 {
            return true;
        }
        let dir = self.dirn();
        let nd = dir.len();
        let off = Vec2 { x: p.x - self.position.x, y: p.y - self.position.y };
        let half = self.half_view_mrad(cons);
        let c = crate::geom::cos_mrad(half);
        let lhs: i128 = (crate::geom::COS_SCALE as i128) * (crate::geom::dot(off, dir) as i128);
        proof {
            assert(-13_000_000_000 <= (c as int) * (d as int) <= 13_000_000_000
                && -200_000_000_000_000_000 <= ((c as int) * (d as int)) * (nd as int)
                    <= 200_000_000_000_000_000) by (nonlinear_arith)
                requires
                    -1_000 <= c <= 1_000,
                    0 <= d <= 12_000_000,
                    0 <= nd <= 12_000_000,
            {
            }
        }
        let rhs: i128 = (c as i128) * (d as i128) * (nd as i128);
        lhs >= rhs
    }

    /// My own team's other units, in snapshot order.
    pub fn my_other_units(&self, game: &Game) -> (r: Vec<Unit>)
        ensures
            r@ == game.units@.filter(fellow_pred(game.my_id, self.id)),
    {
        let mut r: Vec<Unit> = Vec::new();
        let my_id = game.my_id;
        let id = self.id;
        for i in 0..game.units.len()
            invariant
                my_id == game.my_id,
                id == self.id,
                r@ == game.units@.take(i as int).filter(fellow_pred(my_id, id)),
        {
            if game.units[i].player_id == my_id && game.units[i].id != id {
                let u = game.units[i];
                r.push(u);
            }
            proof {
                lemma_filter_take_step(game.units@, fellow_pred(my_id, id), i as int);
            }
        }
        proof {
            assert(game.units@.take(game.units@.len() as int) =~= game.units@);
        }
        r
    }

    /// The closest other spawned unit of my team, with its distance;
    /// None when the team has no other spawned unit. Of several at the
    /// same distance, the earliest in snapshot order is returned.
    pub fn my_closest_other_unit(&self, game: &Game) -> (r: Option<(i64, Unit)>)
        requires
            self.position.in_arena(),
            forall|i: int| 0 <= i < game.units.len()
                ==> (#[trigger] game.units[i]).position.in_arena(),
        ensures
            ({
                let cands = game.units@.filter(spawned_fellow_pred(game.my_id, self.id));
                match r {
                    Option::None => cands.len() == 0,
                    Option::Some((d, u)) => {
                        &&& exists|i: int| 0 <= i < cands.len() && u == cands[i]
                            && (forall|j: int| 0 <= j < i
                                ==> crate::geom::spec_distance(self.position,
                                    (#[trigger] cands[j]).position) > d)
                        &&& d == crate::geom::spec_distance(self.position, u.position)
                        &&& forall|j: int| 0 <= j < cands.len()
                            ==> crate::geom::spec_distance(self.position,
                                (#[trigger] cands[j]).position) >= d
                    },
                }
            }),
    {
        let mut cands: Vec<Unit> = Vec::new();
        let my_id = game.my_id;
        let id = self.id;
        for i in 0..game.units.len()
            invariant
                my_id == game.my_id,
                id == self.id,
                cands@ == game.units@.take(i as int).filter(spawned_fellow_pred(my_id, id)),
                forall|j: int| 0 <= j < game.units.len()
                    ==> (#[trigger] game.units[j]).position.in_arena(),
                forall|j: int| 0 <= j < cands@.len()
                    ==> (#[trigger] cands@[j]).position.in_arena(),
        {
            if game.units[i].player_id == my_id && game.units[i].id != id
                && game.units[i].remaining_spawn_time.is_none() {
                let u = game.units[i];
                r_push_cand(&mut cands, u);
            }
            proof {
                lemma_filter_take_step(game.units@, spawned_fellow_pred(my_id, id), i as int);
            }
        }
        proof {
            assert(game.units@.take(game.units@.len() as int) =~= game.units@);
        }
        let ghost gcands = game.units@.filter(spawned_fellow_pred(game.my_id, self.id));
        if cands.len() == 0 {
            return Option::None;
        }
        let mut best = cands[0];
        let mut best_d = self.position.distance(&cands[0].position);
        let ghost mut best_i: int = 0;
        for i in 1..cands.len()
            invariant
                cands@ == gcands,
                forall|j: int| 0 <= j < gcands.len()
                    ==> (#[trigger] gcands[j]).position.in_arena(),
                self.position.in_arena(),
                0 <= best_i < i as int,
                i <= cands.len(),
                best == gcands[best_i],
                best_d == crate::geom::spec_distance(self.position, best.position),
                forall|j: int| 0 <= j < i as int
                    ==> crate::geom::spec_distance(self.position,
                        (#[trigger] gcands[j]).position) >= best_d,
                forall|j: int| 0 <= j < best_i
                    ==> crate::geom::spec_distance(self.position,
                        (#[trigger] gcands[j]).position) > best_d,
        {
            let d = self.position.distance(&cands[i].position);
            if d < best_d {
                best = cands[i];
                best_d = d;
                proof {
                    best_i = i as int;
                }
            }
        }
        Option::Some((best_d, best))
    }
}

/// Helper so that pushing a copy keeps the element identity visible.
fn r_push_cand(v: &mut Vec<Unit>, u: Unit)
    ensures
        final(v)@ == old(v)@.push(u),
{
    v.push(u);
}

/// Another unit of the same team.
pub open spec fn fellow_pred(my_id: i64, id: i64) -> spec_fn(Unit) -> bool {
    |u: Unit| u.player_id == my_id && u.id != id
}

/// Another, already spawned unit of the same team.
pub open spec fn spawned_fellow_pred(my_id: i64, id: i64) -> spec_fn(Unit) -> bool {
    |u: Unit| u.player_id == my_id && u.id != id && u.remaining_spawn_time is None
}


impl Unit {
    /// Forward edge of the circle reachable within two ticks.
    pub open spec fn spec_move_fwd(self, cons: Constants) -> Vec2 {
        crate::geom::spec_rotate(self.position, self.spec_dirn(),
            (2 * cons.max_unit_forward_speed) as i64)
    }

    /// Backward edge of the circle reachable within two ticks.
    pub open spec fn spec_move_bwd(self, cons: Constants) -> Vec2 {
        let d = self.spec_dirn();
        crate::geom::spec_rotate(self.position, Vec2 { x: (-d.x) as i64, y: (-d.y) as i64 },
            (2 * cons.max_unit_backward_speed) as i64)
    }

    /// Center of the reachable circle.
    pub open spec fn spec_move_center(self, cons: Constants) -> Vec2 {
        crate::geom::spec_mid(self.spec_move_fwd(cons), self.spec_move_bwd(cons))
    }

    /// Radius of the reachable circle.
    pub open spec fn spec_move_radius(self, cons: Constants) -> int {
        crate::geom::spec_distance(self.spec_move_fwd(cons), self.spec_move_center(cons))
    }

    /// The ten candidate movement points: a ring of equally spaced
    /// samples on the reachable circle.
    pub open spec fn spec_move_ring(self, cons: Constants) -> Seq<Vec2> {
        Seq::new(10, |k: int| crate::geom::spec_rotate(self.spec_move_center(cons),
            spec_ring_dir(k), self.spec_move_radius(cons) as i64))
    }

    /// Candidate micro-movement points around the unit. With
    /// `check_obstacles`, points that touch an obstacle (grown by the
    /// unit radius) are excluded outright.
    pub fn points_around_unit(&self, cons: &Constants, obstacles: &Vec<Obstacle>,
        check_obstacles: bool) -> (r: Vec<Vec2>)
        requires
            cons.valid(),
            self.position.in_arena(),
            self.direction.valid(),
            forall|i: int| 0 <= i < obstacles.len() ==> (#[trigger] obstacles[i]).valid(),
        ensures
            r@.len() <= 10,
            forall|j: int| 0 <= j < r@.len() ==> (#[trigger] r@[j]).valid(),
            check_obstacles ==> r@ == self.spec_move_ring(*cons).filter(
                clear_pred(obstacles@, cons.unit_radius)),
            !check_obstacles ==> r@ == self.spec_move_ring(*cons),
    {
        let dirn = self.dirn();
        let df = 2 * cons.max_unit_forward_speed;
        let db = 2 * cons.max_unit_backward_speed;
        let fwd = crate::geom::rotate(self.position, dirn, df);
        let ndir = Vec2 { x: -dirn.x, y: -dirn.y };
        let bwd = crate::geom::rotate(self.position, ndir, db);
        proof {
            crate::geom::lemma_rotate_close(self.position, dirn, df);
            crate::geom::lemma_rotate_close(self.position, ndir, db);
        }
        let center = crate::geom::mid(fwd, bwd);
        assert(-41_000 <= fwd.x - center.x <= 41_000 && -41_000 <= fwd.y - center.y <= 41_000);
        let radius = fwd.distance(&center);
        proof {
            assert(crate::geom::sq_dist(fwd, center) <= 2 * 41_000 * 41_000) by (nonlinear_arith)
                requires
                    -41_000 <= fwd.x - center.x <= 41_000,
                    -41_000 <= fwd.y - center.y <= 41_000,
            {
            }
            assert(radius < 58_000) by (nonlinear_arith)
                requires
                    (radius as int) * (radius as int) <= 2 * 41_000 * 41_000,
                    radius >= 0,
            {
            }
            assert(center == self.spec_move_center(*cons));
            assert(radius == self.spec_move_radius(*cons));
        }
        let ghost ring = self.spec_move_ring(*cons);
        let margin = cons.unit_radius;
        let mut r: Vec<Vec2> = Vec::new();
        for k in 0..10usize
            invariant
                center == self.spec_move_center(*cons),
                radius == self.spec_move_radius(*cons),
                0 <= radius < 58_000,
                center.valid(),
                -COORD_MAX <= center.x - radius,
                center.x + radius <= COORD_MAX,
                -COORD_MAX <= center.y - radius,
                center.y + radius <= COORD_MAX,
                margin == cons.unit_radius,
                0 <= margin <= RADIUS_MAX,
                ring == self.spec_move_ring(*cons),
                forall|i: int| 0 <= i < obstacles.len() ==> (#[trigger] obstacles[i]).valid(),
                forall|j: int| 0 <= j < r@.len() ==> (#[trigger] r@[j]).valid(),
                check_obstacles ==> r@ == ring.take(k as int).filter(
                    clear_pred(obstacles@, margin)),
                !check_obstacles ==> r@ == ring.take(k as int),
        {
            let dk = ring_dir(k);
            let cand = crate::geom::rotate(center, dk, radius);
            assert(cand == ring[k as int]);
            if check_obstacles {
                let ok = point_is_clear(&cand, obstacles, margin);
                if ok {
                    r.push(cand);
                }
                proof {
                    lemma_filter_take_step(ring, clear_pred(obstacles@, margin), k as int);
                }
            } else {
                r.push(cand);
                proof {
                    assert(ring.take(k + 1 as int) =~= ring.take(k as int).push(ring[k as int]));
                }
            }
        }
        proof {
            assert(ring.take(10) =~= ring);
            if check_obstacles {
                ring.lemma_filter_len(clear_pred(obstacles@, margin));
            }
        }
        r
    }

    /// Whole-unit grid points around the unit, kept when within `radius`
    /// game units of it.
    pub fn points_in_radius(&self, radius: i64) -> (r: Vec<Vec2>)
        requires
            self.position.in_arena(),
            0 <= radius <= 100,
        ensures
            r@ == spec_grid(self.position, radius).filter(
                grid_near_pred(self.position, (radius * crate::geom::DIR_SCALE) as i64)),
            forall|j: int| 0 <= j < r@.len() ==> (#[trigger] r@[j]).valid(),
    {
        let w: u64 = (2 * radius + 1) as u64;
        proof {
            assert(w * w <= 201 * 201) by (nonlinear_arith)
                requires
                    0 < w <= 201,
            {
            }
        }
        let total: u64 = w * w;
        let limit: i64 = radius * crate::geom::DIR_SCALE;
        let ghost grid = spec_grid(self.position, radius);
        let ghost pred = grid_near_pred(self.position, limit);
        let mut r: Vec<Vec2> = Vec::new();
        let mut t: u64 = 0;
        while t < total
            invariant
                w == 2 * radius + 1,
                total == w * w,
                1 <= w <= 201,
                total <= 40_401,
                0 <= t <= total,
                limit == radius * crate::geom::DIR_SCALE,
                0 <= radius <= 100,
                self.position.in_arena(),
                grid == spec_grid(self.position, radius),
                pred == grid_near_pred(self.position, limit),
                grid.len() == total,
                r@ == grid.take(t as int).filter(pred),
                forall|j: int| 0 <= j < r@.len() ==> (#[trigger] r@[j]).valid(),
            decreases total - t,
        {
            let a = t / w;
            let b = t % w;
            proof {
                assert(t / w < w && t % w < w) by (nonlinear_arith)
                    requires
                        0 < w,
                        t < w * w,
                {
                }
            }
            let p = Vec2 {
                x: self.position.x + (a as i64 - radius) * crate::geom::DIR_SCALE,
                y: self.position.y + (b as i64 - radius) * crate::geom::DIR_SCALE,
            };
            assert(p == grid[t as int]);
            if self.position.distance(&p) <= limit {
                r.push(p);
            }
            proof {
                lemma_filter_take_step(grid, pred, t as int);
            }
            t = t + 1;
        }
        proof {
            assert(grid.take(total as int) =~= grid);
        }
        r
    }
}

/// Whether `p` keeps `margin` clear of every obstacle.
pub fn point_is_clear(p: &Vec2, obstacles: &Vec<Obstacle>, margin: i64) -> (r: bool)
    requires
        p.valid(),
        0 <= margin <= RADIUS_MAX,
        forall|i: int| 0 <= i < obstacles.len() ==> (#[trigger] obstacles[i]).valid(),
    ensures
        r == clear_pred(obstacles@, margin)(*p),
{
    for i in 0..obstacles.len()
        invariant
            p.valid(),
            0 <= margin <= RADIUS_MAX,
            forall|k: int| 0 <= k < obstacles.len() ==> (#[trigger] obstacles[k]).valid(),
            forall|k: int| 0 <= k < i
                ==> crate::geom::spec_distance((#[trigger] obstacles@[k]).position, *p)
                    >= obstacles@[k].radius + margin,
    {
        if obstacles[i].position.distance(p) < obstacles[i].radius + margin {
            return false;
        }
    }
    true
}


impl WeaponProperties {
    /// Executable twin of `valid`.
    pub fn check_valid(&self) -> (r: bool)
        ensures
            r == self.valid(),
    {
        0 <= self.aim_ticks && self.aim_ticks <= TICK_MAX
            && 0 <= self.aim_field_of_view && self.aim_field_of_view <= FOV_MAX
            && 1 <= self.fire_rate_ticks && self.fire_rate_ticks <= TICK_MAX
            && 0 <= self.projectile_damage && self.projectile_damage <= HP_MAX
            && 0 <= self.projectile_speed && self.projectile_speed <= SPEED_MAX
            && 0 <= self.projectile_life_ticks && self.projectile_life_ticks <= LIFE_MAX
            && 0 <= self.spread && self.spread <= SPREAD_MAX
            && 1 <= self.max_inventory_ammo && self.max_inventory_ammo <= AMMO_MAX
    }
}

fn check_coord_arena(v: &Vec2) -> (r: bool)
    ensures
        r == v.in_arena(),
{
    -crate::geom::ARENA_MAX <= v.x && v.x <= crate::geom::ARENA_MAX
        && -crate::geom::ARENA_MAX <= v.y && v.y <= crate::geom::ARENA_MAX
}

impl Constants {
    /// Executable twin of `valid`.
    pub fn check_valid(&self) -> (r: bool)
        ensures
            r == self.valid(),
    {
        let head = 1 <= self.unit_radius && self.unit_radius <= RADIUS_MAX
            && 1 <= self.unit_health && self.unit_health <= HP_MAX
            && 0 <= self.max_shield && self.max_shield <= HP_MAX
            && 0 <= self.max_shield_potions_in_inventory
            && self.max_shield_potions_in_inventory <= AMMO_MAX
            && 0 <= self.view_distance && self.view_distance <= COORD_MAX
            && 0 <= self.field_of_view && self.field_of_view <= FOV_MAX
            && 1 <= self.max_unit_forward_speed && self.max_unit_forward_speed <= SPEED_MAX
            && 0 <= self.max_unit_backward_speed && self.max_unit_backward_speed <= SPEED_MAX
            && self.weapons.len() <= AMMO_SLOTS
            && 0 <= self.zone_speed && self.zone_speed <= SPEED_MAX
            && 0 <= self.spawn_ticks && self.spawn_ticks <= TICK_MAX;
        if !head {
            return false;
        }
        for i in 0..self.weapons.len()
            invariant
                forall|k: int| 0 <= k < i ==> (#[trigger] self.weapons[k]).valid(),
        {
            if !self.weapons[i].check_valid() {
                return false;
            }
        }
        for i in 0..self.obstacles.len()
            invariant
                forall|k: int| 0 <= k < i ==> (#[trigger] self.obstacles[k]).valid(),
        {
            let ok = check_coord_arena(&self.obstacles[i].position)
                && 0 <= self.obstacles[i].radius && self.obstacles[i].radius <= RADIUS_MAX;
            if !ok {
                return false;
            }
        }
        true
    }
}

impl Unit {
    /// Executable twin of `valid`.
    pub fn check_valid(&self, n_weapons: usize) -> (r: bool)
        ensures
            r == self.valid(n_weapons as int),
    {
        let head = check_coord_arena(&self.position)
            && check_coord_arena(&self.velocity)
            && check_coord_arena(&self.direction)
            && 0 <= self.health && self.health <= HP_MAX
            && 0 <= self.shield && self.shield <= HP_MAX
            && 0 <= self.aim && self.aim <= AIM_SCALE
            && 0 <= self.next_shot_tick && self.next_shot_tick <= TICK_MAX
            && (match self.remaining_spawn_time {
                Option::Some(t) => 0 <= t && t <= TICK_MAX,
                Option::None => true,
            })
            && (match self.weapon {
                Option::Some(w) => w < n_weapons && w < AMMO_SLOTS,
                Option::None => true,
            })
            && 0 <= self.shield_potions && self.shield_potions <= AMMO_MAX;
        if !head {
            return false;
        }
        let mut i: usize = 0;
        while i < AMMO_SLOTS
            invariant
                0 <= i <= AMMO_SLOTS,
                forall|k: int| 0 <= k < i ==> 0 <= #[trigger] self.ammo[k] <= AMMO_MAX,
            decreases AMMO_SLOTS - i,
        {
            if !(0 <= self.ammo[i] && self.ammo[i] <= AMMO_MAX) {
                return false;
            }
            i = i + 1;
        }
        true
    }
}

impl Game {
    /// Executable twin of `valid`.
    pub fn check_valid(&self, cons: &Constants) -> (r: bool)
        ensures
            r == self.valid(cons.weapons.len() as int),
    {
        let n = cons.weapons.len();
        if !(0 <= self.current_tick && self.current_tick <= TICK_MAX) {
            return false;
        }
        if !self.zone.current_center.check_zone_part(self.zone.current_radius)
            || !self.zone.next_center.check_zone_part(self.zone.next_radius) {
            return false;
        }
        for i in 0..self.units.len()
            invariant
                n == cons.weapons.len(),
                forall|k: int| 0 <= k < i ==> (#[trigger] self.units[k]).valid(n as int),
        {
            if !self.units[i].check_valid(n) {
                return false;
            }
        }
        for i in 0..self.loot.len()
            invariant
                n == cons.weapons.len(),
                forall|k: int| 0 <= k < i ==> (#[trigger] self.loot[k]).valid(n as int),
        {
            let l = &self.loot[i];
            let ok = check_coord_arena(&l.position) && (match l.item {
                Item::Weapon { type_index } => type_index < n,
                Item::ShieldPotions { amount } => 0 <= amount && amount <= AMMO_MAX,
                Item::Ammo { weapon_type_index, amount } =>
                    weapon_type_index < n && 0 <= amount && amount <= AMMO_MAX,
            });
            if !ok {
                return false;
            }
        }
        for i in 0..self.projectiles.len()
            invariant
                n == cons.weapons.len(),
                forall|k: int| 0 <= k < i ==> (#[trigger] self.projectiles[k]).valid(n as int),
        {
            let p = &self.projectiles[i];
            let travel_ok = if -SPEED_MAX <= p.velocity.x && p.velocity.x <= SPEED_MAX
                && -SPEED_MAX <= p.velocity.y && p.velocity.y <= SPEED_MAX
                && 0 <= p.life_ticks && p.life_ticks <= LIFE_MAX {
                proof {
                    assert(-10_000_000 <= p.velocity.x * p.life_ticks <= 10_000_000
                        && -10_000_000 <= p.velocity.y * p.life_ticks <= 10_000_000)
                        by (nonlinear_arith)
                        requires
                            -10_000 <= p.velocity.x <= 10_000,
                            -10_000 <= p.velocity.y <= 10_000,
                            0 <= p.life_ticks <= 1_000,
                    {
                    }
                }
                -1_000_000 <= p.velocity.x * p.life_ticks
                    && p.velocity.x * p.life_ticks <= 1_000_000
                    && -1_000_000 <= p.velocity.y * p.life_ticks
                    && p.velocity.y * p.life_ticks <= 1_000_000
            } else {
                false
            };
            let ok = check_coord_arena(&p.position) && travel_ok
                && p.weapon_type_index < n;
            if !ok {
                return false;
            }
        }
        for i in 0..self.sounds.len()
            invariant
                forall|k: int| 0 <= k < i ==> (#[trigger] self.sounds[k]).valid(),
        {
            if !check_coord_arena(&self.sounds[i].position) {
                return false;
            }
        }
        true
    }
}

impl Vec2 {
    /// Zone helper: the center in range with an in-range radius.
    pub fn check_zone_part(&self, radius: i64) -> (r: bool)
        ensures
            r == (self.in_arena() && 0 <= radius <= crate::geom::ARENA_MAX),
    {
        check_coord_arena(self) && 0 <= radius && radius <= crate::geom::ARENA_MAX
    }
}

} // verus!

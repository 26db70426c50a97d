//! Loot Valuator: scores visible and remembered loot against a unit's
//! current equipment need and picks the best reachable item.

use vstd::prelude::*;

use crate::geom::spec_distance;
use crate::model::{Constants, Item, Loot, Unit};
use crate::scoring::{spec_magnet_score, my_units_magnet_score};
use crate::world::World;

verus! {

/// Whether the loot lies comfortably inside the shrinking safe zone:
/// its distance to the center, grown by one unit radius, must stay
/// under the current radius shrunk by what the zone loses while a unit
/// walks there.
pub open spec fn spec_is_inside_zone(zone: crate::model::Zone, cons: Constants, l: Loot)
    -> bool {
    let d = spec_distance(zone.current_center, l.position);
    d + cons.unit_radius <= zone.current_radius
        - cons.zone_speed * (d / (cons.max_unit_forward_speed as int))
}

pub fn is_inside_zone(l: &Loot, zone: &crate::model::Zone, cons: &Constants) -> (r: bool)
    requires
        cons.valid(),
        zone.valid(),
        l.position.in_arena(),
    ensures
        r == spec_is_inside_zone(*zone, *cons, *l),
{
    let d = zone.current_center.distance(&l.position);
    let travel = crate::geom::div_trunc(d, cons.max_unit_forward_speed);
    proof {
        assert(0 <= cons.zone_speed * ((d as int) / (cons.max_unit_forward_speed as int))
            <= 10_000 * 12_000_000) by (nonlinear_arith)
            requires
                0 <= cons.zone_speed <= 10_000,
                0 <= (d as int) / (cons.max_unit_forward_speed as int) <= 12_000_000,
        {
        }
    }
    d + cons.unit_radius <= zone.current_radius - cons.zone_speed * travel
}

/// Whether the unit has any use for the item: a weapon only as an
/// upgrade, potions only under the inventory cap, ammo only under the
/// carry cap of its type.
pub open spec fn spec_is_loot_needed(l: Loot, u: Unit, cons: Constants) -> bool {
    match l.item {
        Item::Weapon { type_index } => match u.weapon {
            Option::None => true,
            Option::Some(w) => w < type_index,
        },
        Item::ShieldPotions { amount } =>
            u.shield_potions < cons.max_shield_potions_in_inventory,
        Item::Ammo { weapon_type_index, amount } =>
            u.ammo[weapon_type_index as int]
                < cons.weapons[weapon_type_index as int].max_inventory_ammo,
    }
}

pub fn is_loot_needed(l: &Loot, u: &Unit, cons: &Constants) -> (r: bool)
    requires
        cons.valid(),
        l.valid(cons.weapons.len() as int),
        u.valid(cons.weapons.len() as int),
    ensures
        r == spec_is_loot_needed(*l, *u, *cons),
{
    match l.item {
        Item::Weapon { type_index } => match u.weapon {
            Option::None => true,
            Option::Some(w) => w < type_index,
        },
        Item::ShieldPotions { amount: _ } =>
            u.shield_potions < cons.max_shield_potions_in_inventory,
        Item::Ammo { weapon_type_index, amount: _ } =>
            u.ammo[weapon_type_index]
                < cons.weapons[weapon_type_index].max_inventory_ammo,
    }
}

/// Whether some known enemy could fire on the loot's position.
pub open spec fn spec_in_enemy_range(enemies: Seq<Unit>, cons: Constants, l: Loot) -> bool {
    exists|i: int| 0 <= i < enemies.len()
        && spec_distance((#[trigger] enemies[i]).position, l.position) + cons.unit_radius
            < enemies[i].spec_firing_distance(cons)
}

fn in_enemy_range(enemies: &Vec<Unit>, cons: &Constants, l: &Loot) -> (r: bool)
    requires
        cons.valid(),
        l.position.in_arena(),
        forall|i: int| 0 <= i < enemies.len()
            ==> (#[trigger] enemies[i]).valid(cons.weapons.len() as int),
    ensures
        r == spec_in_enemy_range(enemies@, *cons, *l),
{
    let mut i: usize = 0;
    while i < enemies.len()
        invariant
            cons.valid(),
            l.position.in_arena(),
            forall|k: int| 0 <= k < enemies.len()
                ==> (#[trigger] enemies[k]).valid(cons.weapons.len() as int),
            0 <= i <= enemies@.len(),
            forall|k: int| 0 <= k < i
                ==> !(spec_distance((#[trigger] enemies@[k]).position, l.position)
                    + cons.unit_radius < enemies@[k].spec_firing_distance(*cons)),
        decreases enemies@.len() - i,
    {
        let d = enemies[i].position.distance(&l.position);
        let fd = enemies[i].firing_distance(cons);
        if d + cons.unit_radius < fd {
            proof {
                assert(spec_in_enemy_range(enemies@, *cons, *l));
            }
            return true;
        }
        i = i + 1;
    }
    false
}

/// The item's raw value to the unit, in whole points.
pub open spec fn spec_item_score(l: Loot, u: Unit, cons: Constants) -> int {
    match l.item {
        Item::Weapon { type_index } => match u.weapon {
            Option::None => (type_index + 1) * 10,
            Option::Some(w) => if u.ammo[type_index as int] == 0 {
                0
            } else if w < type_index {
                (type_index + 1) * 10
            } else {
                0
            },
        },
        Item::ShieldPotions { amount } =>
            if u.shield_potions < cons.max_shield_potions_in_inventory {
                if u.health <= 0 {
                    10 * cons.unit_health
                } else {
                    (10 * cons.unit_health + u.health - 1) / (u.health as int)
                }
            } else {
                0
            },
        Item::Ammo { weapon_type_index, amount } => {
            let have = u.ammo[weapon_type_index as int];
            let cap = cons.weapons[weapon_type_index as int].max_inventory_ammo;
            if have >= cap {
                0
            } else if have == 0 {
                (weapon_type_index + 1) * 5
            } else {
                ((weapon_type_index + 1) * 5 * cap + have - 1) / (have as int)
            }
        },
    }
}

fn item_score(l: &Loot, u: &Unit, cons: &Constants) -> (r: i64)
    requires
        cons.valid(),
        l.valid(cons.weapons.len() as int),
        u.valid(cons.weapons.len() as int),
    ensures
        r == spec_item_score(*l, *u, *cons),
        0 <= r <= 100_000_000,
{
    match l.item {
        Item::Weapon { type_index } => match u.weapon {
            Option::None => (type_index as i64 + 1) * 10,
            Option::Some(w) => if u.ammo[type_index] == 0 {
                0
            } else if w < type_index {
                (type_index as i64 + 1) * 10
            } else {
                0
            },
        },
        Item::ShieldPotions { amount: _ } => {
            if u.shield_potions < cons.max_shield_potions_in_inventory {
                if u.health <= 0 {
                    10 * cons.unit_health
                } else {
                    proof {
                        assert(0 <= (10 * cons.unit_health + u.health - 1) / (u.health as int)
                            <= 10 * cons.unit_health) by (nonlinear_arith)
                            requires
                                1 <= u.health <= 1_000_000,
                                1 <= cons.unit_health <= 1_000_000,
                        {
                        }
                    }
                    ((10 * cons.unit_health + u.health - 1) as u64 / (u.health as u64)) as i64
                }
            } else {
                0
            }
        },
        Item::Ammo { weapon_type_index, amount: _ } => {
            let have = u.ammo[weapon_type_index];
            let cap = cons.weapons[weapon_type_index].max_inventory_ammo;
            if have >= cap {
                0
            } else if have == 0 {
                (weapon_type_index as i64 + 1) * 5
            } else {
                proof {
                    assert(0 <= (weapon_type_index + 1) * 5 * cap
                        <= 45 * 1_000_000) by (nonlinear_arith)
                        requires
                            0 <= weapon_type_index < 8,
                            1 <= cap <= 1_000_000,
                    {
                    }
                    assert(0 <= ((weapon_type_index + 1) * 5 * cap + have - 1)
                        / (have as int) <= 45_000_000) by (nonlinear_arith)
                        requires
                            1 <= have <= 1_000_000,
                            0 <= (weapon_type_index + 1) * 5 * cap <= 45_000_000,
                    {
                    }
                }
                (((weapon_type_index as i64 + 1) * 5 * cap + have - 1) as u64
                    / (have as u64)) as i64
            }
        },
    }
}

/// Whether the loot is a candidate at all: unbooked, safely inside the
/// zone, needed, outside every enemy's firing reach, and on the right
/// side of the pickup circle.
pub open spec fn spec_loot_passes(booked: Seq<i64>, enemies: Seq<Unit>,
    zone: crate::model::Zone, cons: Constants, u: Unit, intersecting: bool, l: Loot) -> bool {
    &&& !booked.contains(l.id)
    &&& spec_is_inside_zone(zone, cons, l)
    &&& spec_is_loot_needed(l, u, cons)
    &&& !spec_in_enemy_range(enemies, cons, l)
    &&& (if intersecting {
        spec_distance(u.position, l.position) < cons.unit_radius
    } else {
        spec_distance(u.position, l.position) >= cons.unit_radius
    })
}

/// The final ranking of a candidate: its value (in milli-points) less
/// its distance and the ally-cohesion pull, so equal-value loot prefers
/// the closer, better supported item.
pub open spec fn spec_loot_rank(game: crate::model::Game, cons: Constants, u: Unit, l: Loot)
    -> int {
    spec_item_score(l, u, cons) * 1000 - spec_distance(l.position, u.position)
        - spec_magnet_score(game, u, l.position)
}

/// A loot item already booked this tick never passes the filter, so
/// within one tick two units can never both be sent to it: the first
/// books it, and every later evaluation rejects it.
pub proof fn lemma_booking_exclusive(booked: Seq<i64>, enemies: Seq<Unit>,
    zone: crate::model::Zone, cons: Constants, u: Unit, intersecting: bool, l: Loot)
    requires
        booked.contains(l.id),
    ensures
        !spec_loot_passes(booked, enemies, zone, cons, u, intersecting, l),
{
}

/// `l` is the best loot of the world's remembered list for this unit:
/// it passes the filter and carries the highest rank, the earliest on
/// ties.
pub open spec fn is_best_loot_of(w: World, u: Unit, intersecting: bool, l: Loot) -> bool {
    &&& spec_loot_passes(w.booked_loot@, w.units@, w.game.zone, w.constants, u,
        intersecting, l)
    &&& exists|i: int| 0 <= i < w.loot@.len() && w.loot@[i] == l
        && (forall|j: int| 0 <= j < i
            && spec_loot_passes(w.booked_loot@, w.units@, w.game.zone, w.constants, u,
                intersecting, #[trigger] w.loot@[j])
            ==> spec_loot_rank(w.game, w.constants, u, w.loot@[j])
                < spec_loot_rank(w.game, w.constants, u, l))
    &&& forall|j: int| 0 <= j < w.loot@.len()
        && spec_loot_passes(w.booked_loot@, w.units@, w.game.zone, w.constants, u,
            intersecting, #[trigger] w.loot@[j])
        ==> spec_loot_rank(w.game, w.constants, u, w.loot@[j])
            <= spec_loot_rank(w.game, w.constants, u, l)
}

/// No loot of the world's remembered list passes the filter.
pub open spec fn no_loot_passes(w: World, u: Unit, intersecting: bool) -> bool {
    forall|j: int| 0 <= j < w.loot@.len()
        ==> !spec_loot_passes(w.booked_loot@, w.units@, w.game.zone, w.constants, u,
            intersecting, #[trigger] w.loot@[j])
}

/// The best available loot for the unit: of the candidates that pass
/// the filter, the one of highest rank, the earliest on ties; None when
/// nothing passes.
pub fn best_loot(unit: &Unit, loots: &Vec<Loot>, intersecting: bool, world: &World)
    -> (r: Option<Loot>)
    requires
        world.wf(),
        unit.valid(world.constants.weapons.len() as int),
        forall|i: int| 0 <= i < loots.len()
            ==> (#[trigger] loots[i]).valid(world.constants.weapons.len() as int),
        forall|i: int| 0 <= i < world.units.len()
            ==> (#[trigger] world.units[i]).valid(world.constants.weapons.len() as int),
    ensures
        ({
            let booked = world.booked_loot@;
            let enemies = world.units@;
            let zone = world.game.zone;
            let cons = world.constants;
            match r {
                Option::None => forall|i: int| 0 <= i < loots@.len()
                    ==> !spec_loot_passes(booked, enemies, zone, cons, *unit, intersecting,
                        #[trigger] loots@[i]),
                Option::Some(l) => {
                    &&& spec_loot_passes(booked, enemies, zone, cons, *unit, intersecting, l)
                    &&& exists|i: int| 0 <= i < loots@.len() && loots@[i] == l
                        && (forall|j: int| 0 <= j < i
                            && spec_loot_passes(booked, enemies, zone, cons, *unit,
                                intersecting, #[trigger] loots@[j])
                            ==> spec_loot_rank(world.game, cons, *unit, loots@[j])
                                < spec_loot_rank(world.game, cons, *unit, l))
                    &&& forall|j: int| 0 <= j < loots@.len()
                        && spec_loot_passes(booked, enemies, zone, cons, *unit,
                            intersecting, #[trigger] loots@[j])
                        ==> spec_loot_rank(world.game, cons, *unit, loots@[j])
                            <= spec_loot_rank(world.game, cons, *unit, l)
                },
            }
        }),
{
    let cons = &world.constants;
    let mut best: Option<Loot> = Option::None;
    let mut best_rank: i64 = 0;
    let ghost mut best_i: int = 0;
    let mut i: usize = 0;
    while i < loots.len()
        invariant
            world.wf(),
            cons == &world.constants,
            unit.valid(cons.weapons.len() as int),
            forall|k: int| 0 <= k < loots.len()
                ==> (#[trigger] loots[k]).valid(cons.weapons.len() as int),
            forall|k: int| 0 <= k < world.units.len()
                ==> (#[trigger] world.units[k]).valid(cons.weapons.len() as int),
            0 <= i <= loots@.len(),
            (match best {
                Option::None => forall|k: int| 0 <= k < i
                    ==> !spec_loot_passes(world.booked_loot@, world.units@, world.game.zone,
                        *cons, *unit, intersecting, #[trigger] loots@[k]),
                Option::Some(l) => {
                    &&& 0 <= best_i < i as int
                    &&& loots@[best_i] == l
                    &&& spec_loot_passes(world.booked_loot@, world.units@, world.game.zone,
                        *cons, *unit, intersecting, l)
                    &&& best_rank == spec_loot_rank(world.game, *cons, *unit, l)
                    &&& forall|j: int| 0 <= j < best_i
                        && spec_loot_passes(world.booked_loot@, world.units@, world.game.zone,
                            *cons, *unit, intersecting, #[trigger] loots@[j])
                        ==> spec_loot_rank(world.game, *cons, *unit, loots@[j]) < best_rank
                    &&& forall|j: int| 0 <= j < i as int
                        && spec_loot_passes(world.booked_loot@, world.units@, world.game.zone,
                            *cons, *unit, intersecting, #[trigger] loots@[j])
                        ==> spec_loot_rank(world.game, *cons, *unit, loots@[j]) <= best_rank
                },
            }),
        decreases loots@.len() - i,
    {
        let l = loots[i];
        let passes = {
            let b = world.is_loot_booked(l.id);
            if b {
                false
            } else if !is_inside_zone(&l, &world.game.zone, cons) {
                false
            } else if !is_loot_needed(&l, unit, cons) {
                false
            } else if in_enemy_range(&world.units, cons, &l) {
                false
            } else {
                let d = unit.position.distance(&l.position);
                if intersecting {
                    d < cons.unit_radius
                } else {
                    d >= cons.unit_radius
                }
            }
        };
        if passes {
            let score = item_score(&l, unit, cons);
            let d = l.position.distance(&unit.position);
            let magnet = my_units_magnet_score(&l.position, unit, &world.game);
            let rank = score * 1000 - d - magnet;
            let better = match best {
                Option::None => true,
                Option::Some(_) => rank > best_rank,
            };
            if better {
                best = Option::Some(l);
                best_rank = rank;
                proof {
                    best_i = i as int;
                }
            }
        }
        i = i + 1;
    }
    best
}

} // verus!

//! World Memory: the per-match context object. It owns the current
//! snapshot, decaying memories of units and loot that left vision, the
//! forward-simulated projectiles, the per-unit obstacle cache, the
//! per-tick loot bookings, and the cached fight projections.

use vstd::prelude::*;

use crate::fight_sim::FightSim;
use crate::geom::Vec2;
use crate::model::{Constants, Game, Loot, Obstacle, Projectile, Sound, Unit};

verus! {

/// Ticks an unseen unit is remembered for.
pub const UNIT_TTL: i64 = 50;

/// Ticks unseen loot is remembered for.
pub const LOOT_TTL: i64 = 150;

/// No two remembered entries share an id.
pub open spec fn unit_ids_unique(mem: Seq<(i64, Unit)>) -> bool {
    forall|i: int, j: int| 0 <= i < j < mem.len()
        ==> (#[trigger] mem[i]).1.id != (#[trigger] mem[j]).1.id
}

/// The first (hence, under uniqueness, the only) entry with the id.
pub open spec fn unit_lookup(mem: Seq<(i64, Unit)>, id: i64) -> Option<(i64, Unit)>
    decreases mem.len(),
{
    if mem.len() == 0 {
        Option::None
    } else if mem[0].1.id == id {
        Option::Some(mem[0])
    } else {
        unit_lookup(mem.drop_first(), id)
    }
}

/// Same, for loot memory.
pub open spec fn loot_ids_unique(mem: Seq<(i64, Loot)>) -> bool {
    forall|i: int, j: int| 0 <= i < j < mem.len()
        ==> (#[trigger] mem[i]).1.id != (#[trigger] mem[j]).1.id
}

pub open spec fn loot_lookup(mem: Seq<(i64, Loot)>, id: i64) -> Option<(i64, Loot)>
    decreases mem.len(),
{
    if mem.len() == 0 {
        Option::None
    } else if mem[0].1.id == id {
        Option::Some(mem[0])
    } else {
        loot_lookup(mem.drop_first(), id)
    }
}

/// The remembered units themselves, in memory order.
pub open spec fn snd_unit() -> spec_fn((i64, Unit)) -> Unit {
    |e: (i64, Unit)| e.1
}

pub open spec fn snd_loot() -> spec_fn((i64, Loot)) -> Loot {
    |e: (i64, Loot)| e.1
}

/// Whether some unit of the controlled team currently sees the point.
pub open spec fn spec_inside_vision(game: Game, p: Vec2, cons: Constants) -> bool {
    exists|i: int| 0 <= i < game.units.len()
        && (#[trigger] game.units[i]).player_id == game.my_id
        && game.units[i].spec_is_inside_vision(p, cons)
}

/// The per-match decision context.
pub struct World {
    pub constants: Constants,
    pub game: Game,
    /// Remembered enemy units with their remaining time to live.
    pub unit_mem: Vec<(i64, Unit)>,
    /// The remembered units, kept in step with `unit_mem`.
    pub units: Vec<Unit>,
    /// Remembered loot with its remaining time to live.
    pub loot_mem: Vec<(i64, Loot)>,
    /// The remembered loot, kept in step with `loot_mem`.
    pub loot: Vec<Loot>,
    /// Loot ids claimed by a unit this tick.
    pub booked_loot: Vec<i64>,
    /// Known projectiles, the unseen ones forward-simulated.
    pub projectiles: Vec<Projectile>,
    /// Obstacles within view range, cached per controlled unit id.
    pub obstacle_cache: Vec<(i64, Vec<Obstacle>)>,
    /// This tick's fight projections.
    pub sims: Vec<FightSim>,
}

impl World {
    /// Internal consistency: valid constants, a valid snapshot, valid
    /// memory entries with live TTLs and unique ids, the derived lists
    /// in step with their memories, and a valid obstacle cache.
    pub open spec fn wf(self) -> bool {
        let n = self.constants.weapons.len() as int;
        &&& self.constants.valid()
        &&& self.game.valid(n)
        &&& self.game.units.len() < 1_000_000
        &&& unit_ids_unique(self.unit_mem@)
        &&& forall|i: int| 0 <= i < self.unit_mem.len()
            ==> 1 <= (#[trigger] self.unit_mem[i]).0 <= UNIT_TTL
                && self.unit_mem[i].1.valid(n)
        &&& self.units@ == self.unit_mem@.map_values(snd_unit())
        &&& loot_ids_unique(self.loot_mem@)
        &&& forall|i: int| 0 <= i < self.loot_mem.len()
            ==> 1 <= (#[trigger] self.loot_mem[i]).0 <= LOOT_TTL
                && self.loot_mem[i].1.valid(n)
        &&& self.loot@ == self.loot_mem@.map_values(snd_loot())
        &&& forall|i: int| 0 <= i < self.projectiles.len()
            ==> (#[trigger] self.projectiles[i]).valid(n)
        &&& forall|i: int, j: int| 0 <= i < self.obstacle_cache.len()
            && 0 <= j < self.obstacle_cache[i].1.len()
            ==> (#[trigger] self.obstacle_cache[i].1[j]).valid()
        &&& forall|k: int| 0 <= k < self.sims.len()
            ==> (#[trigger] self.sims[k]).rosters_valid(n)
    }

    /// A fresh context around the startup constants.
    pub fn new(constants: Constants) -> (r: World)
        requires
            constants.valid(),
        ensures
            r.wf(),
            r.constants == constants,
            r.unit_mem@.len() == 0,
            r.loot_mem@.len() == 0,
            r.booked_loot@.len() == 0,
            r.projectiles@.len() == 0,
    {
        let w = World {
            constants,
            game: Game {
                my_id: 0,
                current_tick: 0,
                units: Vec::new(),
                loot: Vec::new(),
                projectiles: Vec::new(),
                zone: crate::model::Zone {
                    current_center: Vec2 { x: 0, y: 0 },
                    current_radius: 0,
                    next_center: Vec2 { x: 0, y: 0 },
                    next_radius: 0,
                },
                sounds: Vec::new(),
            },
            unit_mem: Vec::new(),
            units: Vec::new(),
            loot_mem: Vec::new(),
            loot: Vec::new(),
            booked_loot: Vec::new(),
            projectiles: Vec::new(),
            obstacle_cache: Vec::new(),
            sims: Vec::new(),
        };
        proof {
            assert(w.units@ =~= w.unit_mem@.map_values(snd_unit()));
            assert(w.loot@ =~= w.loot_mem@.map_values(snd_loot()));
        }
        w
    }

    pub fn get_constants(&self) -> (r: &Constants)
        ensures
            r == &self.constants,
    {
        &self.constants
    }

    pub fn get_game(&self) -> (r: &Game)
        ensures
            r == &self.game,
    {
        &self.game
    }

    pub fn get_all_enemy_units(&self) -> (r: &Vec<Unit>)
        ensures
            r == &self.units,
    {
        &self.units
    }

    pub fn get_loot(&self) -> (r: &Vec<Loot>)
        ensures
            r == &self.loot,
    {
        &self.loot
    }

    pub fn get_projectiles(&self) -> (r: &Vec<Projectile>)
        ensures
            r == &self.projectiles,
    {
        &self.projectiles
    }

    pub fn get_fight_simulations(&self) -> (r: &Vec<FightSim>)
        ensures
            r == &self.sims,
    {
        &self.sims
    }

    /// Claim a loot item for the rest of this tick.
    pub fn book_loot(&mut self, id: i64)
        ensures
            final(self).booked_loot@ == old(self).booked_loot@.push(id),
            *final(self) == (World { booked_loot: final(self).booked_loot, ..*old(self) }),
    {
        self.booked_loot.push(id);
    }

    /// Whether a loot item is already claimed this tick.
    pub fn is_loot_booked(&self, id: i64) -> (r: bool)
        ensures
            r == self.booked_loot@.contains(id),
    {
        crate::util::contains_id(&self.booked_loot, id)
    }

    /// Forget a loot item for good (it was picked up).
    pub fn remove_loot(&mut self, id: i64)
        requires
            old(self).wf(),
        ensures
            final(self).wf(),
            final(self).loot_mem@ == old(self).loot_mem@.filter(loot_id_not_pred(id)),
            loot_lookup(final(self).loot_mem@, id) is None,
            *final(self) == (World {
                loot_mem: final(self).loot_mem,
                loot: final(self).loot,
                ..*old(self)
            }),
    {
        let mut kept: Vec<(i64, Loot)> = Vec::new();
        let mut kept_loot: Vec<Loot> = Vec::new();
        proof {
            assert(kept@ =~= self.loot_mem@.take(0).filter(loot_id_not_pred(id)));
            assert(kept_loot@ =~= kept@.map_values(snd_loot()));
        }
        for i in 0..self.loot_mem.len()
            invariant
                kept@ == self.loot_mem@.take(i as int).filter(loot_id_not_pred(id)),
                kept_loot@ == kept@.map_values(snd_loot()),
        {
            if self.loot_mem[i].1.id != id {
                let e = self.loot_mem[i];
                kept.push(e);
                kept_loot.push(e.1);
                proof {
                    assert(kept@.map_values(snd_loot())
                        =~= kept@.drop_last().map_values(snd_loot()).push(e.1));
                }
            }
            proof {
                crate::model::lemma_filter_take_step(self.loot_mem@, loot_id_not_pred(id),
                    i as int);
            }
        }
        proof {
            assert(self.loot_mem@.take(self.loot_mem@.len() as int) =~= self.loot_mem@);
        }
        let ghost old_mem = self.loot_mem@;
        self.loot_mem = kept;
        self.loot = kept_loot;
        proof {
            lemma_filter_keeps_loot_wf(old_mem, loot_id_not_pred(id));
            lemma_lookup_filtered_out(self.loot_mem@, id);
        }
    }

    /// The cached obstacles near the unit, or nothing if it has no
    /// cache entry.
    pub fn get_obstacles(&self, unit_id: i64) -> (r: Vec<Obstacle>)
        requires
            self.wf(),
        ensures
            forall|j: int| 0 <= j < r.len() ==> (#[trigger] r[j]).valid(),
            (match cache_lookup(self.obstacle_cache@, unit_id) {
                Option::Some(v) => r@ == v@,
                Option::None => r@.len() == 0,
            }),
    {
        let mut i: usize = 0;
        proof {
            assert(self.obstacle_cache@.skip(0) =~= self.obstacle_cache@);
        }
        while i < self.obstacle_cache.len()
            invariant
                self.wf(),
                0 <= i <= self.obstacle_cache@.len(),
                cache_lookup(self.obstacle_cache@, unit_id)
                    == cache_lookup(self.obstacle_cache@.skip(i as int), unit_id),
            decreases self.obstacle_cache@.len() - i,
        {
            proof {
                assert(self.obstacle_cache@.skip(i as int)[0] == self.obstacle_cache@[i as int]);
                assert(self.obstacle_cache@.skip(i as int).drop_first()
                    =~= self.obstacle_cache@.skip(i + 1));
            }
            if self.obstacle_cache[i].0 == unit_id {
                return clone_obstacle_list(&self.obstacle_cache[i].1);
            }
            i = i + 1;
        }
        proof {
            assert(self.obstacle_cache@.skip(self.obstacle_cache@.len() as int)
                =~= Seq::<(i64, Vec<Obstacle>)>::empty());
        }
        Vec::new()
    }
}

/// Loot entries other than the given id.
pub open spec fn loot_id_not_pred(id: i64) -> spec_fn((i64, Loot)) -> bool {
    |e: (i64, Loot)| e.1.id != id
}

/// Filtering loot memory keeps well-formed, unique entries.
proof fn lemma_filter_keeps_loot_wf(mem: Seq<(i64, Loot)>, pred: spec_fn((i64, Loot)) -> bool)
    requires
        loot_ids_unique(mem),
    ensures
        loot_ids_unique(mem.filter(pred)),
        forall|i: int| 0 <= i < mem.filter(pred).len()
            ==> mem.contains(#[trigger] mem.filter(pred)[i]),
    decreases mem.len(),
{
    reveal(Seq::filter);
    if mem.len() > 0 {
        assert(loot_ids_unique(mem.drop_last()));
        lemma_filter_keeps_loot_wf(mem.drop_last(), pred);
        assert(forall|i: int| 0 <= i < mem.drop_last().len()
            ==> #[trigger] mem.drop_last()[i] == mem[i]);
        let f = mem.filter(pred);
        let fd = mem.drop_last().filter(pred);
        assert forall|i: int, j: int| 0 <= i < j < f.len()
            implies (#[trigger] f[i]).1.id != (#[trigger] f[j]).1.id by {
            if pred(mem.last()) && j == f.len() - 1 && f.len() == fd.len() + 1 {
                assert(mem.drop_last().contains(fd[i]));
                let k = choose|k: int| 0 <= k < mem.drop_last().len()
                    && mem.drop_last()[k] == fd[i];
                assert(mem[k] == f[i]);
                assert(mem[mem.len() - 1] == f[j]);
            }
        }
    }
}

/// A lookup for an id that a filter removed finds nothing.
proof fn lemma_lookup_filtered_out(mem: Seq<(i64, Loot)>, id: i64)
    requires
        forall|i: int| 0 <= i < mem.len() ==> (#[trigger] mem[i]).1.id != id,
    ensures
        loot_lookup(mem, id) is None,
    decreases mem.len(),
{
    if mem.len() > 0 {
        assert(forall|i: int| 0 <= i < mem.drop_first().len()
            ==> #[trigger] mem.drop_first()[i] == mem[i + 1]);
        lemma_lookup_filtered_out(mem.drop_first(), id);
    }
}

/// The first cache entry of the unit id.
pub open spec fn cache_lookup(cache: Seq<(i64, Vec<Obstacle>)>, id: i64)
    -> Option<Vec<Obstacle>>
    decreases cache.len(),
{
    if cache.len() == 0 {
        Option::None
    } else if cache[0].0 == id {
        Option::Some(cache[0].1)
    } else {
        cache_lookup(cache.drop_first(), id)
    }
}

/// An owned copy of an obstacle list.
pub fn clone_obstacle_list(v: &Vec<Obstacle>) -> (r: Vec<Obstacle>)
    ensures
        r@ == v@,
{
    let mut r: Vec<Obstacle> = Vec::new();
    for i in 0..v.len()
        invariant
            r@ == v@.take(i as int),
    {
        let o = v[i];
        r.push(o);
        proof {
            assert(v@.take(i + 1) =~= v@.take(i as int).push(v@[i as int]));
        }
    }
    proof {
        assert(v@.take(v@.len() as int) =~= v@);
    }
    r
}


/// Under unique ids, an entry at any index is what lookup finds.
pub proof fn lemma_unit_lookup_at(mem: Seq<(i64, Unit)>, k: int)
    requires
        unit_ids_unique(mem),
        0 <= k < mem.len(),
    ensures
        unit_lookup(mem, mem[k].1.id) == Option::Some(mem[k]),
    decreases mem.len(),
{
    if k > 0 {
        assert(forall|i: int| 0 <= i < mem.drop_first().len()
            ==> #[trigger] mem.drop_first()[i] == mem[i + 1]);
        lemma_unit_lookup_at(mem.drop_first(), k - 1);
    }
}

/// If no entry has the id, lookup finds nothing.
pub proof fn lemma_unit_lookup_none(mem: Seq<(i64, Unit)>, id: i64)
    requires
        forall|i: int| 0 <= i < mem.len() ==> (#[trigger] mem[i]).1.id != id,
    ensures
        unit_lookup(mem, id) is None,
    decreases mem.len(),
{
    if mem.len() > 0 {
        assert(forall|i: int| 0 <= i < mem.drop_first().len()
            ==> #[trigger] mem.drop_first()[i] == mem[i + 1]);
        lemma_unit_lookup_none(mem.drop_first(), id);
    }
}

/// Whatever lookup finds is an entry with that id.
pub proof fn lemma_unit_lookup_found(mem: Seq<(i64, Unit)>, id: i64)
    ensures
        (match unit_lookup(mem, id) {
            Option::Some(e) => mem.contains(e) && e.1.id == id,
            Option::None => forall|i: int| 0 <= i < mem.len()
                ==> (#[trigger] mem[i]).1.id != id,
        }),
    decreases mem.len(),
{
    if mem.len() > 0 {
        assert(forall|i: int| 0 <= i < mem.drop_first().len()
            ==> #[trigger] mem.drop_first()[i] == mem[i + 1]);
        lemma_unit_lookup_found(mem.drop_first(), id);
        if mem[0].1.id == id {
            assert(mem[0] == mem[0]);
            assert(mem.contains(mem[0]));
        } else {
            match unit_lookup(mem.drop_first(), id) {
                Option::Some(e) => {
                    let j = choose|j: int| 0 <= j < mem.drop_first().len()
                        && mem.drop_first()[j] == e;
                    assert(mem[j + 1] == e);
                    assert(mem.contains(e));
                },
                Option::None => {
                    assert forall|i: int| 0 <= i < mem.len()
                        implies (#[trigger] mem[i]).1.id != id by {
                        if i > 0 {
                            assert(mem.drop_first()[i - 1] == mem[i]);
                        }
                    }
                },
            }
        }
    }
}

/// Pushing an entry with a fresh id leaves every other lookup alone.
pub proof fn lemma_unit_lookup_push(mem: Seq<(i64, Unit)>, e: (i64, Unit))
    ensures
        forall|id: i64| id != e.1.id
            ==> unit_lookup(mem.push(e), id) == unit_lookup(mem, id),
        unit_lookup(mem, e.1.id) is None
            ==> unit_lookup(mem.push(e), e.1.id) == Option::Some(e),
    decreases mem.len(),
{
    if mem.len() == 0 {
        assert(mem.push(e)[0] == e);
        assert(mem.push(e).drop_first() =~= Seq::<(i64, Unit)>::empty());
        assert forall|id: i64| id != e.1.id
            implies unit_lookup(mem.push(e), id) == unit_lookup(mem, id) by {
            assert(unit_lookup(mem.push(e), id)
                == unit_lookup(mem.push(e).drop_first(), id));
        }
    } else {
        assert(mem.push(e).drop_first() =~= mem.drop_first().push(e));
        lemma_unit_lookup_push(mem.drop_first(), e);
        assert(mem.push(e)[0] == mem[0]);
        assert forall|id: i64| id != e.1.id
            implies unit_lookup(mem.push(e), id) == unit_lookup(mem, id) by {
            if mem[0].1.id != id {
                assert(unit_lookup(mem.push(e), id)
                    == unit_lookup(mem.drop_first().push(e), id));
                assert(unit_lookup(mem, id) == unit_lookup(mem.drop_first(), id));
            }
        }
        if unit_lookup(mem, e.1.id) is None {
            assert(mem[0].1.id != e.1.id);
            assert(unit_lookup(mem.push(e), e.1.id)
                == unit_lookup(mem.drop_first().push(e), e.1.id));
        }
    }
}

/// Insert an entry, replacing any existing entry with the same id.
fn unit_mem_insert(mem: &mut Vec<(i64, Unit)>, t: i64, u: Unit)
    requires
        unit_ids_unique(old(mem)@),
    ensures
        unit_ids_unique(final(mem)@),
        unit_lookup(final(mem)@, u.id) == Option::Some((t, u)),
        forall|id: i64| id != u.id
            ==> unit_lookup(final(mem)@, id) == unit_lookup(old(mem)@, id),
        final(mem)@.len() <= old(mem)@.len() + 1,
        forall|k: int| 0 <= k < final(mem)@.len()
            ==> final(mem)@[k] == (t, u) || old(mem)@.contains(#[trigger] final(mem)@[k]),
{
    let ghost orig = mem@;
    let mut i: usize = 0;
    while i < mem.len()
        invariant
            orig == old(mem)@,
            orig == mem@,
            unit_ids_unique(mem@),
            0 <= i <= mem@.len(),
            forall|k: int| 0 <= k < i ==> (#[trigger] mem@[k]).1.id != u.id,
        decreases mem@.len() - i,
    {
        if mem[i].1.id == u.id {
            mem.set(i, (t, u));
            proof {
                assert forall|k: int| 0 <= k < mem@.len()
                    implies mem@[k] == (t, u) || orig.contains(#[trigger] mem@[k]) by {
                    if k != i {
                        assert(mem@[k] == orig[k]);
                    }
                }
                assert(unit_ids_unique(mem@));
                lemma_unit_lookup_at(mem@, i as int);
                assert forall|id: i64| id != u.id
                    implies unit_lookup(mem@, id) == unit_lookup(orig, id) by {
                    lemma_unit_lookup_found(mem@, id);
                    lemma_unit_lookup_found(orig, id);
                    match unit_lookup(mem@, id) {
                        Option::Some(e) => {
                            let j = choose|j: int| 0 <= j < mem@.len() && mem@[j] == e;
                            assert(j != i);
                            assert(orig[j] == e);
                            lemma_unit_lookup_at(orig, j);
                        },
                        Option::None => {
                            match unit_lookup(orig, id) {
                                Option::Some(e) => {
                                    let j = choose|j: int| 0 <= j < orig.len() && orig[j] == e;
                                    assert(j != i);
                                    assert(mem@[j] == e);
                                    lemma_unit_lookup_at(mem@, j);
                                },
                                Option::None => {},
                            }
                        },
                    }
                }
            }
            return;
        }
        i = i + 1;
    }
    proof {
        lemma_unit_lookup_none(mem@, u.id);
    }
    mem.push((t, u));
    proof {
        assert(mem@.drop_last() =~= orig);
        assert(unit_ids_unique(mem@)) by {
            assert(forall|k: int| 0 <= k < orig.len() ==> mem@[k] == orig[k]);
        }
        lemma_unit_lookup_push(orig, (t, u));
    }
}


/// Whether the memory holds an entry with the id.
fn unit_mem_found(mem: &Vec<(i64, Unit)>, id: i64) -> (r: bool)
    ensures
        r == !(unit_lookup(mem@, id) is None),
{
    let mut i: usize = 0;
    while i < mem.len()
        invariant
            0 <= i <= mem@.len(),
            forall|k: int| 0 <= k < i ==> (#[trigger] mem@[k]).1.id != id,
        decreases mem@.len() - i,
    {
        if mem[i].1.id == id {
            proof {
                lemma_unit_lookup_found(mem@, id);
            }
            return true;
        }
        i = i + 1;
    }
    proof {
        lemma_unit_lookup_none(mem@, id);
    }
    false
}

/// Whether a visible snapshot unit of another team has the id.
pub open spec fn enemy_with_id(game: Game, id: i64) -> bool {
    exists|i: int| 0 <= i < game.units.len()
        && (#[trigger] game.units[i]).player_id != game.my_id
        && game.units[i].id == id
}

/// Whether some incoming enemy projectile names the id as its shooter.
pub open spec fn proj_mentions(game: Game, id: i64) -> bool {
    exists|j: int| 0 <= j < game.projectiles.len()
        && (#[trigger] game.projectiles[j]).shooter_id == id
        && game.projectiles[j].shooter_player_id != game.my_id
}

/// The smallest id among the remembered units, or 0 with none.
pub open spec fn spec_min_id(units: Seq<Unit>) -> int
    decreases units.len(),
{
    if units.len() == 0 {
        0
    } else {
        let m = spec_min_id(units.drop_first());
        if units[0].id <= m {
            units[0].id as int
        } else {
            m
        }
    }
}

/// The minimum id really is a lower bound.
pub proof fn lemma_min_id_le(units: Seq<Unit>)
    ensures
        forall|k: int| 0 <= k < units.len() ==> spec_min_id(units) <= (#[trigger] units[k]).id,
    decreases units.len(),
{
    if units.len() > 0 {
        assert(forall|i: int| 0 <= i < units.drop_first().len()
            ==> #[trigger] units.drop_first()[i] == units[i + 1]);
        lemma_min_id_le(units.drop_first());
        assert forall|k: int| 0 <= k < units.len()
            implies spec_min_id(units) <= (#[trigger] units[k]).id by {
            if k > 0 {
                assert(units.drop_first()[k - 1] == units[k]);
            }
        }
    }
}

fn min_id_of(units: &Vec<Unit>) -> (r: i64)
    ensures
        r == spec_min_id(units@),
{
    let mut r: i64 = 0;
    let mut i: usize = units.len();
    while i > 0
        invariant
            0 <= i <= units@.len(),
            r == spec_min_id(units@.skip(i as int)),
        decreases i,
    {
        i = i - 1;
        proof {
            assert(units@.skip(i as int)[0] == units@[i as int]);
            assert(units@.skip(i as int).drop_first() =~= units@.skip(i + 1));
        }
        if units[i].id <= r {
            r = units[i].id;
        }
    }
    proof {
        assert(units@.skip(0) =~= units@);
    }
    r
}

/// Whether any unit of the controlled team sees the point.
pub fn inside_vision(game: &Game, p: &Vec2, cons: &Constants) -> (r: bool)
    requires
        cons.valid(),
        game.valid(cons.weapons.len() as int),
        p.valid(),
    ensures
        r == spec_inside_vision(*game, *p, *cons),
{
    let mut i: usize = 0;
    while i < game.units.len()
        invariant
            cons.valid(),
            game.valid(cons.weapons.len() as int),
            p.valid(),
            0 <= i <= game.units@.len(),
            forall|k: int| 0 <= k < i
                ==> !((#[trigger] game.units@[k]).player_id == game.my_id
                    && game.units@[k].spec_is_inside_vision(*p, *cons)),
        decreases game.units@.len() - i,
    {
        if game.units[i].player_id == game.my_id {
            if game.units[i].is_inside_vision(p, cons) {
                proof {
                    assert(spec_inside_vision(*game, *p, *cons));
                }
                return true;
            }
        }
        i = i + 1;
    }
    false
}

/// The units of the entries, in order.
fn units_of_mem(mem: &Vec<(i64, Unit)>) -> (r: Vec<Unit>)
    ensures
        r@ == mem@.map_values(snd_unit()),
{
    let mut r: Vec<Unit> = Vec::new();
    for i in 0..mem.len()
        invariant
            r@ == mem@.take(i as int).map_values(snd_unit()),
    {
        let u = mem[i].1;
        r.push(u);
        proof {
            assert(mem@.take(i + 1).map_values(snd_unit())
                =~= mem@.take(i as int).map_values(snd_unit()).push(mem@[i as int].1));
        }
    }
    proof {
        assert(mem@.take(mem@.len() as int) =~= mem@);
    }
    r
}

/// Stage one of the unit-memory refresh: every visible unit of another
/// team enters memory as the snapshot gives it, with a full time to
/// live (the last snapshot entry of an id wins).
#[verifier::rlimit(100)]
fn fresh_enemy_mem(game: &Game, cons: &Constants) -> (r: Vec<(i64, Unit)>)
    requires
        cons.valid(),
        game.valid(cons.weapons.len() as int),
    ensures
        unit_ids_unique(r@),
        forall|k: int| 0 <= k < r@.len()
            ==> (#[trigger] r@[k]).0 == UNIT_TTL
                && r@[k].1.valid(cons.weapons.len() as int),
        forall|id: i64| #![trigger unit_lookup(r@, id)]
            !(unit_lookup(r@, id) is None) <==> enemy_with_id(*game, id),
        forall|id: i64| #![trigger unit_lookup(r@, id)] enemy_with_id(*game, id)
            ==> exists|j: int| 0 <= j < game.units.len()
                && (#[trigger] game.units[j]).player_id != game.my_id
                && game.units[j].id == id
                && unit_lookup(r@, id) == Option::Some((UNIT_TTL as i64, game.units[j])),
{
    let mut new_mem: Vec<(i64, Unit)> = Vec::new();
    let mut i: usize = 0;
    while i < game.units.len()
        invariant
            cons.valid(),
            game.valid(cons.weapons.len() as int),
            0 <= i <= game.units@.len(),
            unit_ids_unique(new_mem@),
            forall|k: int| 0 <= k < new_mem@.len()
                ==> (#[trigger] new_mem@[k]).0 == UNIT_TTL
                    && new_mem@[k].1.valid(cons.weapons.len() as int),
            forall|id: i64| !(unit_lookup(new_mem@, id) is None)
                ==> exists|j: int| 0 <= j < i
                    && (#[trigger] game.units@[j]).player_id != game.my_id
                    && game.units@[j].id == id,
            forall|j: int| 0 <= j < i
                && (#[trigger] game.units@[j]).player_id != game.my_id
                ==> !(unit_lookup(new_mem@, game.units@[j].id) is None),
            forall|id: i64| #![trigger unit_lookup(new_mem@, id)]
                (match unit_lookup(new_mem@, id) {
                    Option::Some(e) => exists|j: int| 0 <= j < i
                        && (#[trigger] game.units@[j]).player_id != game.my_id
                        && game.units@[j].id == id
                        && e == (UNIT_TTL as i64, game.units@[j]),
                    Option::None => true,
                }),
        decreases game.units@.len() - i,
    {
        if game.units[i].player_id != game.my_id {
            let u = game.units[i];
            unit_mem_insert(&mut new_mem, UNIT_TTL, u);
        }
        i = i + 1;
    }
    new_mem
}

/// Stage two: memories the snapshot does not refresh decay by one tick,
/// and are dropped when their time runs out or their position is seen
/// to be empty.
fn retain_decayed(new_mem: &mut Vec<(i64, Unit)>, old_mem: &Vec<(i64, Unit)>, game: &Game,
    cons: &Constants)
    requires
        cons.valid(),
        game.valid(cons.weapons.len() as int),
        unit_ids_unique(old(new_mem)@),
        unit_ids_unique(old_mem@),
        forall|x: int| 0 <= x < old(new_mem)@.len()
            ==> 1 <= (#[trigger] old(new_mem)@[x]).0 <= UNIT_TTL
                && old(new_mem)@[x].1.valid(cons.weapons.len() as int),
        forall|x: int| 0 <= x < old_mem@.len()
            ==> 1 <= (#[trigger] old_mem@[x]).0 <= UNIT_TTL
                && old_mem@[x].1.valid(cons.weapons.len() as int),
    ensures
        unit_ids_unique(final(new_mem)@),
        forall|x: int| 0 <= x < final(new_mem)@.len()
            ==> 1 <= (#[trigger] final(new_mem)@[x]).0 <= UNIT_TTL
                && final(new_mem)@[x].1.valid(cons.weapons.len() as int),
        forall|id: i64| #![trigger unit_lookup(old(new_mem)@, id)]
            !(unit_lookup(old(new_mem)@, id) is None)
            ==> unit_lookup(final(new_mem)@, id) == unit_lookup(old(new_mem)@, id),
        forall|id: i64| #![trigger unit_lookup(old_mem@, id)]
            (match unit_lookup(old_mem@, id) {
                Option::Some(e) => unit_lookup(old(new_mem)@, id) is None
                    ==> unit_lookup(final(new_mem)@, id)
                        == (if !spec_inside_vision(*game, e.1.position, *cons) && e.0 > 1 {
                            Option::Some(((e.0 - 1) as i64, e.1))
                        } else {
                            Option::<(i64, Unit)>::None
                        }),
                Option::None => true,
            }),
        forall|id: i64| #![trigger unit_lookup(final(new_mem)@, id)]
            !(unit_lookup(final(new_mem)@, id) is None)
            ==> !(unit_lookup(old(new_mem)@, id) is None)
                || !(unit_lookup(old_mem@, id) is None),
{
    let ghost m_f = new_mem@;
    let ghost m0 = old_mem@;
    let mut k: usize = 0;
    while k < old_mem.len()
        invariant
            m_f == old(new_mem)@,
            m0 == old_mem@,
            cons.valid(),
            game.valid(cons.weapons.len() as int),
            unit_ids_unique(m0),
            forall|x: int| 0 <= x < m0.len()
                ==> 1 <= (#[trigger] m0[x]).0 <= UNIT_TTL
                    && m0[x].1.valid(cons.weapons.len() as int),
            0 <= k <= m0.len(),
            unit_ids_unique(new_mem@),
            forall|x: int| 0 <= x < new_mem@.len()
                ==> 1 <= (#[trigger] new_mem@[x]).0 <= UNIT_TTL
                    && new_mem@[x].1.valid(cons.weapons.len() as int),
            forall|id: i64| !(unit_lookup(m_f, id) is None)
                ==> unit_lookup(new_mem@, id) == unit_lookup(m_f, id),
            forall|j: int| 0 <= j < k
                && unit_lookup(m_f, (#[trigger] m0[j]).1.id) is None
                && !spec_inside_vision(*game, m0[j].1.position, *cons)
                && m0[j].0 > 1
                ==> unit_lookup(new_mem@, m0[j].1.id)
                    == Option::Some(((m0[j].0 - 1) as i64, m0[j].1)),
            forall|j: int| 0 <= j < k
                && unit_lookup(m_f, (#[trigger] m0[j]).1.id) is None
                && (spec_inside_vision(*game, m0[j].1.position, *cons) || m0[j].0 <= 1)
                ==> unit_lookup(new_mem@, m0[j].1.id) is None,
            forall|id: i64| !(unit_lookup(new_mem@, id) is None)
                ==> !(unit_lookup(m_f, id) is None)
                    || exists|j: int| 0 <= j < k && (#[trigger] m0[j]).1.id == id,
        decreases m0.len() - k,
    {
        let e = old_mem[k];
        let found = unit_mem_found(new_mem, e.1.id);
        proof {
            lemma_unit_lookup_at(m0, k as int);
        }
        if !found {
            let vis = inside_vision(game, &e.1.position, cons);
            if !vis && e.0 > 1 {
                let ghost before = new_mem@;
                new_mem.push((e.0 - 1, e.1));
                proof {
                    assert(new_mem@.drop_last() =~= before);
                    assert(forall|x: int| 0 <= x < before.len()
                        ==> new_mem@[x] == before[x]);
                    lemma_unit_lookup_push(before, ((e.0 - 1) as i64, e.1));
                    lemma_unit_lookup_found(before, e.1.id);
                }
            }
        }
        k = k + 1;
    }
    proof {
        assert forall|id: i64| #![trigger unit_lookup(m0, id)]
            (match unit_lookup(m0, id) {
                Option::Some(e) => unit_lookup(m_f, id) is None,
                Option::None => false,
            }) implies unit_lookup(new_mem@, id)
                == (match unit_lookup(m0, id) {
                    Option::Some(e) =>
                        if !spec_inside_vision(*game, e.1.position, *cons) && e.0 > 1 {
                            Option::Some(((e.0 - 1) as i64, e.1))
                        } else {
                            Option::<(i64, Unit)>::None
                        },
                    Option::None => Option::<(i64, Unit)>::None,
                }) by {
            lemma_unit_lookup_found(m0, id);
            match unit_lookup(m0, id) {
                Option::Some(e) => {
                    let j = choose|j: int| 0 <= j < m0.len() && m0[j] == e;
                    lemma_unit_lookup_at(m0, j);
                },
                Option::None => {},
            }
        }
        assert forall|id: i64| #![trigger unit_lookup(new_mem@, id)]
            !(unit_lookup(new_mem@, id) is None)
            implies !(unit_lookup(m_f, id) is None)
                || !(unit_lookup(m0, id) is None) by {
            if unit_lookup(m_f, id) is None {
                let j = choose|j: int| 0 <= j < m0.len() && (#[trigger] m0[j]).1.id == id;
                lemma_unit_lookup_at(m0, j);
            }
        }
    }
}

/// Ticks the projectile has already flown.
pub open spec fn spec_fly_ticks(pr: Projectile, cons: Constants) -> int {
    cons.weapons[pr.weapon_type_index as int].projectile_life_ticks - pr.life_ticks
}

/// The projectile's launch point, back-projected along its velocity.
pub open spec fn spec_back_pos(pr: Projectile, cons: Constants) -> Vec2 {
    Vec2 {
        x: (pr.position.x - pr.velocity.x * spec_fly_ticks(pr, cons)) as i64,
        y: (pr.position.y - pr.velocity.y * spec_fly_ticks(pr, cons)) as i64,
    }
}

/// An enemy projectile plants a synthetic shooter exactly when its
/// launch point lies on the map and is not inside a vision sector (a
/// visible launch point would show the shooter directly).
pub open spec fn proj_plants(game: Game, cons: Constants, pr: Projectile) -> bool {
    &&& pr.shooter_player_id != game.my_id
    &&& spec_back_pos(pr, cons).in_arena()
    &&& !spec_inside_vision(game, spec_back_pos(pr, cons), cons)
}

/// Whether some snapshot projectile plants a shooter under this id.
pub open spec fn proj_plants_id(game: Game, cons: Constants, id: i64) -> bool {
    exists|j: int| 0 <= j < game.projectiles.len()
        && (#[trigger] game.projectiles[j]).shooter_id == id
        && proj_plants(game, cons, game.projectiles[j])
}

/// The planted shooter's time to live: the unit TTL aged by the flight.
pub open spec fn spec_shooter_ttl(pr: Projectile, cons: Constants) -> int {
    let t = UNIT_TTL - spec_fly_ticks(pr, cons);
    if t < 1 {
        1
    } else if t > UNIT_TTL {
        UNIT_TTL as int
    } else {
        t
    }
}

/// What a planted shooter's memory entry holds.
pub open spec fn shooter_entry_ok(e: (i64, Unit), pr: Projectile, cons: Constants) -> bool {
    &&& e.0 == spec_shooter_ttl(pr, cons)
    &&& e.1.id == pr.shooter_id
    &&& e.1.position == spec_back_pos(pr, cons)
    &&& e.1.direction == pr.velocity
    &&& e.1.weapon == Option::Some(pr.weapon_type_index)
    &&& e.1.health == cons.unit_health
}

/// Stage three: an enemy projectile whose shooter is unknown plants a
/// synthetic shooter at the back-projected launch point, with an
/// age-adjusted time to live, unless that point is inside a vision
/// sector (it would be directly observed) or out of the arena.
fn infer_shooters(new_mem: &mut Vec<(i64, Unit)>, game: &Game, cons: &Constants)
    requires
        cons.valid(),
        game.valid(cons.weapons.len() as int),
        unit_ids_unique(old(new_mem)@),
        forall|x: int| 0 <= x < old(new_mem)@.len()
            ==> 1 <= (#[trigger] old(new_mem)@[x]).0 <= UNIT_TTL
                && old(new_mem)@[x].1.valid(cons.weapons.len() as int),
    ensures
        unit_ids_unique(final(new_mem)@),
        forall|x: int| 0 <= x < final(new_mem)@.len()
            ==> 1 <= (#[trigger] final(new_mem)@[x]).0 <= UNIT_TTL
                && final(new_mem)@[x].1.valid(cons.weapons.len() as int),
        forall|id: i64| #![trigger unit_lookup(old(new_mem)@, id)]
            !(unit_lookup(old(new_mem)@, id) is None)
            ==> unit_lookup(final(new_mem)@, id) == unit_lookup(old(new_mem)@, id),
        forall|id: i64| #![trigger unit_lookup(final(new_mem)@, id)]
            !(unit_lookup(final(new_mem)@, id) is None)
            && unit_lookup(old(new_mem)@, id) is None
            ==> proj_plants_id(*game, *cons, id),
        forall|j: int| #![trigger game.projectiles@[j]]
            0 <= j < game.projectiles@.len()
            && unit_lookup(old(new_mem)@, game.projectiles@[j].shooter_id) is None
            && proj_plants(*game, *cons, game.projectiles@[j])
            && (forall|j2: int| 0 <= j2 < j
                && (#[trigger] game.projectiles@[j2]).shooter_id
                    == game.projectiles@[j].shooter_id
                ==> !proj_plants(*game, *cons, game.projectiles@[j2]))
            ==> (match unit_lookup(final(new_mem)@, game.projectiles@[j].shooter_id) {
                Option::Some(e) => shooter_entry_ok(e, game.projectiles@[j], *cons),
                Option::None => false,
            }),
{
    let ghost m_r = new_mem@;
    let mut pj: usize = 0;
    while pj < game.projectiles.len()
        invariant
            m_r == old(new_mem)@,
            cons.valid(),
            game.valid(cons.weapons.len() as int),
            0 <= pj <= game.projectiles@.len(),
            unit_ids_unique(new_mem@),
            forall|x: int| 0 <= x < new_mem@.len()
                ==> 1 <= (#[trigger] new_mem@[x]).0 <= UNIT_TTL
                    && new_mem@[x].1.valid(cons.weapons.len() as int),
            forall|id: i64| !(unit_lookup(m_r, id) is None)
                ==> unit_lookup(new_mem@, id) == unit_lookup(m_r, id),
            forall|id: i64| !(unit_lookup(new_mem@, id) is None)
                && unit_lookup(m_r, id) is None
                ==> exists|j2: int| 0 <= j2 < pj as int
                    && (#[trigger] game.projectiles@[j2]).shooter_id == id
                    && proj_plants(*game, *cons, game.projectiles@[j2]),
            forall|j: int| #![trigger game.projectiles@[j]]
                0 <= j < pj as int
                && unit_lookup(m_r, game.projectiles@[j].shooter_id) is None
                && proj_plants(*game, *cons, game.projectiles@[j])
                && (forall|j2: int| 0 <= j2 < j
                    && (#[trigger] game.projectiles@[j2]).shooter_id
                        == game.projectiles@[j].shooter_id
                    ==> !proj_plants(*game, *cons, game.projectiles@[j2]))
                ==> (match unit_lookup(new_mem@, game.projectiles@[j].shooter_id) {
                    Option::Some(e) => shooter_entry_ok(e, game.projectiles@[j], *cons),
                    Option::None => false,
                }),
        decreases game.projectiles@.len() - pj,
    {
        let p = game.projectiles[pj];
        let w = p.weapon_type_index;
        let fly = cons.weapons[w].projectile_life_ticks - p.life_ticks;
        proof {
            assert(-10_000_000 <= p.velocity.x * fly <= 10_000_000
                && -10_000_000 <= p.velocity.y * fly <= 10_000_000) by (nonlinear_arith)
                requires
                    -10_000 <= p.velocity.x <= 10_000,
                    -10_000 <= p.velocity.y <= 10_000,
                    -1_000 <= fly <= 1_000,
            {
            }
        }
        let bx = p.position.x - p.velocity.x * fly;
        let by = p.position.y - p.velocity.y * fly;
        let back = Vec2 { x: bx, y: by };
        proof {
            assert(fly == spec_fly_ticks(p, *cons));
            assert(back == spec_back_pos(p, *cons));
        }
        if p.shooter_player_id != game.my_id
            && bx >= -crate::geom::ARENA_MAX && bx <= crate::geom::ARENA_MAX
            && by >= -crate::geom::ARENA_MAX && by <= crate::geom::ARENA_MAX {
            let found = unit_mem_found(new_mem, p.shooter_id);
            if !found && !inside_vision(game, &back, cons) {
                let mut ttl = UNIT_TTL - fly;
                if ttl < 1 {
                    ttl = 1;
                }
                if ttl > UNIT_TTL {
                    ttl = UNIT_TTL;
                }
                let base = Unit::default();
                let ghost_unit = Unit {
                    id: p.shooter_id,
                    position: back,
                    direction: p.velocity,
                    weapon: Option::Some(w),
                    health: cons.unit_health,
                    ammo: [100; crate::model::AMMO_SLOTS],
                    ..base
                };
                unit_mem_insert(new_mem, ttl, ghost_unit);
                proof {
                    assert(proj_plants(*game, *cons, p));
                    assert(ttl == spec_shooter_ttl(p, *cons));
                    assert(shooter_entry_ok((ttl, ghost_unit), p, *cons));
                }
            }
        }
        pj = pj + 1;
    }
}

/// A sound plants a synthetic enemy exactly when it is outside every
/// vision sector, of a known sound type, and no known unit (remembered
/// enemy or controlled unit) stands within five units of it.
pub open spec fn sound_plants(game: Game, cons: Constants, old_units: Seq<Unit>, s: Sound)
    -> bool {
    &&& !spec_inside_vision(game, s.position, cons)
    &&& s.type_index < 4
    &&& !(exists|x: int| 0 <= x < old_units.len()
        && crate::geom::spec_distance((#[trigger] old_units[x]).position, s.position)
            < 5_000)
    &&& !(exists|x: int| 0 <= x < game.units.len()
        && (#[trigger] game.units[x]).player_id == game.my_id
        && crate::geom::spec_distance(game.units[x].position, s.position) < 5_000)
}

/// Whether any snapshot sound plants a synthetic enemy.
pub open spec fn some_sound_plants(game: Game, cons: Constants, old_units: Seq<Unit>)
    -> bool {
    exists|sx: int| 0 <= sx < game.sounds.len()
        && sound_plants(game, cons, old_units, #[trigger] game.sounds[sx])
}

/// What the sound synthetic's memory entry holds.
pub open spec fn sound_entry_ok(e: (i64, Unit), game: Game, cons: Constants,
    old_units: Seq<Unit>, s: Sound) -> bool {
    &&& e.0 == UNIT_TTL
    &&& e.1.id == spec_min_id(old_units) - 1
    &&& e.1.position == s.position
    &&& e.1.health == cons.unit_health
    &&& e.1.weapon == (if s.type_index == 0 && cons.weapons.len() > 2 {
        Option::Some(2usize)
    } else {
        Option::<usize>::None
    })
}

/// Whether a snapshot unit of another team carries the id.
fn snapshot_enemy_with(game: &Game, id: i64) -> (r: bool)
    ensures
        r == enemy_with_id(*game, id),
{
    let mut i: usize = 0;
    while i < game.units.len()
        invariant
            0 <= i <= game.units@.len(),
            forall|k: int| 0 <= k < i
                ==> !((#[trigger] game.units@[k]).player_id != game.my_id
                    && game.units@[k].id == id),
        decreases game.units@.len() - i,
    {
        if game.units[i].player_id != game.my_id && game.units[i].id == id {
            proof {
                assert(enemy_with_id(*game, id));
            }
            return true;
        }
        i = i + 1;
    }
    false
}

/// Stage four: a sound that no known unit explains plants a synthetic
/// enemy at its position, under an id below every known enemy id (the
/// most recently computed inference wins); the stage stands aside when
/// that id would collide with a unit the snapshot shows.
fn infer_from_sounds(new_mem: &mut Vec<(i64, Unit)>, game: &Game, cons: &Constants,
    old_units: &Vec<Unit>)
    requires
        cons.valid(),
        game.valid(cons.weapons.len() as int),
        unit_ids_unique(old(new_mem)@),
        forall|x: int| 0 <= x < old(new_mem)@.len()
            ==> 1 <= (#[trigger] old(new_mem)@[x]).0 <= UNIT_TTL
                && old(new_mem)@[x].1.valid(cons.weapons.len() as int),
        forall|x: int| 0 <= x < old_units@.len()
            ==> (#[trigger] old_units@[x]).position.in_arena(),
    ensures
        unit_ids_unique(final(new_mem)@),
        forall|x: int| 0 <= x < final(new_mem)@.len()
            ==> 1 <= (#[trigger] final(new_mem)@[x]).0 <= UNIT_TTL
                && final(new_mem)@[x].1.valid(cons.weapons.len() as int),
        forall|id: i64| id != spec_min_id(old_units@) - 1
            ==> unit_lookup(final(new_mem)@, id) == unit_lookup(old(new_mem)@, id),
        enemy_with_id(*game, (spec_min_id(old_units@) - 1) as i64)
            ==> unit_lookup(final(new_mem)@, (spec_min_id(old_units@) - 1) as i64)
                == unit_lookup(old(new_mem)@, (spec_min_id(old_units@) - 1) as i64),
        (spec_min_id(old_units@) > i64::MIN as int
            && !enemy_with_id(*game, (spec_min_id(old_units@) - 1) as i64)
            && some_sound_plants(*game, *cons, old_units@))
            ==> (match unit_lookup(final(new_mem)@, (spec_min_id(old_units@) - 1) as i64) {
                Option::Some(e) => exists|s2: int|
                    #![trigger game.sounds@[s2]]
                    0 <= s2 < game.sounds@.len()
                    && sound_plants(*game, *cons, old_units@, game.sounds@[s2])
                    && (forall|s3: int| s2 < s3 < game.sounds@.len()
                        ==> !sound_plants(*game, *cons, old_units@,
                            #[trigger] game.sounds@[s3]))
                    && sound_entry_ok(e, *game, *cons, old_units@, game.sounds@[s2]),
                Option::None => false,
            }),
{
    let ghost m_p = new_mem@;
    let ghost sid: i64 = (spec_min_id(old_units@) - 1) as i64;
    let min_id = min_id_of(old_units);
    if min_id == i64::MIN {
        return;
    }
    let synth_id = min_id - 1;
    if snapshot_enemy_with(game, synth_id) {
        return;
    }
    let my = game.my_units();
    proof {
        game.units@.lemma_filter_len(crate::model::team_pred(game.my_id, true));
        assert forall|x: int| 0 <= x < my@.len()
            implies (#[trigger] my@[x]).position.in_arena() by {
            game.units@.lemma_filter_pred(crate::model::team_pred(game.my_id, true), x);
            crate::fight_sim::lemma_filter_elem_of(game.units@,
                crate::model::team_pred(game.my_id, true), x);
        }
    }
    let mut sx: usize = 0;
    while sx < game.sounds.len()
        invariant
            m_p == old(new_mem)@,
            cons.valid(),
            game.valid(cons.weapons.len() as int),
            synth_id == sid,
            0 <= sx <= game.sounds@.len(),
            forall|x: int| 0 <= x < my@.len()
                ==> (#[trigger] my@[x]).position.in_arena(),
            forall|x: int| 0 <= x < old_units@.len()
                ==> (#[trigger] old_units@[x]).position.in_arena(),
            unit_ids_unique(new_mem@),
            forall|x: int| 0 <= x < new_mem@.len()
                ==> 1 <= (#[trigger] new_mem@[x]).0 <= UNIT_TTL
                    && new_mem@[x].1.valid(cons.weapons.len() as int),
            forall|id: i64| id != sid
                ==> unit_lookup(new_mem@, id) == unit_lookup(m_p, id),
            synth_id as int == spec_min_id(old_units@) - 1,
            my@ == game.units@.filter(crate::model::team_pred(game.my_id, true)),
            (forall|s2: int| 0 <= s2 < sx as int
                ==> !sound_plants(*game, *cons, old_units@, #[trigger] game.sounds@[s2]))
                ==> unit_lookup(new_mem@, sid) == unit_lookup(m_p, sid),
            (exists|s2: int| 0 <= s2 < sx as int
                && sound_plants(*game, *cons, old_units@, #[trigger] game.sounds@[s2]))
                ==> (match unit_lookup(new_mem@, sid) {
                    Option::Some(e) => exists|s2: int|
                        #![trigger game.sounds@[s2]]
                        0 <= s2 < sx as int
                        && sound_plants(*game, *cons, old_units@, game.sounds@[s2])
                        && (forall|s3: int| s2 < s3 < sx as int
                            ==> !sound_plants(*game, *cons, old_units@,
                                #[trigger] game.sounds@[s3]))
                        && sound_entry_ok(e, *game, *cons, old_units@, game.sounds@[s2]),
                    Option::None => false,
                }),
        decreases game.sounds@.len() - sx,
    {
        let snd = game.sounds[sx];
        let visible = inside_vision(game, &snd.position, cons);
        let mut planted = false;
        if !visible {
            let mut near = false;
            let mut ux: usize = 0;
            while ux < old_units.len()
                invariant
                    snd.position.in_arena(),
                    forall|x: int| 0 <= x < old_units@.len()
                        ==> (#[trigger] old_units@[x]).position.in_arena(),
                    0 <= ux <= old_units@.len(),
                    near == exists|x: int| 0 <= x < ux as int
                        && crate::geom::spec_distance(
                            (#[trigger] old_units@[x]).position, snd.position) < 5_000,
                decreases old_units@.len() - ux,
            {
                if old_units[ux].position.distance(&snd.position) < 5_000 {
                    near = true;
                }
                ux = ux + 1;
            }
            let mut mx: usize = 0;
            while mx < my.len()
                invariant
                    snd.position.in_arena(),
                    forall|x: int| 0 <= x < my@.len()
                        ==> (#[trigger] my@[x]).position.in_arena(),
                    0 <= mx <= my@.len(),
                    near == ((exists|x: int| 0 <= x < old_units@.len()
                        && crate::geom::spec_distance(
                            (#[trigger] old_units@[x]).position, snd.position) < 5_000)
                        || (exists|x: int| 0 <= x < mx as int
                            && crate::geom::spec_distance(
                                (#[trigger] my@[x]).position, snd.position) < 5_000)),
                decreases my@.len() - mx,
            {
                if my[mx].position.distance(&snd.position) < 5_000 {
                    near = true;
                }
                mx = mx + 1;
            }
            proof {
                // the second near scan over my own units speaks, through
                // the filter, for the snapshot's controlled units
                assert((exists|x: int| 0 <= x < my@.len()
                    && crate::geom::spec_distance((#[trigger] my@[x]).position,
                        snd.position) < 5_000)
                    == (exists|x: int| 0 <= x < game.units@.len()
                        && (#[trigger] game.units@[x]).player_id == game.my_id
                        && crate::geom::spec_distance(game.units@[x].position,
                            snd.position) < 5_000)) by {
                    if exists|x: int| 0 <= x < my@.len()
                        && crate::geom::spec_distance((#[trigger] my@[x]).position,
                            snd.position) < 5_000 {
                        let x = choose|x: int| 0 <= x < my@.len()
                            && crate::geom::spec_distance((#[trigger] my@[x]).position,
                                snd.position) < 5_000;
                        crate::fight_sim::lemma_filter_elem_of(game.units@,
                            crate::model::team_pred(game.my_id, true), x);
                        game.units@.lemma_filter_pred(
                            crate::model::team_pred(game.my_id, true), x);
                        let j = choose|j: int| 0 <= j < game.units@.len()
                            && game.units@[j] == my@[x];
                        assert(game.units@[j].player_id == game.my_id);
                    }
                    if exists|x: int| 0 <= x < game.units@.len()
                        && (#[trigger] game.units@[x]).player_id == game.my_id
                        && crate::geom::spec_distance(game.units@[x].position,
                            snd.position) < 5_000 {
                        let x = choose|x: int| 0 <= x < game.units@.len()
                            && (#[trigger] game.units@[x]).player_id == game.my_id
                            && crate::geom::spec_distance(game.units@[x].position,
                                snd.position) < 5_000;
                        game.units@.lemma_filter_contains(
                            crate::model::team_pred(game.my_id, true), x);
                        let y = choose|y: int| 0 <= y < my@.len()
                            && my@[y] == game.units@[x];
                        assert(crate::geom::spec_distance(my@[y].position,
                            snd.position) < 5_000);
                    }
                }
            }
            if !near && snd.type_index < 4 {
                let base = Unit::default();
                let weapon = if snd.type_index == 0 && cons.weapons.len() > 2 {
                    Option::Some(2usize)
                } else {
                    Option::None
                };
                let ghost_unit = Unit {
                    id: synth_id,
                    position: snd.position,
                    weapon,
                    health: cons.unit_health,
                    ammo: [100; crate::model::AMMO_SLOTS],
                    ..base
                };
                unit_mem_insert(new_mem, UNIT_TTL, ghost_unit);
                planted = true;
                proof {
                    assert(sound_plants(*game, *cons, old_units@, snd));
                    assert(sound_entry_ok((UNIT_TTL as i64, ghost_unit), *game, *cons,
                        old_units@, snd));
                }
            }
        }
        proof {
            if !planted {
                assert(!sound_plants(*game, *cons, old_units@, snd));
            }
        }
        sx = sx + 1;
    }
}

impl World {
    /// Refresh the remembered enemy units from a new snapshot: units the
    /// team sees replace their memory wholesale; unseen memories live on
    /// with one tick less to live unless their position is now visibly
    /// empty or their time ran out; incoming projectiles whose shooter is
    /// unknown plant a synthetic shooter at the back-projected launch
    /// point unless that point is visible; unexplained sounds plant a
    /// synthetic enemy at the sound's position.
    #[verifier::rlimit(100)]
    pub fn update_units(&mut self, game: &Game)
        requires
            old(self).wf(),
            game.valid(old(self).constants.weapons.len() as int),
            game.units.len() < 1_000_000,
        ensures
            final(self).wf(),
            final(self).constants == old(self).constants,
            final(self).game == old(self).game,
            final(self).loot_mem == old(self).loot_mem,
            final(self).loot == old(self).loot,
            final(self).booked_loot == old(self).booked_loot,
            final(self).projectiles == old(self).projectiles,
            final(self).obstacle_cache == old(self).obstacle_cache,
            final(self).sims == old(self).sims,
            // fresh: a unit the snapshot shows is stored as the snapshot
            // gives it, with a full time to live
            forall|id: i64| #![trigger unit_lookup(final(self).unit_mem@, id)]
                enemy_with_id(*game, id)
                ==> exists|j: int| 0 <= j < game.units.len()
                    && (#[trigger] game.units[j]).player_id != game.my_id
                    && game.units[j].id == id
                    && unit_lookup(final(self).unit_mem@, id)
                        == Option::Some((UNIT_TTL as i64, game.units[j])),
            // the sound-inference rule, positive direction: with an
            // unexplained sound in the snapshot, the synthetic enemy of
            // the last such sound stands in memory under the fresh id
            (spec_min_id(old(self).units@) > i64::MIN as int
                && !enemy_with_id(*game, (spec_min_id(old(self).units@) - 1) as i64)
                && some_sound_plants(*game, old(self).constants, old(self).units@))
                ==> (match unit_lookup(final(self).unit_mem@,
                    (spec_min_id(old(self).units@) - 1) as i64) {
                    Option::Some(e) => exists|s2: int|
                        #![trigger game.sounds@[s2]]
                        0 <= s2 < game.sounds@.len()
                        && sound_plants(*game, old(self).constants, old(self).units@,
                            game.sounds@[s2])
                        && (forall|s3: int| s2 < s3 < game.sounds@.len()
                            ==> !sound_plants(*game, old(self).constants,
                                old(self).units@, #[trigger] game.sounds@[s3]))
                        && sound_entry_ok(e, *game, old(self).constants,
                            old(self).units@, game.sounds@[s2]),
                    Option::None => false,
                }),
            // retention: an entity absent from the snapshot, not visibly
            // gone and not resupplied by any inference keeps its memory
            // with one tick less to live, until that reaches zero
            forall|id: i64| #![trigger unit_lookup(old(self).unit_mem@, id)]
                (match unit_lookup(old(self).unit_mem@, id) {
                Option::Some(e) => !enemy_with_id(*game, id)
                    && !spec_inside_vision(*game, e.1.position, old(self).constants)
                    && !proj_mentions(*game, id)
                    ==> unit_lookup(final(self).unit_mem@, id)
                        == (if e.0 > 1 {
                            Option::Some(((e.0 - 1) as i64, e.1))
                        } else {
                            Option::<(i64, Unit)>::None
                        }),
                Option::None => true,
            }),
            // known absent: a remembered position now inside a vision
            // sector drops the memory at once
            forall|id: i64| #![trigger unit_lookup(old(self).unit_mem@, id)]
                (match unit_lookup(old(self).unit_mem@, id) {
                Option::Some(e) => !enemy_with_id(*game, id)
                    && spec_inside_vision(*game, e.1.position, old(self).constants)
                    && !proj_mentions(*game, id)
                    ==> unit_lookup(final(self).unit_mem@, id) is None,
                Option::None => true,
            }),
            // no invention (and the visible-launch-point rule): a unit
            // known afresh was seen, planted by an enemy projectile
            // whose back-projected launch point is on the map and not
            // inside any vision sector, or is the sound synthetic
            forall|id: i64| !(unit_lookup(final(self).unit_mem@, id) is None)
                && unit_lookup(old(self).unit_mem@, id) is None
                && !enemy_with_id(*game, id)
                && id != spec_min_id(old(self).units@) - 1
                ==> proj_plants_id(*game, old(self).constants, id),
            // the shooter-inference rule, positive direction: the first
            // planting projectile of an unknown shooter stores it at the
            // back-projected point with the projectile's weapon, full
            // health and an age-adjusted time to live
            forall|j: int| #![trigger game.projectiles@[j]]
                0 <= j < game.projectiles@.len()
                && !enemy_with_id(*game, game.projectiles@[j].shooter_id)
                && unit_lookup(old(self).unit_mem@, game.projectiles@[j].shooter_id) is None
                && game.projectiles@[j].shooter_id != spec_min_id(old(self).units@) - 1
                && proj_plants(*game, old(self).constants, game.projectiles@[j])
                && (forall|j2: int| 0 <= j2 < j
                    && (#[trigger] game.projectiles@[j2]).shooter_id
                        == game.projectiles@[j].shooter_id
                    ==> !proj_plants(*game, old(self).constants, game.projectiles@[j2]))
                ==> (match unit_lookup(final(self).unit_mem@,
                    game.projectiles@[j].shooter_id) {
                    Option::Some(e) => shooter_entry_ok(e, game.projectiles@[j],
                        old(self).constants),
                    Option::None => false,
                }),
    {
        let cons = &self.constants;
        let ghost m0 = self.unit_mem@;
        let mut new_mem = fresh_enemy_mem(game, cons);
        let ghost m_f = new_mem@;
        retain_decayed(&mut new_mem, &self.unit_mem, game, cons);
        let ghost m_r = new_mem@;
        infer_shooters(&mut new_mem, game, cons);
        let ghost m_p = new_mem@;
        infer_from_sounds(&mut new_mem, game, cons, &self.units);
        let ghost sid = spec_min_id(self.units@) - 1;
        proof {
            lemma_min_id_le(self.units@);
            assert forall|id: i64| #![trigger unit_lookup(m0, id)]
                (match unit_lookup(m0, id) {
                Option::Some(e) => true,
                Option::None => false,
            }) implies id != sid by {
                lemma_unit_lookup_found(m0, id);
                match unit_lookup(m0, id) {
                    Option::Some(e) => {
                        let j = choose|j: int| 0 <= j < m0.len() && m0[j] == e;
                        assert(self.units@[j] == m0[j].1);
                        assert(sid <= m0[j].1.id - 1);
                    },
                    Option::None => {},
                }
            }
        }
        proof {
            // an id the snapshot does not show and the old memory does
            // not hold reaches the shooter stage unknown
            assert forall|id: i64| #![trigger unit_lookup(m_r, id)]
                !enemy_with_id(*game, id) && unit_lookup(m0, id) is None
                implies unit_lookup(m_r, id) is None by {
                if !(unit_lookup(m_r, id) is None) {
                    assert(!(unit_lookup(m_f, id) is None)
                        || !(unit_lookup(m0, id) is None));
                }
            }
        }
        let units_list = units_of_mem(&new_mem);
        self.unit_mem = new_mem;
        self.units = units_list;
        proof {
            assert(self.units@.len() == self.unit_mem@.len());
            assert forall|x: int| 0 <= x < self.unit_mem@.len()
                implies 1 <= (#[trigger] self.unit_mem@[x]).0 <= UNIT_TTL
                    && self.unit_mem@[x].1.valid(self.constants.weapons.len() as int) by {
            }
        }
    }
}


/// Loot twins of the unit-memory lookup lemmas.
pub proof fn lemma_loot_lookup_at(mem: Seq<(i64, Loot)>, k: int)
    requires
        loot_ids_unique(mem),
        0 <= k < mem.len(),
    ensures
        loot_lookup(mem, mem[k].1.id) == Option::Some(mem[k]),
    decreases mem.len(),
{
    if k > 0 {
        assert(forall|i: int| 0 <= i < mem.drop_first().len()
            ==> #[trigger] mem.drop_first()[i] == mem[i + 1]);
        lemma_loot_lookup_at(mem.drop_first(), k - 1);
    }
}

pub proof fn lemma_loot_lookup_none(mem: Seq<(i64, Loot)>, id: i64)
    requires
        forall|i: int| 0 <= i < mem.len() ==> (#[trigger] mem[i]).1.id != id,
    ensures
        loot_lookup(mem, id) is None,
    decreases mem.len(),
{
    if mem.len() > 0 {
        assert(forall|i: int| 0 <= i < mem.drop_first().len()
            ==> #[trigger] mem.drop_first()[i] == mem[i + 1]);
        lemma_loot_lookup_none(mem.drop_first(), id);
    }
}

pub proof fn lemma_loot_lookup_found(mem: Seq<(i64, Loot)>, id: i64)
    ensures
        (match loot_lookup(mem, id) {
            Option::Some(e) => mem.contains(e) && e.1.id == id,
            Option::None => forall|i: int| 0 <= i < mem.len()
                ==> (#[trigger] mem[i]).1.id != id,
        }),
    decreases mem.len(),
{
    if mem.len() > 0 {
        assert(forall|i: int| 0 <= i < mem.drop_first().len()
            ==> #[trigger] mem.drop_first()[i] == mem[i + 1]);
        lemma_loot_lookup_found(mem.drop_first(), id);
        if mem[0].1.id == id {
            assert(mem[0] == mem[0]);
            assert(mem.contains(mem[0]));
        } else {
            match loot_lookup(mem.drop_first(), id) {
                Option::Some(e) => {
                    let j = choose|j: int| 0 <= j < mem.drop_first().len()
                        && mem.drop_first()[j] == e;
                    assert(mem[j + 1] == e);
                    assert(mem.contains(e));
                },
                Option::None => {
                    assert forall|i: int| 0 <= i < mem.len()
                        implies (#[trigger] mem[i]).1.id != id by {
                        if i > 0 {
                            assert(mem.drop_first()[i - 1] == mem[i]);
                        }
                    }
                },
            }
        }
    }
}

pub proof fn lemma_loot_lookup_push(mem: Seq<(i64, Loot)>, e: (i64, Loot))
    ensures
        forall|id: i64| id != e.1.id
            ==> loot_lookup(mem.push(e), id) == loot_lookup(mem, id),
        loot_lookup(mem, e.1.id) is None
            ==> loot_lookup(mem.push(e), e.1.id) == Option::Some(e),
    decreases mem.len(),
{
    if mem.len() == 0 {
        assert(mem.push(e)[0] == e);
        assert(mem.push(e).drop_first() =~= Seq::<(i64, Loot)>::empty());
        assert forall|id: i64| id != e.1.id
            implies loot_lookup(mem.push(e), id) == loot_lookup(mem, id) by {
            assert(loot_lookup(mem.push(e), id)
                == loot_lookup(mem.push(e).drop_first(), id));
        }
    } else {
        assert(mem.push(e).drop_first() =~= mem.drop_first().push(e));
        lemma_loot_lookup_push(mem.drop_first(), e);
        assert(mem.push(e)[0] == mem[0]);
        assert forall|id: i64| id != e.1.id
            implies loot_lookup(mem.push(e), id) == loot_lookup(mem, id) by {
            if mem[0].1.id != id {
                assert(loot_lookup(mem.push(e), id)
                    == loot_lookup(mem.drop_first().push(e), id));
                assert(loot_lookup(mem, id) == loot_lookup(mem.drop_first(), id));
            }
        }
        if loot_lookup(mem, e.1.id) is None {
            assert(mem[0].1.id != e.1.id);
            assert(loot_lookup(mem.push(e), e.1.id)
                == loot_lookup(mem.drop_first().push(e), e.1.id));
        }
    }
}

fn loot_mem_insert(mem: &mut Vec<(i64, Loot)>, t: i64, l: Loot)
    requires
        loot_ids_unique(old(mem)@),
    ensures
        loot_ids_unique(final(mem)@),
        loot_lookup(final(mem)@, l.id) == Option::Some((t, l)),
        forall|id: i64| id != l.id
            ==> loot_lookup(final(mem)@, id) == loot_lookup(old(mem)@, id),
        forall|k: int| 0 <= k < final(mem)@.len()
            ==> final(mem)@[k] == (t, l) || old(mem)@.contains(#[trigger] final(mem)@[k]),
{
    let ghost orig = mem@;
    let mut i: usize = 0;
    while i < mem.len()
        invariant
            orig == old(mem)@,
            orig == mem@,
            loot_ids_unique(mem@),
            0 <= i <= mem@.len(),
            forall|k: int| 0 <= k < i ==> (#[trigger] mem@[k]).1.id != l.id,
        decreases mem@.len() - i,
    {
        if mem[i].1.id == l.id {
            mem.set(i, (t, l));
            proof {
                assert forall|k: int| 0 <= k < mem@.len()
                    implies mem@[k] == (t, l) || orig.contains(#[trigger] mem@[k]) by {
                    if k != i {
                        assert(mem@[k] == orig[k]);
                    }
                }
                assert(loot_ids_unique(mem@));
                lemma_loot_lookup_at(mem@, i as int);
                assert forall|id: i64| id != l.id
                    implies loot_lookup(mem@, id) == loot_lookup(orig, id) by {
                    lemma_loot_lookup_found(mem@, id);
                    lemma_loot_lookup_found(orig, id);
                    match loot_lookup(mem@, id) {
                        Option::Some(e) => {
                            let j = choose|j: int| 0 <= j < mem@.len() && mem@[j] == e;
                            assert(j != i);
                            assert(orig[j] == e);
                            lemma_loot_lookup_at(orig, j);
                        },
                        Option::None => {
                            match loot_lookup(orig, id) {
                                Option::Some(e) => {
                                    let j = choose|j: int| 0 <= j < orig.len()
                                        && orig[j] == e;
                                    assert(j != i);
                                    assert(mem@[j] == e);
                                    lemma_loot_lookup_at(mem@, j);
                                },
                                Option::None => {},
                            }
                        },
                    }
                }
            }
            return;
        }
        i = i + 1;
    }
    proof {
        lemma_loot_lookup_none(mem@, l.id);
    }
    mem.push((t, l));
    proof {
        assert(mem@.drop_last() =~= orig);
        assert(loot_ids_unique(mem@)) by {
            assert(forall|k: int| 0 <= k < orig.len() ==> mem@[k] == orig[k]);
        }
        lemma_loot_lookup_push(orig, (t, l));
    }
}

/// Whether the loot memory holds an entry with the id.
fn loot_mem_found(mem: &Vec<(i64, Loot)>, id: i64) -> (r: bool)
    ensures
        r == !(loot_lookup(mem@, id) is None),
{
    let mut i: usize = 0;
    while i < mem.len()
        invariant
            0 <= i <= mem@.len(),
            forall|k: int| 0 <= k < i ==> (#[trigger] mem@[k]).1.id != id,
        decreases mem@.len() - i,
    {
        if mem[i].1.id == id {
            proof {
                lemma_loot_lookup_found(mem@, id);
            }
            return true;
        }
        i = i + 1;
    }
    proof {
        lemma_loot_lookup_none(mem@, id);
    }
    false
}

/// Whether a snapshot loot item has the id.
pub open spec fn loot_with_id(game: Game, id: i64) -> bool {
    exists|i: int| 0 <= i < game.loot.len() && (#[trigger] game.loot[i]).id == id
}

fn loot_of_mem(mem: &Vec<(i64, Loot)>) -> (r: Vec<Loot>)
    ensures
        r@ == mem@.map_values(snd_loot()),
{
    let mut r: Vec<Loot> = Vec::new();
    for i in 0..mem.len()
        invariant
            r@ == mem@.take(i as int).map_values(snd_loot()),
    {
        let l = mem[i].1;
        r.push(l);
        proof {
            assert(mem@.take(i + 1).map_values(snd_loot())
                =~= mem@.take(i as int).map_values(snd_loot()).push(mem@[i as int].1));
        }
    }
    proof {
        assert(mem@.take(mem@.len() as int) =~= mem@);
    }
    r
}

impl World {
    /// Refresh the remembered loot from a new snapshot: visible loot is
    /// remembered afresh; unseen loot decays by one tick and is dropped
    /// when its time runs out or its position is seen to be empty.
    #[verifier::rlimit(100)]
    pub fn update_loot(&mut self, game: &Game)
        requires
            old(self).wf(),
            game.valid(old(self).constants.weapons.len() as int),
        ensures
            final(self).wf(),
            final(self).constants == old(self).constants,
            final(self).game == old(self).game,
            final(self).unit_mem == old(self).unit_mem,
            final(self).units == old(self).units,
            final(self).booked_loot == old(self).booked_loot,
            final(self).projectiles == old(self).projectiles,
            final(self).obstacle_cache == old(self).obstacle_cache,
            final(self).sims == old(self).sims,
            // fresh: loot the snapshot shows is stored as the snapshot
            // gives it, with a full time to live
            forall|id: i64| loot_with_id(*game, id)
                ==> exists|j: int| 0 <= j < game.loot.len()
                    && (#[trigger] game.loot[j]).id == id
                    && loot_lookup(final(self).loot_mem@, id)
                        == Option::Some((LOOT_TTL as i64, game.loot[j])),
            // retention: unseen loot decays by exactly one tick, and is
            // dropped exactly when its time ran out or it is seen absent
            forall|id: i64| #![trigger loot_lookup(old(self).loot_mem@, id)]
                (match loot_lookup(old(self).loot_mem@, id) {
                Option::Some(e) => !loot_with_id(*game, id)
                    ==> loot_lookup(final(self).loot_mem@, id)
                        == (if !spec_inside_vision(*game, e.1.position, old(self).constants)
                            && e.0 > 1 {
                            Option::Some(((e.0 - 1) as i64, e.1))
                        } else {
                            Option::<(i64, Loot)>::None
                        }),
                Option::None => true,
            }),
            // no invention
            forall|id: i64| #![trigger loot_lookup(final(self).loot_mem@, id)]
                !(loot_lookup(final(self).loot_mem@, id) is None)
                ==> loot_with_id(*game, id)
                    || !(loot_lookup(old(self).loot_mem@, id) is None),
    {
        let cons = &self.constants;
        let ghost m0 = self.loot_mem@;
        let mut new_mem: Vec<(i64, Loot)> = Vec::new();
        // fresh loot
        let mut i: usize = 0;
        while i < game.loot.len()
            invariant
                cons.valid(),
                cons == &self.constants,
                game.valid(cons.weapons.len() as int),
                0 <= i <= game.loot@.len(),
                loot_ids_unique(new_mem@),
                forall|k: int| 0 <= k < new_mem@.len()
                    ==> (#[trigger] new_mem@[k]).0 == LOOT_TTL
                        && new_mem@[k].1.valid(cons.weapons.len() as int),
                forall|id: i64| !(loot_lookup(new_mem@, id) is None)
                    ==> exists|j: int| 0 <= j < i && (#[trigger] game.loot@[j]).id == id,
                forall|j: int| 0 <= j < i
                    ==> !(loot_lookup(new_mem@, (#[trigger] game.loot@[j]).id) is None),
                forall|j: int| 0 <= j < i
                    ==> (match loot_lookup(new_mem@, (#[trigger] game.loot@[j]).id) {
                        Option::Some(e) => e.0 == LOOT_TTL,
                        Option::None => false,
                    }),
                forall|id: i64| #![trigger loot_lookup(new_mem@, id)]
                    (match loot_lookup(new_mem@, id) {
                        Option::Some(e) => exists|j: int| 0 <= j < i
                            && (#[trigger] game.loot@[j]).id == id
                            && e == (LOOT_TTL as i64, game.loot@[j]),
                        Option::None => true,
                    }),
            decreases game.loot@.len() - i,
        {
            let l = game.loot[i];
            loot_mem_insert(&mut new_mem, LOOT_TTL, l);
            i = i + 1;
        }
        let ghost m_f = new_mem@;
        // unseen loot decays
        let mut k: usize = 0;
        while k < self.loot_mem.len()
            invariant
                m0 == self.loot_mem@,
                cons.valid(),
                cons == &self.constants,
                game.valid(cons.weapons.len() as int),
                loot_ids_unique(m0),
                forall|x: int| 0 <= x < m0.len()
                    ==> 1 <= (#[trigger] m0[x]).0 <= LOOT_TTL
                        && m0[x].1.valid(cons.weapons.len() as int),
                0 <= k <= m0.len(),
                loot_ids_unique(new_mem@),
                forall|x: int| 0 <= x < new_mem@.len()
                    ==> 1 <= (#[trigger] new_mem@[x]).0 <= LOOT_TTL
                        && new_mem@[x].1.valid(cons.weapons.len() as int),
                forall|id: i64| !(loot_lookup(m_f, id) is None)
                    ==> loot_lookup(new_mem@, id) == loot_lookup(m_f, id),
                forall|j: int| 0 <= j < k
                    && loot_lookup(m_f, (#[trigger] m0[j]).1.id) is None
                    && !spec_inside_vision(*game, m0[j].1.position, *cons)
                    && m0[j].0 > 1
                    ==> loot_lookup(new_mem@, m0[j].1.id)
                        == Option::Some(((m0[j].0 - 1) as i64, m0[j].1)),
                forall|j: int| 0 <= j < k
                    && loot_lookup(m_f, (#[trigger] m0[j]).1.id) is None
                    && (spec_inside_vision(*game, m0[j].1.position, *cons) || m0[j].0 <= 1)
                    ==> loot_lookup(new_mem@, m0[j].1.id) is None,
                forall|id: i64| !(loot_lookup(new_mem@, id) is None)
                    ==> !(loot_lookup(m_f, id) is None)
                        || exists|j: int| 0 <= j < k && (#[trigger] m0[j]).1.id == id,
            decreases m0.len() - k,
        {
            let e = self.loot_mem[k];
            let found = loot_mem_found(&new_mem, e.1.id);
            proof {
                lemma_loot_lookup_at(m0, k as int);
            }
            if !found {
                let vis = inside_vision(game, &e.1.position, cons);
                if !vis && e.0 > 1 {
                    let ghost before = new_mem@;
                    new_mem.push((e.0 - 1, e.1));
                    proof {
                        assert(new_mem@.drop_last() =~= before);
                        assert(forall|x: int| 0 <= x < before.len()
                            ==> new_mem@[x] == before[x]);
                        lemma_loot_lookup_push(before, ((e.0 - 1) as i64, e.1));
                        lemma_loot_lookup_found(before, e.1.id);
                    }
                }
            }
            k = k + 1;
        }
        proof {
            assert forall|id: i64| #![trigger loot_lookup(m0, id)]
                (match loot_lookup(m0, id) {
                    Option::Some(e) => loot_lookup(m_f, id) is None,
                    Option::None => false,
                }) implies loot_lookup(new_mem@, id)
                    == (match loot_lookup(m0, id) {
                        Option::Some(e) =>
                            if !spec_inside_vision(*game, e.1.position, *cons) && e.0 > 1 {
                                Option::Some(((e.0 - 1) as i64, e.1))
                            } else {
                                Option::<(i64, Loot)>::None
                            },
                        Option::None => Option::<(i64, Loot)>::None,
                    }) by {
                lemma_loot_lookup_found(m0, id);
                match loot_lookup(m0, id) {
                    Option::Some(e) => {
                        let j = choose|j: int| 0 <= j < m0.len() && m0[j] == e;
                        lemma_loot_lookup_at(m0, j);
                    },
                    Option::None => {},
                }
            }
            assert forall|id: i64| #![trigger loot_lookup(new_mem@, id)]
                !(loot_lookup(new_mem@, id) is None)
                implies !(loot_lookup(m_f, id) is None)
                    || !(loot_lookup(m0, id) is None) by {
                if loot_lookup(m_f, id) is None {
                    let j = choose|j: int| 0 <= j < m0.len()
                        && (#[trigger] m0[j]).1.id == id;
                    lemma_loot_lookup_at(m0, j);
                }
            }
            assert forall|id: i64| loot_with_id(*game, id)
                implies !(loot_lookup(m_f, id) is None) by {
                let j = choose|j: int| 0 <= j < game.loot@.len()
                    && (#[trigger] game.loot@[j]).id == id;
            }
        }
        let loot_list = loot_of_mem(&new_mem);
        self.loot_mem = new_mem;
        self.loot = loot_list;
    }
}


/// Obstacles within view reach of a point (the obstacle's own radius
/// extends the reach).
pub open spec fn obst_near_pred(pos: Vec2, view: i64) -> spec_fn(Obstacle) -> bool {
    |o: Obstacle| crate::geom::spec_distance(pos, o.position) < view + o.radius
}

/// Whether the list holds a projectile with the id.
pub open spec fn has_proj_id(list: Seq<Projectile>, id: i64) -> bool {
    exists|k: int| 0 <= k < list.len() && (#[trigger] list[k]).id == id
}

/// Insert a projectile, replacing any existing one with the same id.
fn proj_insert(list: &mut Vec<Projectile>, p: Projectile)
    ensures
        final(list)@.len() <= old(list)@.len() + 1,
        forall|k: int| 0 <= k < final(list)@.len()
            ==> final(list)@[k] == p || old(list)@.contains(#[trigger] final(list)@[k]),
        has_proj_id(final(list)@, p.id),
        forall|j: int| #![trigger old(list)@[j]] 0 <= j < old(list)@.len()
            ==> has_proj_id(final(list)@, old(list)@[j].id),
{
    let ghost orig = list@;
    let mut i: usize = 0;
    while i < list.len()
        invariant
            orig == old(list)@,
            orig == list@,
            0 <= i <= list@.len(),
        decreases list@.len() - i,
    {
        if list[i].id == p.id {
            list.set(i, p);
            proof {
                assert forall|j: int| #![trigger orig[j]] 0 <= j < orig.len()
                    implies has_proj_id(list@, orig[j].id) by {
                    if j == i {
                        assert(list@[i as int].id == orig[j].id);
                    } else {
                        assert(list@[j].id == orig[j].id);
                    }
                }
                assert forall|k: int| 0 <= k < list@.len()
                    implies list@[k] == p || orig.contains(#[trigger] list@[k]) by {
                    if k != i {
                        assert(list@[k] == orig[k]);
                    }
                }
                assert(list@[i as int].id == p.id);
            }
            return;
        }
        i = i + 1;
    }
    list.push(p);
    proof {
        assert(forall|k: int| 0 <= k < orig.len() ==> list@[k] == orig[k]);
        assert(list@[list@.len() - 1] == p);
        assert forall|j: int| #![trigger orig[j]] 0 <= j < orig.len()
            implies has_proj_id(list@, orig[j].id) by {
            assert(list@[j].id == orig[j].id);
        }
    }
}

/// The snapshot's projectiles, later entries replacing earlier ones of
/// the same id.
fn fresh_projectiles(game: &Game, cons: &Constants) -> (r: Vec<Projectile>)
    requires
        cons.valid(),
        game.valid(cons.weapons.len() as int),
    ensures
        forall|k: int| 0 <= k < r@.len()
            ==> game.projectiles@.contains(#[trigger] r@[k]),
        forall|k: int| 0 <= k < r@.len()
            ==> (#[trigger] r@[k]).valid(cons.weapons.len() as int),
        forall|j: int| #![trigger game.projectiles@[j]] 0 <= j < game.projectiles@.len()
            ==> has_proj_id(r@, game.projectiles@[j].id),
{
    let mut list: Vec<Projectile> = Vec::new();
    let mut i: usize = 0;
    while i < game.projectiles.len()
        invariant
            cons.valid(),
            game.valid(cons.weapons.len() as int),
            0 <= i <= game.projectiles@.len(),
            forall|k: int| 0 <= k < list@.len()
                ==> game.projectiles@.contains(#[trigger] list@[k]),
            forall|k: int| 0 <= k < list@.len()
                ==> (#[trigger] list@[k]).valid(cons.weapons.len() as int),
            forall|j: int| #![trigger game.projectiles@[j]] 0 <= j < i
                ==> has_proj_id(list@, game.projectiles@[j].id),
        decreases game.projectiles@.len() - i,
    {
        let p = game.projectiles[i];
        let ghost pre = list@;
        proj_insert(&mut list, p);
        proof {
            assert forall|j: int| #![trigger game.projectiles@[j]] 0 <= j < i + 1
                implies has_proj_id(list@, game.projectiles@[j].id) by {
                if j < i {
                    let k0 = choose|k0: int| 0 <= k0 < pre.len()
                        && (#[trigger] pre[k0]).id == game.projectiles@[j].id;
                    assert(has_proj_id(list@, pre[k0].id));
                }
            }
        }
        i = i + 1;
    }
    list
}

/// Whether the snapshot carries a projectile with the id.
pub open spec fn snapshot_has_proj(game: Game, id: i64) -> bool {
    exists|j: int| 0 <= j < game.projectiles.len()
        && (#[trigger] game.projectiles[j]).id == id
}

/// Whether the point touches a known enemy.
pub open spec fn spec_hits_unit(units: Seq<Unit>, cons: Constants, p: Vec2) -> bool {
    exists|e: int| 0 <= e < units.len()
        && crate::geom::spec_distance((#[trigger] units[e]).position, p) < cons.unit_radius
}

/// Whether the point is inside a solid cached obstacle.
pub open spec fn spec_hits_solid(cache: Seq<(i64, Vec<Obstacle>)>, p: Vec2) -> bool {
    exists|c: int, o: int| 0 <= c < cache.len() && 0 <= o < cache[c].1.len()
        && !(#[trigger] cache[c].1[o]).can_shoot_through
        && crate::geom::spec_distance(cache[c].1[o].position, p) < cache[c].1[o].radius
}

/// A remembered projectile the snapshot no longer shows flies one tick
/// onward and is kept exactly when it has life left, stays on the map,
/// hits neither a known enemy nor a solid cached obstacle, and its old
/// position is not visibly empty.
pub open spec fn adv_kept(w: World, game: Game, p: Projectile) -> bool {
    let np = crate::util::advanced(p, 1).position;
    &&& p.life_ticks > 1
    &&& crate::geom::in_arena_coord(p.position.x + p.velocity.x)
    &&& crate::geom::in_arena_coord(p.position.y + p.velocity.y)
    &&& !spec_hits_unit(w.units@, w.constants, np)
    &&& !spec_hits_solid(w.obstacle_cache@, np)
    &&& !spec_inside_vision(game, p.position, w.constants)
}

/// Whether the list holds this exact projectile state.
pub open spec fn contains_proj(list: Seq<Projectile>, q: Projectile) -> bool {
    exists|x: int| 0 <= x < list.len() && #[trigger] list[x] == q
}

/// Executable twin of `has_proj_id`.
fn proj_id_known(list: &Vec<Projectile>, id: i64) -> (r: bool)
    ensures
        r == has_proj_id(list@, id),
{
    let mut x: usize = 0;
    while x < list.len()
        invariant
            0 <= x <= list@.len(),
            forall|y: int| 0 <= y < x ==> (#[trigger] list@[y]).id != id,
        decreases list@.len() - x,
    {
        if list[x].id == id {
            proof {
                assert(has_proj_id(list@, id));
            }
            return true;
        }
        x = x + 1;
    }
    false
}

/// Executable twin of `spec_hits_unit`.
fn hits_known_unit(units: &Vec<Unit>, cons: &Constants, p: &Vec2) -> (r: bool)
    requires
        p.valid(),
        forall|e: int| 0 <= e < units.len() ==> (#[trigger] units[e]).position.in_arena(),
    ensures
        r == spec_hits_unit(units@, *cons, *p),
{
    let mut e: usize = 0;
    while e < units.len()
        invariant
            p.valid(),
            forall|y: int| 0 <= y < units.len()
                ==> (#[trigger] units[y]).position.in_arena(),
            0 <= e <= units@.len(),
            forall|y: int| 0 <= y < e
                ==> !(crate::geom::spec_distance((#[trigger] units@[y]).position, *p)
                    < cons.unit_radius),
        decreases units@.len() - e,
    {
        if units[e].position.distance(p) < cons.unit_radius {
            proof {
                assert(spec_hits_unit(units@, *cons, *p));
            }
            return true;
        }
        e = e + 1;
    }
    false
}

/// Executable twin of `spec_hits_solid`.
fn hits_solid_cached(cache: &Vec<(i64, Vec<Obstacle>)>, p: &Vec2) -> (r: bool)
    requires
        p.valid(),
        forall|c: int, o: int| 0 <= c < cache.len() && 0 <= o < cache[c].1.len()
            ==> (#[trigger] cache[c].1[o]).valid(),
    ensures
        r == spec_hits_solid(cache@, *p),
{
    let mut c: usize = 0;
    while c < cache.len()
        invariant
            p.valid(),
            forall|c2: int, o: int| 0 <= c2 < cache.len() && 0 <= o < cache[c2].1.len()
                ==> (#[trigger] cache[c2].1[o]).valid(),
            0 <= c <= cache@.len(),
            forall|c2: int, o: int| 0 <= c2 < c && 0 <= o < cache@[c2].1.len()
                ==> !(!(#[trigger] cache@[c2].1[o]).can_shoot_through
                    && crate::geom::spec_distance(cache@[c2].1[o].position, *p)
                        < cache@[c2].1[o].radius),
        decreases cache@.len() - c,
    {
        let mut o: usize = 0;
        while o < cache[c].1.len()
            invariant
                p.valid(),
                forall|c2: int, o2: int| 0 <= c2 < cache.len()
                    && 0 <= o2 < cache[c2].1.len()
                    ==> (#[trigger] cache[c2].1[o2]).valid(),
                0 <= c < cache@.len(),
                0 <= o <= cache@[c as int].1.len(),
                forall|o2: int| 0 <= o2 < o
                    ==> !(!(#[trigger] cache@[c as int].1[o2]).can_shoot_through
                        && crate::geom::spec_distance(cache@[c as int].1[o2].position, *p)
                            < cache@[c as int].1[o2].radius),
            decreases cache@[c as int].1@.len() - o,
        {
            let ob = cache[c].1[o];
            if !ob.can_shoot_through {
                if ob.position.distance(p) < ob.radius {
                    proof {
                        assert(spec_hits_solid(cache@, *p));
                    }
                    return true;
                }
            }
            o = o + 1;
        }
        c = c + 1;
    }
    false
}

impl World {
    /// Cache, for every controlled unit, the obstacles within its view
    /// reach; rebuilt from scratch every tick.
    pub fn set_nearest_obstacles(&mut self, game: &Game)
        requires
            old(self).wf(),
            game.valid(old(self).constants.weapons.len() as int),
        ensures
            final(self).wf(),
            *final(self) == (World {
                obstacle_cache: final(self).obstacle_cache,
                ..*old(self)
            }),
            ({
                let my = game.units@.filter(crate::model::team_pred(game.my_id, true));
                let cons = old(self).constants;
                &&& final(self).obstacle_cache@.len() == my.len()
                &&& forall|i: int| 0 <= i < my.len()
                    ==> (#[trigger] final(self).obstacle_cache@[i]).0 == my[i].id
                        && final(self).obstacle_cache@[i].1@ == cons.obstacles@.filter(
                            obst_near_pred(my[i].position, cons.view_distance))
            }),
    {
        let my = game.my_units();
        proof {
            game.units@.lemma_filter_len(crate::model::team_pred(game.my_id, true));
            assert forall|x: int| 0 <= x < my@.len()
                implies (#[trigger] my@[x]).position.in_arena() by {
                game.units@.lemma_filter_pred(crate::model::team_pred(game.my_id, true), x);
                crate::fight_sim::lemma_filter_elem_of(game.units@,
                    crate::model::team_pred(game.my_id, true), x);
            }
        }
        let cons = &self.constants;
        let mut cache: Vec<(i64, Vec<Obstacle>)> = Vec::new();
        let mut i: usize = 0;
        while i < my.len()
            invariant
                cons == &self.constants,
                cons.valid(),
                0 <= i <= my@.len(),
                forall|x: int| 0 <= x < my@.len()
                    ==> (#[trigger] my@[x]).position.in_arena(),
                cache@.len() == i,
                forall|x: int| 0 <= x < i
                    ==> (#[trigger] cache@[x]).0 == my@[x].id
                        && cache@[x].1@ == cons.obstacles@.filter(
                            obst_near_pred(my@[x].position, cons.view_distance)),
                forall|x: int, j: int| 0 <= x < cache@.len()
                    && 0 <= j < cache@[x].1.len()
                    ==> (#[trigger] cache@[x].1[j]).valid(),
            decreases my@.len() - i,
        {
            let u = my[i];
            let mut near: Vec<Obstacle> = Vec::new();
            let mut j: usize = 0;
            while j < cons.obstacles.len()
                invariant
                    cons.valid(),
                    u == my@[i as int],
                    u.position.in_arena(),
                    0 <= j <= cons.obstacles@.len(),
                    near@ == cons.obstacles@.take(j as int).filter(
                        obst_near_pred(u.position, cons.view_distance)),
                    forall|x: int| 0 <= x < near@.len() ==> (#[trigger] near@[x]).valid(),
                decreases cons.obstacles@.len() - j,
            {
                if u.position.distance(&cons.obstacles[j].position)
                    < cons.view_distance + cons.obstacles[j].radius {
                    let o = cons.obstacles[j];
                    near.push(o);
                }
                proof {
                    crate::model::lemma_filter_take_step(cons.obstacles@,
                        obst_near_pred(u.position, cons.view_distance), j as int);
                }
                j = j + 1;
            }
            proof {
                assert(cons.obstacles@.take(cons.obstacles@.len() as int) =~= cons.obstacles@);
            }
            cache.push((u.id, near));
            i = i + 1;
        }
        self.obstacle_cache = cache;
    }

    /// Carry the projectiles over to the new tick: everything the team
    /// sees is taken as is; an unseen remembered projectile flies one
    /// tick onward and is kept only while its lifetime lasts, it hits
    /// neither a known enemy nor a solid cached obstacle, its old
    /// position is not visibly empty, and it stays on the map.
    #[verifier::rlimit(100)]
    pub fn update_projectiles(&mut self, game: &Game)
        requires
            old(self).wf(),
            game.valid(old(self).constants.weapons.len() as int),
        ensures
            final(self).wf(),
            *final(self) == (World {
                projectiles: final(self).projectiles,
                ..*old(self)
            }),
            // every visible projectile is carried
            forall|j: int| #![trigger game.projectiles@[j]] 0 <= j < game.projectiles@.len()
                ==> has_proj_id(final(self).projectiles@, game.projectiles@[j].id),
            // nothing is invented: each entry is from the snapshot or
            // the one-tick advance of a remembered projectile
            forall|k: int| 0 <= k < final(self).projectiles@.len()
                ==> game.projectiles@.contains(#[trigger] final(self).projectiles@[k])
                    || exists|j: int| 0 <= j < old(self).projectiles@.len()
                        && final(self).projectiles@[k]
                            == crate::util::advanced(#[trigger] old(self).projectiles@[j], 1),
            // a remembered projectile the snapshot no longer shows is
            // kept, advanced one tick, exactly when `adv_kept` says so
            forall|j: int| #![trigger old(self).projectiles@[j]]
                0 <= j < old(self).projectiles@.len()
                && !snapshot_has_proj(*game, old(self).projectiles@[j].id)
                && (forall|j2: int| 0 <= j2 < j
                    ==> (#[trigger] old(self).projectiles@[j2]).id
                        != old(self).projectiles@[j].id)
                && adv_kept(*old(self), *game, old(self).projectiles@[j])
                ==> contains_proj(final(self).projectiles@,
                    crate::util::advanced(old(self).projectiles@[j], 1)),
            forall|id: i64| #![trigger has_proj_id(final(self).projectiles@, id)]
                has_proj_id(final(self).projectiles@, id)
                && !snapshot_has_proj(*game, id)
                ==> exists|j: int| 0 <= j < old(self).projectiles@.len()
                    && (#[trigger] old(self).projectiles@[j]).id == id
                    && adv_kept(*old(self), *game, old(self).projectiles@[j]),
    {
        let cons = &self.constants;
        let mut list = fresh_projectiles(game, cons);
        let ghost fresh = list@;
        let mut k: usize = 0;
        while k < self.projectiles.len()
            invariant
                cons == &self.constants,
                self.wf(),
                game.valid(cons.weapons.len() as int),
                0 <= k <= self.projectiles@.len(),
                list@.len() >= fresh.len(),
                list@.take(fresh.len() as int) == fresh,
                forall|x: int| 0 <= x < fresh.len()
                    ==> game.projectiles@.contains(#[trigger] fresh[x]),
                forall|j: int| #![trigger game.projectiles@[j]] 0 <= j < game.projectiles@.len()
                    ==> has_proj_id(fresh, game.projectiles@[j].id),
                forall|x: int| fresh.len() <= x < list@.len()
                    ==> exists|j: int| 0 <= j < k as int
                        && (#[trigger] list@[x]) == crate::util::advanced(
                            self.projectiles@[j], 1)
                        && adv_kept(*self, *game, self.projectiles@[j]),
                forall|j: int| #![trigger self.projectiles@[j]] 0 <= j < k as int
                    && !snapshot_has_proj(*game, self.projectiles@[j].id)
                    && (forall|j2: int| 0 <= j2 < j
                        ==> (#[trigger] self.projectiles@[j2]).id
                            != self.projectiles@[j].id)
                    && adv_kept(*self, *game, self.projectiles@[j])
                    ==> contains_proj(list@, crate::util::advanced(
                        self.projectiles@[j], 1)),
                forall|x: int| 0 <= x < list@.len()
                    ==> (#[trigger] list@[x]).valid(cons.weapons.len() as int),
            decreases self.projectiles@.len() - k,
        {
            let p = self.projectiles[k];
            let known = proj_id_known(&list, p.id);
            proof {
                if !snapshot_has_proj(*game, p.id)
                    && (forall|j2: int| 0 <= j2 < k as int
                        ==> (#[trigger] self.projectiles@[j2]).id != p.id) {
                    // the id can be in the list only via the snapshot or
                    // an earlier remembered projectile of the same id
                    if known {
                        let x = choose|x: int| 0 <= x < list@.len()
                            && (#[trigger] list@[x]).id == p.id;
                        if x < fresh.len() {
                            assert(game.projectiles@.contains(fresh[x]));
                            let j = choose|j: int| 0 <= j < game.projectiles@.len()
                                && game.projectiles@[j] == fresh[x];
                            assert(snapshot_has_proj(*game, p.id));
                        } else {
                            let j = choose|j: int| 0 <= j < k as int
                                && (#[trigger] list@[x]) == crate::util::advanced(
                                    self.projectiles@[j], 1)
                                && adv_kept(*self, *game, self.projectiles@[j]);
                            assert(self.projectiles@[j].id == p.id);
                        }
                        assert(false);
                    }
                }
            }
            if !known && p.life_ticks > 1 {
                proof {
                    assert(-1_000_000 <= p.velocity.x * (p.life_ticks - 1) <= 1_000_000
                        && -1_000_000 <= p.velocity.y * (p.life_ticks - 1) <= 1_000_000)
                        by (nonlinear_arith)
                        requires
                            1 <= p.life_ticks <= 1_000,
                            -10_000 <= p.velocity.x <= 10_000,
                            -10_000 <= p.velocity.y <= 10_000,
                            -1_000_000 <= p.velocity.x * p.life_ticks <= 1_000_000,
                            -1_000_000 <= p.velocity.y * p.life_ticks <= 1_000_000,
                    {
                    }
                }
                let nx = p.position.x + p.velocity.x;
                let ny = p.position.y + p.velocity.y;
                if nx >= -crate::geom::ARENA_MAX && nx <= crate::geom::ARENA_MAX
                    && ny >= -crate::geom::ARENA_MAX && ny <= crate::geom::ARENA_MAX {
                    let new_pos = Vec2 { x: nx, y: ny };
                    proof {
                        assert(forall|e2: int| 0 <= e2 < self.units@.len()
                            ==> (#[trigger] self.units@[e2]).position.in_arena()) by {
                            assert(forall|e2: int| 0 <= e2 < self.units@.len()
                                ==> #[trigger] self.units@[e2]
                                    == self.unit_mem@.map_values(snd_unit())[e2]);
                        }
                        assert(new_pos == crate::util::advanced(p, 1).position);
                    }
                    let hits_unit = hits_known_unit(&self.units, cons, &new_pos);
                    let hits_obstacle = hits_solid_cached(&self.obstacle_cache, &new_pos);
                    if !hits_unit && !hits_obstacle
                        && !inside_vision(game, &p.position, cons) {
                        proof {
                            assert(adv_kept(*self, *game, p));
                        }
                        let q = Projectile {
                            position: new_pos,
                            life_ticks: p.life_ticks - 1,
                            ..p
                        };
                        let ghost pre_list = list@;
                        list.push(q);
                        proof {
                            assert(q == crate::util::advanced(self.projectiles@[k as int], 1));
                            assert(forall|y: int| 0 <= y < list@.len() - 1
                                ==> list@[y] == pre_list[y]);
                            assert(list@.take(fresh.len() as int) =~= fresh);
                            assert(list@[list@.len() - 1] == q);
                            assert(contains_proj(list@, q));
                            assert forall|j: int| #![trigger self.projectiles@[j]]
                                0 <= j < k as int
                                && contains_proj(pre_list, crate::util::advanced(
                                    self.projectiles@[j], 1))
                                implies contains_proj(list@, crate::util::advanced(
                                    self.projectiles@[j], 1)) by {
                                let x = choose|x: int| 0 <= x < pre_list.len()
                                    && #[trigger] pre_list[x] == crate::util::advanced(
                                        self.projectiles@[j], 1);
                                assert(list@[x] == pre_list[x]);
                            }
                        }
                    }
                }
            }
            k = k + 1;
        }
        proof {
            // an id carried without the snapshot showing it came from a
            // remembered projectile whose advance passed every gate
            assert forall|id: i64| #![trigger has_proj_id(list@, id)]
                has_proj_id(list@, id) && !snapshot_has_proj(*game, id)
                implies exists|j: int| 0 <= j < self.projectiles@.len()
                    && (#[trigger] self.projectiles@[j]).id == id
                    && adv_kept(*self, *game, self.projectiles@[j]) by {
                let x = choose|x: int| 0 <= x < list@.len()
                    && (#[trigger] list@[x]).id == id;
                if x < fresh.len() {
                    assert(list@[x] == fresh[x]);
                    assert(game.projectiles@.contains(fresh[x]));
                    let j = choose|j: int| 0 <= j < game.projectiles@.len()
                        && game.projectiles@[j] == fresh[x];
                    assert(snapshot_has_proj(*game, id));
                } else {
                    let j = choose|j: int| 0 <= j < self.projectiles@.len()
                        && (#[trigger] list@[x]) == crate::util::advanced(
                            self.projectiles@[j], 1)
                        && adv_kept(*self, *game, self.projectiles@[j]);
                    assert(self.projectiles@[j].id == id);
                }
            }
            assert forall|j: int| #![trigger game.projectiles@[j]]
                0 <= j < game.projectiles@.len()
                implies has_proj_id(list@, game.projectiles@[j].id) by {
                let x = choose|x: int| 0 <= x < fresh.len()
                    && (#[trigger] fresh[x]).id == game.projectiles@[j].id;
                assert(list@[x] == fresh[x]);
            }
            assert forall|x: int| 0 <= x < list@.len()
                implies game.projectiles@.contains(#[trigger] list@[x])
                    || exists|j: int| 0 <= j < self.projectiles@.len()
                        && list@[x] == crate::util::advanced(
                            #[trigger] self.projectiles@[j], 1) by {
                if x < fresh.len() {
                    assert(list@[x] == fresh[x]);
                }
            }
        }
        self.projectiles = list;
    }

    /// Ingest one tick's snapshot: clear the bookings, rebuild the
    /// obstacle cache, refresh unit and loot memory, carry projectiles
    /// over, store the snapshot and recompute the fight projections.
    pub fn update_game(&mut self, game: Game)
        requires
            old(self).wf(),
            game.valid(old(self).constants.weapons.len() as int),
            game.units.len() < 1_000_000,
        ensures
            final(self).wf(),
            final(self).game == game,
            final(self).booked_loot@.len() == 0,
            final(self).constants == old(self).constants,
            forall|k: int| 0 <= k < final(self).sims.len()
                ==> (#[trigger] final(self).sims[k]).consistent(final(self).constants,
                    game.current_tick),
            // unit memory: the snapshot's units stored as given
            forall|id: i64| #![trigger unit_lookup(final(self).unit_mem@, id)]
                enemy_with_id(game, id)
                ==> exists|j: int| 0 <= j < game.units.len()
                    && (#[trigger] game.units[j]).player_id != game.my_id
                    && game.units[j].id == id
                    && unit_lookup(final(self).unit_mem@, id)
                        == Option::Some((UNIT_TTL as i64, game.units[j])),
            // loot memory: the snapshot's loot stored as given
            forall|id: i64| loot_with_id(game, id)
                ==> exists|j: int| 0 <= j < game.loot.len()
                    && (#[trigger] game.loot[j]).id == id
                    && loot_lookup(final(self).loot_mem@, id)
                        == Option::Some((LOOT_TTL as i64, game.loot[j])),
            // unit memory: decay or drop, exactly as update_units says
            forall|id: i64| #![trigger unit_lookup(old(self).unit_mem@, id)]
                (match unit_lookup(old(self).unit_mem@, id) {
                Option::Some(e) => !enemy_with_id(game, id)
                    && !proj_mentions(game, id)
                    ==> unit_lookup(final(self).unit_mem@, id)
                        == (if !spec_inside_vision(game, e.1.position, old(self).constants)
                            && e.0 > 1 {
                            Option::Some(((e.0 - 1) as i64, e.1))
                        } else {
                            Option::<(i64, Unit)>::None
                        }),
                Option::None => true,
            }),
            // loot memory: decay or drop, exactly as update_loot says
            forall|id: i64| #![trigger loot_lookup(old(self).loot_mem@, id)]
                (match loot_lookup(old(self).loot_mem@, id) {
                Option::Some(e) => !loot_with_id(game, id)
                    ==> loot_lookup(final(self).loot_mem@, id)
                        == (if !spec_inside_vision(game, e.1.position, old(self).constants)
                            && e.0 > 1 {
                            Option::Some(((e.0 - 1) as i64, e.1))
                        } else {
                            Option::<(i64, Loot)>::None
                        }),
                Option::None => true,
            }),
    {
        self.booked_loot = Vec::new();
        self.set_nearest_obstacles(&game);
        self.update_units(&game);
        self.update_loot(&game);
        self.update_projectiles(&game);
        self.game = game;
        let sims = crate::fight_sim::create_fight_simulations(&self.game, &self.constants,
            &self.units);
        self.sims = sims;
    }
}


/// One memory refresh as seen by an entity that the new snapshot does
/// not contain and whose remembered position is not visibly empty:
/// exactly what `update_loot` (and `update_units`, for ids no inference
/// resupplies) ensures of such an id.
pub open spec fn loot_step_unseen(pre: Seq<(i64, Loot)>, post: Seq<(i64, Loot)>, id: i64)
    -> bool {
    match loot_lookup(pre, id) {
        Option::Some(e) => loot_lookup(post, id) == (if e.0 > 1 {
            Option::Some(((e.0 - 1) as i64, e.1))
        } else {
            Option::<(i64, Loot)>::None
        }),
        Option::None => loot_lookup(post, id) is None,
    }
}

/// Memory TTL decays monotonically: an entity absent from `n`
/// consecutive snapshots and never re-observed keeps losing exactly one
/// tick of time to live per refresh, and is forgotten exactly when its
/// initial time to live runs out - never earlier, never later. The
/// starting time to live is `UNIT_TTL` for units and `LOOT_TTL` for
/// loot, so a unit is dropped on the 50th unseen refresh and loot on
/// the 150th.
pub proof fn lemma_memory_ttl_decay(mems: Seq<Seq<(i64, Loot)>>, id: i64, t0: i64, l: Loot,
    n: int)
    requires
        mems.len() >= 1,
        t0 >= 1,
        loot_lookup(mems[0], id) == Option::Some((t0, l)),
        forall|i: int| 0 <= i < mems.len() - 1
            ==> loot_step_unseen(#[trigger] mems[i], mems[i + 1], id),
        0 <= n < mems.len(),
    ensures
        n < t0 ==> loot_lookup(mems[n], id) == Option::Some(((t0 - n) as i64, l)),
        n >= t0 ==> loot_lookup(mems[n], id) is None,
    decreases n,
{
    if n > 0 {
        lemma_memory_ttl_decay(mems, id, t0, l, n - 1);
        assert(loot_step_unseen(mems[n - 1], mems[n], id));
    }
}

} // verus!

//! Combat Simulator: a deterministic, tick-stepped projection of a fire
//! exchange between two groups of units. Time advances in rounds of the
//! minimum fire period among the remaining fighters; each fighter whose
//! period has elapsed spends one ammo and damages the first living
//! opponent, scaled by a hit chance that falls with distance and spread.
//! The round count is capped by a hard work budget, far beyond any fight
//! the game can produce, so one call does bounded work.

use vstd::prelude::*;

use crate::geom::{spec_distance, Vec2};
use crate::model::{Constants, Game, Unit, WeaponProperties, AMMO_MAX, HP_MAX, TICK_MAX};

verus! {

/// Fighters closer than this (milli-units) to a unit fight alongside it.
pub const GROUP_RADIUS: i64 = 15_000;

/// Hard cap on simulated rounds; a fight that outlives it is a draw.
pub const SIM_ROUND_LIMIT: u64 = 100_000;

/// The outcome of a simulated fight. `WON` carries the number of allied
/// casualties.
#[derive(Clone, Copy, Debug, PartialEq, Eq, Structural)]
pub enum FightSimResult {
    WON(i64),
    LOST,
    DRAW,
}

/// What the simulator keeps of a unit: weapon, ammo, pooled
/// health-plus-shield, aim state, position, and the fire-period progress
/// (negative while the weapon is still cooling down).
#[derive(Clone, Copy, Debug)]
pub struct Fighter {
    pub weapon: WeaponProperties,
    pub ammo: i64,
    pub aim: i64,
    pub health: i64,
    pub fire_tick: i64,
    pub position: Vec2,
}

impl Fighter {
    /// Bounds every simulated round preserves.
    pub open spec fn wf(self) -> bool {
        &&& self.weapon.valid()
        &&& 0 <= self.ammo <= AMMO_MAX
        &&& -HP_MAX <= self.health <= 2 * HP_MAX
        &&& -TICK_MAX <= self.fire_tick <= TICK_MAX
        &&& self.position.in_arena()
    }
}

pub open spec fn fighters_wf(fs: Seq<Fighter>) -> bool {
    forall|i: int| 0 <= i < fs.len() ==> (#[trigger] fs[i]).wf()
}

/// A unit takes part in a fight if it holds a weapon with ammo.
pub open spec fn spec_eligible(u: Unit) -> bool {
    match u.weapon {
        Option::None => false,
        Option::Some(w) => u.ammo[w as int] != 0,
    }
}

/// The fighter a unit reduces to. The fire-period progress starts at
/// zero when the unit can already shoot, else below zero by the ticks
/// still to wait.
pub open spec fn spec_fighter_of(u: Unit, cons: Constants, current_tick: i64) -> Fighter {
    Fighter {
        weapon: cons.weapons[u.weapon.unwrap() as int],
        ammo: u.ammo[u.weapon.unwrap() as int] as i64,
        aim: u.aim,
        health: (u.health + u.shield) as i64,
        fire_tick: if u.next_shot_tick > current_tick {
            (current_tick - u.next_shot_tick) as i64
        } else {
            0
        },
        position: u.position,
    }
}

/// The fighters of a team, in roster order.
pub open spec fn spec_fighters_of(team: Seq<Unit>, cons: Constants, current_tick: i64)
    -> Seq<Fighter>
    decreases team.len(),
{
    if team.len() == 0 {
        Seq::empty()
    } else {
        let rest = spec_fighters_of(team.drop_last(), cons, current_tick);
        if spec_eligible(team.last()) {
            rest.push(spec_fighter_of(team.last(), cons, current_tick))
        } else {
            rest
        }
    }
}

/// Build the fighter roster of one team.
fn fighter_props(team: &Vec<Unit>, cons: &Constants, current_tick: i64) -> (r: Vec<Fighter>)
    requires
        cons.valid(),
        0 <= current_tick <= TICK_MAX,
        forall|i: int| 0 <= i < team.len()
            ==> (#[trigger] team[i]).valid(cons.weapons.len() as int),
    ensures
        r@ == spec_fighters_of(team@, *cons, current_tick),
        fighters_wf(r@),
{
    let mut r: Vec<Fighter> = Vec::new();
    for i in 0..team.len()
        invariant
            cons.valid(),
            0 <= current_tick <= TICK_MAX,
            forall|k: int| 0 <= k < team.len()
                ==> (#[trigger] team[k]).valid(cons.weapons.len() as int),
            r@ == spec_fighters_of(team@.take(i as int), *cons, current_tick),
            fighters_wf(r@),
    {
        let u = &team[i];
        match u.weapon {
            Option::Some(w) => {
                if u.ammo[w] != 0 {
                    let f = Fighter {
                        weapon: cons.weapons[w],
                        ammo: u.ammo[w],
                        aim: u.aim,
                        health: u.health + u.shield,
                        fire_tick: if u.next_shot_tick > current_tick {
                            current_tick - u.next_shot_tick
                        } else {
                            0
                        },
                        position: u.position,
                    };
                    r.push(f);
                }
            },
            Option::None => {},
        }
        proof {
            assert(team@.take(i + 1).drop_last() =~= team@.take(i as int));
            assert(team@.take(i + 1).last() == team@[i as int]);
        }
    }
    proof {
        assert(team@.take(team@.len() as int) =~= team@);
    }
    r
}


/// Hit chance in permille: full at point blank or with no spread, and
/// falling as `2 * unit_radius / (distance * spread)` beyond that —
/// the small-angle closed form of the spread cone, non-increasing in
/// distance and in spread. Being an integer quotient it reaches zero
/// once `distance * spread` exceeds two million unit radii.
pub open spec fn spec_chance_permille(sp: Vec2, tp: Vec2, w: WeaponProperties, cons: Constants)
    -> int {
    let q = spec_distance(sp, tp) * w.spread;
    if q <= 0 {
        1000
    } else {
        let c = (2_000_000 * cons.unit_radius) / q;
        if c > 1000 {
            1000
        } else {
            c
        }
    }
}

/// Executable twin of `spec_chance_permille`.
fn chance_permille(sp: &Vec2, tp: &Vec2, w: &WeaponProperties, cons: &Constants) -> (r: i64)
    requires
        sp.in_arena(),
        tp.in_arena(),
        w.valid(),
        cons.valid(),
    ensures
        r == spec_chance_permille(*sp, *tp, *w, *cons),
        0 <= r <= 1000,
{
    let d = sp.distance(tp);
    proof {
        assert(0 <= d * w.spread <= 48_000_000_000_000) by (nonlinear_arith)
            requires
                0 <= d <= 12_000_000,
                0 <= w.spread <= 4_000,
        {
        }
    }
    let q = d * w.spread;
    if q <= 0 {
        1000
    } else {
        let c = ((2_000_000 * cons.unit_radius) as u64 / (q as u64)) as i64;
        if c > 1000 {
            1000
        } else {
            c
        }
    }
}

/// Damage one projectile of the shooter deals to the target.
pub open spec fn spec_dmg(shooter: Fighter, target: Fighter, cons: Constants) -> int {
    (shooter.weapon.projectile_damage
        * spec_chance_permille(shooter.position, target.position, shooter.weapon, cons)) / 1000
}

/// The opposing roster after the shooter's projectile lands on its first
/// living member (front-to-back fixed order).
pub open spec fn spec_hit_first(shooter: Fighter, other: Seq<Fighter>, cons: Constants)
    -> Seq<Fighter>
    decreases other.len(),
{
    if other.len() == 0 {
        other
    } else if other[0].health > 0 {
        seq![
            Fighter { health: (other[0].health - spec_dmg(shooter, other[0], cons)) as i64, ..other[0] }
        ] + other.drop_first()
    } else {
        seq![other[0]] + spec_hit_first(shooter, other.drop_first(), cons)
    }
}

/// One fighter's turn within a round: its fire-period progress advances
/// by the round length; when the period has elapsed it resets, one ammo
/// is spent, and the first living opponent is hit.
pub open spec fn spec_fire_one(f: Fighter, other: Seq<Fighter>, rate: int, cons: Constants)
    -> (Fighter, Seq<Fighter>) {
    if f.ammo == 0 {
        (f, other)
    } else {
        let ft = f.fire_tick + rate;
        if ft >= f.weapon.fire_rate_ticks {
            (
                Fighter {
                    fire_tick: (ft - f.weapon.fire_rate_ticks) as i64,
                    ammo: (f.ammo - 1) as i64,
                    ..f
                },
                spec_hit_first(f, other, cons),
            )
        } else {
            (Fighter { fire_tick: ft as i64, ..f }, other)
        }
    }
}

/// One side's volley: every fighter takes its turn in roster order.
pub open spec fn spec_volley(cur: Seq<Fighter>, other: Seq<Fighter>, rate: int, cons: Constants)
    -> (Seq<Fighter>, Seq<Fighter>)
    decreases cur.len(),
{
    if cur.len() == 0 {
        (cur, other)
    } else {
        let fo = spec_fire_one(cur[0], other, rate, cons);
        let rec = spec_volley(cur.drop_first(), fo.1, rate, cons);
        (seq![fo.0] + rec.0, rec.1)
    }
}

/// Apply the shooter's hit to the first living member of `other`.
fn hit_first(shooter: &Fighter, other: &mut Vec<Fighter>, cons: &Constants)
    requires
        shooter.wf(),
        cons.valid(),
        fighters_wf(old(other)@),
    ensures
        final(other)@ == spec_hit_first(*shooter, old(other)@, *cons),
        fighters_wf(final(other)@),
        final(other)@.len() == old(other)@.len(),
        forall|k: int| 0 <= k < old(other)@.len()
            ==> (#[trigger] final(other)@[k]).weapon == old(other)@[k].weapon
                && final(other)@[k].ammo == old(other)@[k].ammo,
{
    let ghost orig = other@;
    let mut j: usize = 0;
    proof {
        assert(orig.skip(0) =~= orig);
        assert(orig.take(0) + spec_hit_first(*shooter, orig.skip(0), *cons)
            =~= spec_hit_first(*shooter, orig, *cons));
    }
    while j < other.len()
        invariant
            orig == old(other)@,
            shooter.wf(),
            cons.valid(),
            fighters_wf(other@),
            other@ == orig,
            0 <= j <= other@.len(),
            forall|k: int| 0 <= k < j ==> (#[trigger] orig[k]).health <= 0,
            spec_hit_first(*shooter, orig, *cons)
                == orig.take(j as int) + spec_hit_first(*shooter, orig.skip(j as int), *cons),
        decreases other@.len() - j,
    {
        proof {
            assert(orig.skip(j as int)[0] == orig[j as int]);
            assert(orig.skip(j as int).drop_first() =~= orig.skip(j + 1));
        }
        if other[j].health > 0 {
            let t = other[j];
            let dmg_raw = shooter.weapon.projectile_damage;
            let ch = chance_permille(&shooter.position, &t.position, &shooter.weapon, cons);
            proof {
                assert(0 <= dmg_raw * ch <= 1_000_000_000 && (dmg_raw * ch) / 1000 <= HP_MAX)
                    by (nonlinear_arith)
                    requires
                        0 <= dmg_raw <= HP_MAX,
                        0 <= ch <= 1000,
                {
                }
            }
            let dmg = ((dmg_raw * ch) as u64 / 1000) as i64;
            let hit = Fighter { health: t.health - dmg, ..t };
            other.set(j, hit);
            proof {
                assert(spec_hit_first(*shooter, orig.skip(j as int), *cons)
                    =~= seq![hit] + orig.skip(j + 1));
                assert(other@ =~= orig.take(j as int) + (seq![hit] + orig.skip(j + 1)));
                assert(other@ == spec_hit_first(*shooter, orig, *cons));
            }
            return;
        }
        j = j + 1;
        proof {
            assert(orig.take(j as int) =~= orig.take(j - 1).push(orig[j - 1]));
            assert(orig.take(j - 1) + (seq![orig[j - 1]] + spec_hit_first(*shooter, orig.skip(j as int), *cons))
                =~= orig.take(j as int) + spec_hit_first(*shooter, orig.skip(j as int), *cons));
        }
    }
    proof {
        assert(orig.skip(orig.len() as int) =~= Seq::<Fighter>::empty());
        assert(orig.take(orig.len() as int) =~= orig);
    }
}

/// One side's volley, in place.
fn process_tick(rate: i64, cur: &mut Vec<Fighter>, other: &mut Vec<Fighter>, cons: &Constants)
    requires
        1 <= rate <= TICK_MAX,
        cons.valid(),
        fighters_wf(old(cur)@),
        fighters_wf(old(other)@),
        forall|k: int| 0 <= k < old(cur)@.len()
            ==> rate <= (#[trigger] old(cur)@[k]).weapon.fire_rate_ticks,
    ensures
        (final(cur)@, final(other)@) == spec_volley(old(cur)@, old(other)@, rate as int, *cons),
        fighters_wf(final(cur)@),
        fighters_wf(final(other)@),
        final(cur)@.len() == old(cur)@.len(),
        final(other)@.len() == old(other)@.len(),
        forall|k: int| 0 <= k < old(cur)@.len()
            ==> (#[trigger] final(cur)@[k]).weapon == old(cur)@[k].weapon,
        forall|k: int| 0 <= k < old(other)@.len()
            ==> (#[trigger] final(other)@[k]).weapon == old(other)@[k].weapon,
{
    let ghost ocur = cur@;
    let ghost oother = other@;
    let ghost target = spec_volley(ocur, oother, rate as int, *cons);
    let mut i: usize = 0;
    proof {
        assert(ocur.skip(0) =~= ocur);
        assert(ocur.take(0) + spec_volley(ocur.skip(0), oother, rate as int, *cons).0
            =~= spec_volley(ocur, oother, rate as int, *cons).0);
    }
    while i < cur.len()
        invariant
            ocur == old(cur)@,
            oother == old(other)@,
            1 <= rate <= TICK_MAX,
            cons.valid(),
            fighters_wf(cur@),
            fighters_wf(other@),
            forall|k: int| 0 <= k < cur@.len()
                ==> rate <= (#[trigger] cur@[k]).weapon.fire_rate_ticks,
            forall|k: int| 0 <= k < cur@.len()
                ==> (#[trigger] cur@[k]).weapon == ocur[k].weapon,
            forall|k: int| 0 <= k < other@.len()
                ==> (#[trigger] other@[k]).weapon == oother[k].weapon,
            0 <= i <= cur@.len(),
            cur@.len() == ocur.len(),
            other@.len() == oother.len(),
            cur@.skip(i as int) == ocur.skip(i as int),
            target == spec_volley(ocur, oother, rate as int, *cons),
            target.0 == cur@.take(i as int)
                + spec_volley(ocur.skip(i as int), other@, rate as int, *cons).0,
            target.1 == spec_volley(ocur.skip(i as int), other@, rate as int, *cons).1,
        decreases cur@.len() - i,
    {
        proof {
            assert(ocur.skip(i as int)[0] == ocur[i as int]);
            assert(cur@[i as int] == cur@.skip(i as int)[0]);
            assert(ocur.skip(i as int).drop_first() =~= ocur.skip(i + 1));
        }
        let f = cur[i];
        let ghost fo = spec_fire_one(f, other@, rate as int, *cons);
        if f.ammo != 0 {
            let ft = f.fire_tick + rate;
            if ft >= f.weapon.fire_rate_ticks {
                let f2 = Fighter {
                    fire_tick: ft - f.weapon.fire_rate_ticks,
                    ammo: f.ammo - 1,
                    ..f
                };
                cur.set(i, f2);
                hit_first(&f, other, cons);
            } else {
                cur.set(i, Fighter { fire_tick: ft, ..f });
            }
        }
        proof {
            assert(cur@.skip(i + 1) =~= ocur.skip(i + 1));
            assert(cur@.take(i + 1) =~= cur@.take(i as int).push(cur@[i as int]));
            assert(cur@[i as int] == fo.0);
            assert(cur@.take(i as int).push(fo.0)
                + spec_volley(ocur.skip(i + 1), other@, rate as int, *cons).0
                =~= cur@.take(i as int) + (seq![fo.0]
                    + spec_volley(ocur.skip(i + 1), other@, rate as int, *cons).0));
        }
        i = i + 1;
    }
    proof {
        assert(ocur.skip(ocur.len() as int) =~= Seq::<Fighter>::empty());
        assert(cur@.take(cur@.len() as int) =~= cur@);
        assert(target.0 =~= cur@);
    }
}


/// Minimum fire period in a roster; a harmless ceiling when empty.
pub open spec fn spec_min_rate(fs: Seq<Fighter>) -> int
    decreases fs.len(),
{
    if fs.len() == 0 {
        TICK_MAX as int
    } else {
        let m = spec_min_rate(fs.drop_first());
        if fs[0].weapon.fire_rate_ticks <= m {
            fs[0].weapon.fire_rate_ticks as int
        } else {
            m
        }
    }
}

/// The minimum fire period of a well-formed roster is a positive bound
/// below every member's period.
pub proof fn lemma_min_rate_props(fs: Seq<Fighter>)
    requires
        fighters_wf(fs),
    ensures
        1 <= spec_min_rate(fs) <= TICK_MAX,
        forall|k: int| 0 <= k < fs.len()
            ==> spec_min_rate(fs) <= (#[trigger] fs[k]).weapon.fire_rate_ticks,
    decreases fs.len(),
{
    if fs.len() > 0 {
        assert(fighters_wf(fs.drop_first())) by {
            assert(forall|i: int| 0 <= i < fs.drop_first().len()
                ==> fs.drop_first()[i] == fs[i + 1]);
        }
        lemma_min_rate_props(fs.drop_first());
        assert(forall|k: int| 1 <= k < fs.len() ==> fs.drop_first()[k - 1] == fs[k]);
    }
}

/// Executable twin of `spec_min_rate`.
fn min_rate_of(v: &Vec<Fighter>) -> (r: i64)
    requires
        fighters_wf(v@),
    ensures
        r == spec_min_rate(v@),
{
    let mut r: i64 = TICK_MAX;
    let mut i: usize = v.len();
    while i > 0
        invariant
            fighters_wf(v@),
            0 <= i <= v@.len(),
            r == spec_min_rate(v@.skip(i as int)),
        decreases i,
    {
        i = i - 1;
        proof {
            assert(v@.skip(i as int)[0] == v@[i as int]);
            assert(v@.skip(i as int).drop_first() =~= v@.skip(i + 1));
        }
        if v[i].weapon.fire_rate_ticks <= r {
            r = v[i].weapon.fire_rate_ticks;
        }
    }
    proof {
        assert(v@.skip(0) =~= v@);
    }
    r
}

/// A living fighter.
pub open spec fn alive_pred() -> spec_fn(Fighter) -> bool {
    |f: Fighter| f.health > 0
}

/// Whether any fighter of the roster still has ammo.
pub open spec fn spec_any_ammo(fs: Seq<Fighter>) -> bool {
    exists|i: int| 0 <= i < fs.len() && (#[trigger] fs[i]).ammo != 0
}

fn any_ammo(v: &Vec<Fighter>) -> (r: bool)
    ensures
        r == spec_any_ammo(v@),
{
    for i in 0..v.len()
        invariant
            forall|k: int| 0 <= k < i ==> (#[trigger] v@[k]).ammo == 0,
    {
        if v[i].ammo != 0 {
            proof {
                assert(spec_any_ammo(v@));
            }
            return true;
        }
    }
    false
}

/// Drop the dead fighters, keeping roster order.
fn prune(v: &mut Vec<Fighter>)
    requires
        fighters_wf(old(v)@),
    ensures
        final(v)@ == old(v)@.filter(alive_pred()),
        fighters_wf(final(v)@),
        final(v)@.len() <= old(v)@.len(),
{
    let mut keep: Vec<Fighter> = Vec::new();
    for i in 0..v.len()
        invariant
            fighters_wf(v@),
            keep@ == v@.take(i as int).filter(alive_pred()),
            fighters_wf(keep@),
    {
        if v[i].health > 0 {
            let f = v[i];
            keep.push(f);
        }
        proof {
            crate::model::lemma_filter_take_step(v@, alive_pred(), i as int);
        }
    }
    proof {
        assert(v@.take(v@.len() as int) =~= v@);
        v@.lemma_filter_len(alive_pred());
    }
    *v = keep;
}

/// The fight projection itself, one recursive unfolding per round; the
/// fuel is the hard work budget. Allied casualties in `WON` are counted
/// against the full starting team, ineligible members included.
pub open spec fn spec_fight(allies: Seq<Fighter>, enemies: Seq<Fighter>, n_start: int,
    cons: Constants, fuel: nat) -> FightSimResult
    decreases fuel,
{
    if enemies.len() == 0 {
        if allies.len() == 0 {
            FightSimResult::DRAW
        } else {
            FightSimResult::WON((n_start - allies.len()) as i64)
        }
    } else if allies.len() == 0 {
        FightSimResult::LOST
    } else if fuel == 0 {
        FightSimResult::DRAW
    } else {
        let ra = spec_min_rate(allies);
        let re = spec_min_rate(enemies);
        let rate = if ra <= re { ra } else { re };
        let v1 = spec_volley(allies, enemies, rate, cons);
        let v2 = spec_volley(v1.1, v1.0, rate, cons);
        let a2 = v2.1;
        let e2 = v2.0;
        if !spec_any_ammo(a2) && !spec_any_ammo(e2) {
            FightSimResult::DRAW
        } else {
            spec_fight(a2.filter(alive_pred()), e2.filter(alive_pred()), n_start, cons,
                (fuel - 1) as nat)
        }
    }
}

/// A roster has at most as many fighters as the team has units.
pub proof fn lemma_fighters_len(team: Seq<Unit>, cons: Constants, current_tick: i64)
    ensures
        spec_fighters_of(team, cons, current_tick).len() <= team.len(),
    decreases team.len(),
{
    if team.len() > 0 {
        lemma_fighters_len(team.drop_last(), cons, current_tick);
    }
}

/// What `simulation` returns: both teams reduce to fighter rosters; an
/// empty allied roster loses at once, an empty enemy roster is a
/// casualty-free win, and otherwise the fight is projected round by
/// round.
pub open spec fn spec_simulation(u1: Seq<Unit>, u2: Seq<Unit>, cons: Constants,
    current_tick: i64) -> FightSimResult {
    let a = spec_fighters_of(u1, cons, current_tick);
    let e = spec_fighters_of(u2, cons, current_tick);
    if a.len() == 0 {
        FightSimResult::LOST
    } else if e.len() == 0 {
        FightSimResult::WON(0)
    } else {
        spec_fight(a, e, u1.len() as int, cons, SIM_ROUND_LIMIT as nat)
    }
}

/// Deterministically project a fire exchange between two groups.
pub fn simulation(u1: &Vec<Unit>, u2: &Vec<Unit>, cons: &Constants, current_tick: i64)
    -> (r: FightSimResult)
    requires
        cons.valid(),
        0 <= current_tick <= TICK_MAX,
        u1.len() <= 1_000_000,
        forall|i: int| 0 <= i < u1.len()
            ==> (#[trigger] u1[i]).valid(cons.weapons.len() as int),
        forall|i: int| 0 <= i < u2.len()
            ==> (#[trigger] u2[i]).valid(cons.weapons.len() as int),
    ensures
        r == spec_simulation(u1@, u2@, *cons, current_tick),
{
    let mut allies = fighter_props(u1, cons, current_tick);
    if allies.len() == 0 {
        return FightSimResult::LOST;
    }
    let mut enemies = fighter_props(u2, cons, current_tick);
    if enemies.len() == 0 {
        return FightSimResult::WON(0);
    }
    let n_start = u1.len();
    proof {
        lemma_fighters_len(u1@, *cons, current_tick);
    }
    let ghost goal = spec_fight(allies@, enemies@, n_start as int, *cons,
        SIM_ROUND_LIMIT as nat);
    proof {
        assert(goal == spec_simulation(u1@, u2@, *cons, current_tick));
    }
    let mut fuel: u64 = SIM_ROUND_LIMIT;
    while allies.len() > 0 && enemies.len() > 0 && fuel > 0
        invariant
            goal == spec_simulation(u1@, u2@, *cons, current_tick),
            cons.valid(),
            fighters_wf(allies@),
            fighters_wf(enemies@),
            allies@.len() <= n_start,
            n_start <= 1_000_000,
            0 <= fuel <= SIM_ROUND_LIMIT,
            goal == spec_fight(allies@, enemies@, n_start as int, *cons, fuel as nat),
        decreases fuel,
    {
        proof {
            lemma_min_rate_props(allies@);
            lemma_min_rate_props(enemies@);
        }
        let ra = min_rate_of(&allies);
        let re = min_rate_of(&enemies);
        let rate = if ra <= re { ra } else { re };
        let ghost a0 = allies@;
        let ghost e0 = enemies@;
        process_tick(rate, &mut allies, &mut enemies, cons);
        let ghost a1 = allies@;
        let ghost e1 = enemies@;
        process_tick(rate, &mut enemies, &mut allies, cons);
        let ghost a2 = allies@;
        let ghost e2 = enemies@;
        let any = {
            let aa = any_ammo(&allies);
            let ea = any_ammo(&enemies);
            aa || ea
        };
        prune(&mut allies);
        prune(&mut enemies);
        if !any {
            proof {
                assert(goal == FightSimResult::DRAW);
            }
            return FightSimResult::DRAW;
        }
        fuel = fuel - 1;
        proof {
            assert(allies@ == a2.filter(alive_pred()));
            assert(enemies@ == e2.filter(alive_pred()));
        }
    }
    if enemies.len() == 0 {
        if allies.len() == 0 {
            FightSimResult::DRAW
        } else {
            let casualties = n_start - allies.len();
            FightSimResult::WON(casualties as i64)
        }
    } else if allies.len() == 0 {
        FightSimResult::LOST
    } else {
        FightSimResult::DRAW
    }
}


/// Whether the allied group can take the fight: a win always counts, a
/// draw only when the caller allows it.
pub fn can_win(u1: &Vec<Unit>, u2: &Vec<Unit>, allow_draw: bool, cons: &Constants,
    current_tick: i64) -> (r: bool)
    requires
        cons.valid(),
        0 <= current_tick <= TICK_MAX,
        u1.len() <= 1_000_000,
        forall|i: int| 0 <= i < u1.len()
            ==> (#[trigger] u1[i]).valid(cons.weapons.len() as int),
        forall|i: int| 0 <= i < u2.len()
            ==> (#[trigger] u2[i]).valid(cons.weapons.len() as int),
    ensures
        r == (match spec_simulation(u1@, u2@, *cons, current_tick) {
            FightSimResult::WON(_) => true,
            FightSimResult::DRAW => allow_draw,
            FightSimResult::LOST => false,
        }),
{
    match simulation(u1, u2, cons, current_tick) {
        FightSimResult::WON(_) => true,
        FightSimResult::DRAW => allow_draw,
        FightSimResult::LOST => false,
    }
}

/// The id of a unit, for roster/id bookkeeping.
pub open spec fn id_of() -> spec_fn(Unit) -> i64 {
    |u: Unit| u.id
}

/// A cached fight projection: the result, the two rosters it ran on,
/// and their ids for quick membership tests.
#[derive(Clone, Debug)]
pub struct FightSim {
    pub result: FightSimResult,
    pub allies: Vec<i64>,
    pub enemies: Vec<i64>,
    pub ally_roster: Vec<Unit>,
    pub enemy_roster: Vec<Unit>,
}

/// Units whose id is in the list.
pub open spec fn id_in_pred(ids: Seq<i64>) -> spec_fn(Unit) -> bool {
    |u: Unit| ids.contains(u.id)
}

impl FightSim {
    /// The sim is consistent: its id lists are exactly its rosters' ids
    /// and its result is the projection of its rosters.
    pub open spec fn consistent(self, cons: Constants, current_tick: i64) -> bool {
        &&& self.allies@ == self.ally_roster@.map_values(id_of())
        &&& self.enemies@ == self.enemy_roster@.map_values(id_of())
        &&& self.result == spec_simulation(self.ally_roster@, self.enemy_roster@, cons,
            current_tick)
    }

    /// The rosters hold valid units.
    pub open spec fn rosters_valid(self, n_weapons: int) -> bool {
        &&& forall|i: int| 0 <= i < self.ally_roster.len()
            ==> (#[trigger] self.ally_roster[i]).valid(n_weapons)
        &&& forall|i: int| 0 <= i < self.enemy_roster.len()
            ==> (#[trigger] self.enemy_roster[i]).valid(n_weapons)
    }

    /// The covered enemies that are in the given list, in list order.
    pub fn enemy_units(&self, all_enemies: &Vec<Unit>) -> (r: Vec<Unit>)
        ensures
            r@ == all_enemies@.filter(id_in_pred(self.enemies@)),
    {
        let mut r: Vec<Unit> = Vec::new();
        for i in 0..all_enemies.len()
            invariant
                r@ == all_enemies@.take(i as int).filter(id_in_pred(self.enemies@)),
        {
            if crate::util::contains_id(&self.enemies, all_enemies[i].id) {
                let u = all_enemies[i];
                r.push(u);
            }
            proof {
                crate::model::lemma_filter_take_step(all_enemies@, id_in_pred(self.enemies@),
                    i as int);
            }
        }
        proof {
            assert(all_enemies@.take(all_enemies@.len() as int) =~= all_enemies@);
        }
        r
    }

    /// Whether the given unit is among the sim's allies.
    pub fn covers_ally(&self, id: i64) -> (r: bool)
        ensures
            r == self.allies@.contains(id),
    {
        crate::util::contains_id(&self.allies, id)
    }
}

/// The ids of a roster, in order.
fn ids_of(roster: &Vec<Unit>) -> (r: Vec<i64>)
    ensures
        r@ == roster@.map_values(id_of()),
{
    let mut r: Vec<i64> = Vec::new();
    for i in 0..roster.len()
        invariant
            r@ == roster@.take(i as int).map_values(id_of()),
    {
        r.push(roster[i].id);
        proof {
            assert(roster@.take(i + 1).map_values(id_of())
                =~= roster@.take(i as int).map_values(id_of()).push(roster@[i as int].id));
        }
    }
    proof {
        assert(roster@.take(roster@.len() as int) =~= roster@);
    }
    r
}

/// Whether two id lists hold the same ids (as sets).
fn same_ids(a: &Vec<i64>, b: &Vec<i64>) -> (r: bool)
    ensures
        r ==> (forall|x: i64| a@.contains(x) == b@.contains(x)),
{
    if a.len() != b.len() {
        return false;
    }
    for i in 0..a.len()
        invariant
            forall|k: int| 0 <= k < i ==> b@.contains(#[trigger] a@[k]),
    {
        if !crate::util::contains_id(b, a[i]) {
            return false;
        }
    }
    for i in 0..b.len()
        invariant
            forall|k: int| 0 <= k < a@.len() ==> b@.contains(#[trigger] a@[k]),
            forall|k: int| 0 <= k < i ==> a@.contains(#[trigger] b@[k]),
    {
        if !crate::util::contains_id(a, b[i]) {
            return false;
        }
    }
    proof {
        assert forall|x: i64| a@.contains(x) == b@.contains(x) by {
            if a@.contains(x) {
                let j = choose|j: int| 0 <= j < a@.len() && a@[j] == x;
                assert(b@.contains(a@[j]));
            }
            if b@.contains(x) {
                let j = choose|j: int| 0 <= j < b@.len() && b@[j] == x;
                assert(a@.contains(b@[j]));
            }
        }
    }
    true
}

/// Whether some cached record simulates against exactly this roster.
pub open spec fn covers_enemy_group(sims: Seq<FightSim>, grp: Seq<Unit>) -> bool {
    exists|k: int| 0 <= k < sims.len() && (#[trigger] sims[k]).enemy_roster@ == grp
}

/// Spawned fellows that fight alongside a controlled unit.
pub open spec fn group_mate_pred(id: i64, pos: Vec2) -> spec_fn(Unit) -> bool {
    |m: Unit| m.id != id && m.remaining_spawn_time is None
        && spec_distance(m.position, pos) < GROUP_RADIUS
}

/// The allied roster built around one controlled unit: its nearby
/// spawned fellows, itself appended.
pub open spec fn spec_ally_group(my: Seq<Unit>, u: Unit) -> Seq<Unit> {
    my.filter(group_mate_pred(u.id, u.position)).push(u)
}

/// Two id lists name the same set of ids.
pub open spec fn same_id_set(a: Seq<i64>, b: Seq<i64>) -> bool {
    forall|x: i64| #![trigger a.contains(x)] #![trigger b.contains(x)]
        a.contains(x) == b.contains(x)
}

/// Whether some built group has exactly this id set.
pub open spec fn group_ids_cover(gids: Seq<Vec<i64>>, ids: Seq<i64>) -> bool {
    exists|g: int| 0 <= g < gids.len() && same_id_set((#[trigger] gids[g])@, ids)
}

/// Whether some cached record fights with exactly this allied id set.
pub open spec fn covers_ally_ids(sims: Seq<FightSim>, ids: Seq<i64>) -> bool {
    exists|k: int| 0 <= k < sims.len() && same_id_set((#[trigger] sims[k]).allies@, ids)
}

/// Run the fight projection over every pairing of an allied group (each
/// of my units with its nearby spawned fellows, duplicates dropped) and
/// an enemy group (the spawned known enemies of one opposing team).
/// Every returned record is consistent: it carries the rosters it was
/// computed from, their id lists, and the projection of exactly those
/// rosters.
pub fn create_fight_simulations(game: &Game, cons: &Constants, enemies_all: &Vec<Unit>)
    -> (r: Vec<FightSim>)
    requires
        cons.valid(),
        game.valid(cons.weapons.len() as int),
        game.units.len() < 1_000_000,
        forall|i: int| 0 <= i < enemies_all.len()
            ==> (#[trigger] enemies_all[i]).valid(cons.weapons.len() as int),
    ensures
        forall|k: int| 0 <= k < r.len()
            ==> (#[trigger] r[k]).consistent(*cons, game.current_tick)
                && r[k].rosters_valid(cons.weapons.len() as int),
        // coverage: with any controlled unit present, every opposing
        // team's spawned roster is simulated against some allied group
        game.units@.filter(crate::model::team_pred(game.my_id, true)).len() > 0
            ==> forall|i: int| 0 <= i < enemies_all.len()
                && (#[trigger] enemies_all[i]).remaining_spawn_time is None
                ==> covers_enemy_group(r@, enemies_all@.filter(
                    crate::behaviour::player_group_pred(enemies_all[i].player_id))),
        // coverage the other way: with any spawned enemy known, every
        // controlled unit's group (the unit plus its spawned fellows
        // within the group radius) fights in some record, id for id
        (exists|i: int| 0 <= i < enemies_all.len()
            && (#[trigger] enemies_all[i]).remaining_spawn_time is None)
            ==> forall|i: int|
                #![trigger game.units@.filter(crate::model::team_pred(game.my_id,
                    true))[i]]
                0 <= i < game.units@.filter(crate::model::team_pred(game.my_id,
                    true)).len()
                ==> covers_ally_ids(r@, spec_ally_group(
                    game.units@.filter(crate::model::team_pred(game.my_id, true)),
                    game.units@.filter(crate::model::team_pred(game.my_id,
                        true))[i]).map_values(id_of())),
{
    let my = game.my_units();
    proof {
        game.units@.lemma_filter_len(crate::model::team_pred(game.my_id, true));
        assert forall|i: int| 0 <= i < my@.len()
            implies (#[trigger] my@[i]).valid(cons.weapons.len() as int) by {
            game.units@.lemma_filter_pred(crate::model::team_pred(game.my_id, true), i);
            crate::fight_sim::lemma_filter_elem_of(game.units@,
                crate::model::team_pred(game.my_id, true), i);
        }
    }
    // allied groups
    let mut groups: Vec<Vec<Unit>> = Vec::new();
    let mut group_ids: Vec<Vec<i64>> = Vec::new();
    for i in 0..my.len()
        invariant
            cons.valid(),
            my@.len() < 1_000_000,
            forall|k: int| 0 <= k < my@.len()
                ==> (#[trigger] my@[k]).valid(cons.weapons.len() as int),
            forall|k: int| 0 <= k < my@.len() ==> (#[trigger] my@[k]).position.in_arena(),
            groups@.len() == group_ids@.len(),
            forall|g: int, j: int| 0 <= g < groups@.len()
                && 0 <= j < groups@[g].len()
                ==> (#[trigger] groups@[g][j]).valid(cons.weapons.len() as int),
            forall|g: int| 0 <= g < groups@.len()
                ==> (#[trigger] groups@[g])@.len() <= my@.len() + 1,
            forall|g: int| 0 <= g < groups@.len()
                ==> (#[trigger] group_ids@[g])@ == groups@[g]@.map_values(id_of()),
            i > 0 ==> groups@.len() >= 1,
            forall|i2: int| 0 <= i2 < i
                ==> group_ids_cover(group_ids@,
                    spec_ally_group(my@, (#[trigger] my@[i2])).map_values(id_of())),
    {
        let u = my[i];
        let mut group: Vec<Unit> = Vec::new();
        for j in 0..my.len()
            invariant
                cons.valid(),
                i < my@.len(),
                u == my@[i as int],
                my@.len() < 1_000_000,
                forall|k: int| 0 <= k < my@.len()
                    ==> (#[trigger] my@[k]).valid(cons.weapons.len() as int),
                forall|k: int| 0 <= k < my@.len() ==> (#[trigger] my@[k]).position.in_arena(),
                group@.len() <= j,
                group@ == my@.take(j as int).filter(group_mate_pred(u.id, u.position)),
                forall|k: int| 0 <= k < group@.len()
                    ==> (#[trigger] group@[k]).valid(cons.weapons.len() as int),
        {
            if my[j].id != u.id && my[j].remaining_spawn_time.is_none() {
                if my[j].position.distance(&u.position) < GROUP_RADIUS {
                    let v = my[j];
                    group.push(v);
                }
            }
            proof {
                crate::model::lemma_filter_take_step(my@,
                    group_mate_pred(u.id, u.position), j as int);
            }
        }
        proof {
            assert(my@.take(my@.len() as int) =~= my@);
        }
        group.push(u);
        proof {
            assert(group@ == spec_ally_group(my@, u));
        }
        let ids = ids_of(&group);
        let mut duplicate = false;
        for g in 0..group_ids.len()
            invariant
                groups@.len() == group_ids@.len(),
                duplicate ==> group_ids@.len() >= 1,
                duplicate ==> group_ids_cover(group_ids@, ids@),
        {
            if same_ids(&group_ids[g], &ids) {
                duplicate = true;
                proof {
                    assert(same_id_set(group_ids@[g as int]@, ids@));
                    assert(group_ids_cover(group_ids@, ids@));
                }
            }
        }
        let ghost pre_gids = group_ids@;
        if !duplicate {
            proof {
                assert(group@.map_values(id_of()) == ids@);
            }
            groups.push(group);
            group_ids.push(ids);
            proof {
                assert(group_ids@[pre_gids.len() as int] == ids);
                assert(same_id_set(ids@, ids@));
                assert(group_ids_cover(group_ids@, ids@));
            }
        }
        proof {
            assert(ids@ == spec_ally_group(my@, u).map_values(id_of()));
            assert forall|i2: int| 0 <= i2 < i + 1
                implies group_ids_cover(group_ids@,
                    spec_ally_group(my@, (#[trigger] my@[i2])).map_values(id_of())) by {
                if i2 < i {
                    let target_ids = spec_ally_group(my@, my@[i2]).map_values(id_of());
                    assert(group_ids_cover(pre_gids, target_ids));
                    let g0 = choose|g0: int| 0 <= g0 < pre_gids.len()
                        && same_id_set((#[trigger] pre_gids[g0])@, target_ids);
                    assert(group_ids@[g0] == pre_gids[g0]);
                } else {
                    assert(group_ids_cover(group_ids@, ids@));
                }
            }
        }
    }
    // enemy groups: one per opposing team with spawned known enemies
    let ghost n_groups = groups@.len();
    let mut player_ids: Vec<i64> = Vec::new();
    for i in 0..enemies_all.len()
        invariant
            groups@.len() == n_groups,
            forall|k: int| 0 <= k < player_ids@.len()
                ==> exists|j: int| 0 <= j < enemies_all@.len()
                    && (#[trigger] player_ids@[k]) == enemies_all@[j].player_id,
            forall|j: int| 0 <= j < i
                && (#[trigger] enemies_all@[j]).remaining_spawn_time is None
                ==> player_ids@.contains(enemies_all@[j].player_id),
    {
        if enemies_all[i].remaining_spawn_time.is_none() {
            if !crate::util::contains_id(&player_ids, enemies_all[i].player_id) {
                let pid = enemies_all[i].player_id;
                let ghost pre = player_ids@;
                player_ids.push(pid);
                proof {
                    assert(player_ids@[pre.len() as int] == pid);
                    assert forall|x: i64| pre.contains(x)
                        implies player_ids@.contains(x) by {
                        let j = choose|j: int| 0 <= j < pre.len() && pre[j] == x;
                        assert(player_ids@[j] == x);
                    }
                }
            }
        }
    }
    let mut enemy_groups: Vec<Vec<Unit>> = Vec::new();
    for p in 0..player_ids.len()
        invariant
            groups@.len() == n_groups,
            forall|k: int| 0 <= k < enemies_all@.len()
                ==> (#[trigger] enemies_all@[k]).valid(cons.weapons.len() as int),
            forall|g: int, j: int| 0 <= g < enemy_groups@.len()
                && 0 <= j < enemy_groups@[g].len()
                ==> (#[trigger] enemy_groups@[g][j]).valid(cons.weapons.len() as int),
            enemy_groups@.len() == p,
            forall|g: int| 0 <= g < p
                ==> (#[trigger] enemy_groups@[g])@ == enemies_all@.filter(
                    crate::behaviour::player_group_pred(player_ids@[g])),
    {
        let pid = player_ids[p];
        let mut group: Vec<Unit> = Vec::new();
        for j in 0..enemies_all.len()
            invariant
                pid == player_ids@[p as int],
                forall|k: int| 0 <= k < enemies_all@.len()
                    ==> (#[trigger] enemies_all@[k]).valid(cons.weapons.len() as int),
                forall|k: int| 0 <= k < group@.len()
                    ==> (#[trigger] group@[k]).valid(cons.weapons.len() as int),
                group@ == enemies_all@.take(j as int).filter(
                    crate::behaviour::player_group_pred(pid)),
        {
            if enemies_all[j].player_id == pid && enemies_all[j].remaining_spawn_time.is_none() {
                let v = enemies_all[j];
                group.push(v);
            }
            proof {
                crate::model::lemma_filter_take_step(enemies_all@,
                    crate::behaviour::player_group_pred(pid), j as int);
            }
        }
        proof {
            assert(enemies_all@.take(enemies_all@.len() as int) =~= enemies_all@);
        }
        enemy_groups.push(group);
    }
    // one projection per pairing
    let mut sims: Vec<FightSim> = Vec::new();
    for g in 0..groups.len()
        invariant
            cons.valid(),
            0 <= game.current_tick <= crate::model::TICK_MAX,
            groups@.len() == group_ids@.len(),
            forall|x: int, j: int| 0 <= x < groups@.len()
                && 0 <= j < groups@[x].len()
                ==> (#[trigger] groups@[x][j]).valid(cons.weapons.len() as int),
            forall|x: int| 0 <= x < groups@.len()
                ==> (#[trigger] groups@[x])@.len() <= 1_000_000,
            forall|x: int| 0 <= x < groups@.len()
                ==> (#[trigger] group_ids@[x])@ == groups@[x]@.map_values(id_of()),
            forall|x: int, j: int| 0 <= x < enemy_groups@.len()
                && 0 <= j < enemy_groups@[x].len()
                ==> (#[trigger] enemy_groups@[x][j]).valid(cons.weapons.len() as int),
            my@ == game.units@.filter(crate::model::team_pred(game.my_id, true)),
            my@.len() > 0 ==> groups@.len() >= 1,
            enemy_groups@.len() == player_ids@.len(),
            forall|j: int| 0 <= j < enemies_all@.len()
                && (#[trigger] enemies_all@[j]).remaining_spawn_time is None
                ==> player_ids@.contains(enemies_all@[j].player_id),
            forall|g2: int| 0 <= g2 < enemy_groups@.len()
                ==> (#[trigger] enemy_groups@[g2])@ == enemies_all@.filter(
                    crate::behaviour::player_group_pred(player_ids@[g2])),
            forall|k: int| 0 <= k < sims@.len()
                ==> (#[trigger] sims@[k]).consistent(*cons, game.current_tick)
                    && sims@[k].rosters_valid(cons.weapons.len() as int),
            g > 0 ==> forall|e2: int| #![trigger enemy_groups@[e2]]
                0 <= e2 < enemy_groups@.len()
                ==> covers_enemy_group(sims@, enemy_groups@[e2]@),
            forall|g2: int| #![trigger group_ids@[g2]] 0 <= g2 < g
                && enemy_groups@.len() > 0
                ==> covers_ally_ids(sims@, group_ids@[g2]@),
    {
        for e in 0..enemy_groups.len()
            invariant
                cons.valid(),
                0 <= game.current_tick <= crate::model::TICK_MAX,
                g < groups@.len(),
                groups@.len() == group_ids@.len(),
                forall|x: int, j: int| 0 <= x < groups@.len()
                    && 0 <= j < groups@[x].len()
                    ==> (#[trigger] groups@[x][j]).valid(cons.weapons.len() as int),
                forall|x: int| 0 <= x < groups@.len()
                    ==> (#[trigger] groups@[x])@.len() <= 1_000_000,
                forall|x: int| 0 <= x < groups@.len()
                    ==> (#[trigger] group_ids@[x])@ == groups@[x]@.map_values(id_of()),
                forall|x: int, j: int| 0 <= x < enemy_groups@.len()
                    && 0 <= j < enemy_groups@[x].len()
                    ==> (#[trigger] enemy_groups@[x][j]).valid(cons.weapons.len() as int),
            my@ == game.units@.filter(crate::model::team_pred(game.my_id, true)),
            my@.len() > 0 ==> groups@.len() >= 1,
            enemy_groups@.len() == player_ids@.len(),
            forall|j: int| 0 <= j < enemies_all@.len()
                && (#[trigger] enemies_all@[j]).remaining_spawn_time is None
                ==> player_ids@.contains(enemies_all@[j].player_id),
            forall|g2: int| 0 <= g2 < enemy_groups@.len()
                ==> (#[trigger] enemy_groups@[g2])@ == enemies_all@.filter(
                    crate::behaviour::player_group_pred(player_ids@[g2])),
                forall|k: int| 0 <= k < sims@.len()
                    ==> (#[trigger] sims@[k]).consistent(*cons, game.current_tick)
                        && sims@[k].rosters_valid(cons.weapons.len() as int),
                forall|e2: int| #![trigger enemy_groups@[e2]] 0 <= e2 < e
                    ==> covers_enemy_group(sims@, enemy_groups@[e2]@),
                g > 0 ==> forall|e2: int| #![trigger enemy_groups@[e2]]
                    0 <= e2 < enemy_groups@.len()
                    ==> covers_enemy_group(sims@, enemy_groups@[e2]@),
                forall|g2: int| #![trigger group_ids@[g2]] 0 <= g2 < g
                    && enemy_groups@.len() > 0
                    ==> covers_ally_ids(sims@, group_ids@[g2]@),
                e > 0 ==> covers_ally_ids(sims@, group_ids@[g as int]@),
        {
            let res = simulation(&groups[g], &enemy_groups[e], cons, game.current_tick);
            let eids = ids_of(&enemy_groups[e]);
            let ally_roster = groups[g].clone();
            let enemy_roster = enemy_groups[e].clone();
            let aids = ids_of(&ally_roster);
            let sim = FightSim {
                result: res,
                allies: aids,
                enemies: eids,
                ally_roster,
                enemy_roster,
            };
            let ghost pre_sims = sims@;
            let ghost pre_len = sims@.len();
            sims.push(sim);
            proof {
                assert(sims@[pre_len as int].enemy_roster@ =~= enemy_groups@[e as int]@);
                assert(forall|k: int| 0 <= k < pre_len
                    ==> #[trigger] sims@[k] == pre_sims[k]);
                assert(sims@[pre_len as int].allies@ =~= group_ids@[g as int]@) by {
                    assert(ally_roster@ =~= groups@[g as int]@);
                }
                assert(same_id_set(sims@[pre_len as int].allies@, group_ids@[g as int]@));
                assert(covers_ally_ids(sims@, group_ids@[g as int]@));
                assert forall|g2: int| #![trigger group_ids@[g2]] 0 <= g2 < g
                    && enemy_groups@.len() > 0
                    implies covers_ally_ids(sims@, group_ids@[g2]@) by {
                    assert(covers_ally_ids(pre_sims, group_ids@[g2]@));
                    let k0 = choose|k0: int| 0 <= k0 < pre_sims.len()
                        && same_id_set((#[trigger] pre_sims[k0]).allies@, group_ids@[g2]@);
                    assert(sims@[k0] == pre_sims[k0]);
                    assert(same_id_set(sims@[k0].allies@, group_ids@[g2]@));
                }
                assert forall|e2: int| #![trigger enemy_groups@[e2]] 0 <= e2 < e + 1
                    implies covers_enemy_group(sims@, enemy_groups@[e2]@) by {
                    if e2 < e {
                        assert(covers_enemy_group(pre_sims, enemy_groups@[e2]@));
                        let k0 = choose|k0: int| 0 <= k0 < pre_sims.len()
                            && (#[trigger] pre_sims[k0]).enemy_roster@
                                == enemy_groups@[e2]@;
                        assert(sims@[k0].enemy_roster@ == enemy_groups@[e2]@);
                    } else {
                        assert(sims@[pre_len as int].enemy_roster@ == enemy_groups@[e2]@);
                    }
                }
                if g > 0 {
                    assert forall|e2: int| #![trigger enemy_groups@[e2]]
                        0 <= e2 < enemy_groups@.len()
                        implies covers_enemy_group(sims@, enemy_groups@[e2]@) by {
                        assert(covers_enemy_group(pre_sims, enemy_groups@[e2]@));
                        let k0 = choose|k0: int| 0 <= k0 < pre_sims.len()
                            && (#[trigger] pre_sims[k0]).enemy_roster@
                                == enemy_groups@[e2]@;
                        assert(sims@[k0].enemy_roster@ == enemy_groups@[e2]@);
                    }
                }
            }
        }
    }
    proof {
        let my_seq = game.units@.filter(crate::model::team_pred(game.my_id, true));
        if exists|i: int| 0 <= i < enemies_all.len()
            && (#[trigger] enemies_all[i]).remaining_spawn_time is None {
            let i0 = choose|i0: int| 0 <= i0 < enemies_all.len()
                && (#[trigger] enemies_all[i0]).remaining_spawn_time is None;
            assert(player_ids@.contains(enemies_all@[i0].player_id));
            assert(player_ids@.len() >= 1);
            assert(enemy_groups@.len() >= 1);
            assert forall|i: int| #![trigger my_seq[i]] 0 <= i < my_seq.len()
                implies covers_ally_ids(sims@,
                    spec_ally_group(my_seq, my_seq[i]).map_values(id_of())) by {
                assert(my@ == my_seq);
                let target_ids = spec_ally_group(my@, my@[i]).map_values(id_of());
                assert(group_ids_cover(group_ids@, target_ids));
                let g0 = choose|g0: int| 0 <= g0 < group_ids@.len()
                    && same_id_set((#[trigger] group_ids@[g0])@, target_ids);
                assert(covers_ally_ids(sims@, group_ids@[g0]@));
                let k0 = choose|k0: int| 0 <= k0 < sims@.len()
                    && same_id_set((#[trigger] sims@[k0]).allies@, group_ids@[g0]@);
                assert(same_id_set(sims@[k0].allies@, target_ids));
            }
        }
        if my_seq.len() > 0 {
            assert(groups@.len() >= 1);
            assert forall|i: int| 0 <= i < enemies_all.len()
                && (#[trigger] enemies_all[i]).remaining_spawn_time is None
                implies covers_enemy_group(sims@, enemies_all@.filter(
                    crate::behaviour::player_group_pred(enemies_all[i].player_id))) by {
                assert(player_ids@.contains(enemies_all@[i].player_id));
                let p0 = choose|p0: int| 0 <= p0 < player_ids@.len()
                    && player_ids@[p0] == enemies_all@[i].player_id;
                assert(enemy_groups@[p0]@ == enemies_all@.filter(
                    crate::behaviour::player_group_pred(enemies_all@[i].player_id)));
            }
        }
    }
    sims
}

/// An element of a filtered sequence is an element of the unfiltered one.
pub proof fn lemma_filter_elem_of<T>(s: Seq<T>, pred: spec_fn(T) -> bool, i: int)
    requires
        0 <= i < s.filter(pred).len(),
    ensures
        exists|j: int| 0 <= j < s.len() && s[j] == s.filter(pred)[i],
    decreases s.len(),
{
    reveal(Seq::filter);
    if s.len() > 0 {
        if i < s.drop_last().filter(pred).len() {
            lemma_filter_elem_of(s.drop_last(), pred, i);
            let j = choose|j: int| 0 <= j < s.drop_last().len()
                && s.drop_last()[j] == s.drop_last().filter(pred)[i];
            assert(s[j] == s.filter(pred)[i]);
        } else {
            assert(s[s.len() - 1] == s.filter(pred)[i]);
        }
    }
}


/// A fighter's own firing update within a round: what `spec_fire_one`
/// does to the fighter itself, independent of the opposing roster.
pub open spec fn fire_upd(f: Fighter, rate: int) -> Fighter {
    if f.ammo == 0 {
        f
    } else {
        let ft = f.fire_tick + rate;
        if ft >= f.weapon.fire_rate_ticks {
            Fighter {
                fire_tick: (ft - f.weapon.fire_rate_ticks) as i64,
                ammo: (f.ammo - 1) as i64,
                ..f
            }
        } else {
            Fighter { fire_tick: ft as i64, ..f }
        }
    }
}

/// The firing updates of a whole roster.
pub open spec fn fire_map(cur: Seq<Fighter>, rate: int) -> Seq<Fighter> {
    Seq::new(cur.len(), |i: int| fire_upd(cur[i], rate))
}

/// A volley changes the firing side exactly by its firing updates,
/// whatever the opposing roster is.
pub proof fn lemma_volley_fst(cur: Seq<Fighter>, other: Seq<Fighter>, rate: int,
    cons: Constants)
    ensures
        spec_volley(cur, other, rate, cons).0 == fire_map(cur, rate),
    decreases cur.len(),
{
    if cur.len() == 0 {
        assert(spec_volley(cur, other, rate, cons).0 =~= fire_map(cur, rate));
    } else {
        let fo = spec_fire_one(cur[0], other, rate, cons);
        lemma_volley_fst(cur.drop_first(), fo.1, rate, cons);
        assert(fo.0 == fire_upd(cur[0], rate));
        assert(spec_volley(cur, other, rate, cons).0
            =~= fire_map(cur, rate)) by {
            assert(forall|i: int| 0 <= i < cur.drop_first().len()
                ==> #[trigger] cur.drop_first()[i] == cur[i + 1]);
        }
    }
}

/// Two fighters that differ at most in health: same arms, aim, place.
pub open spec fn arms_eq(f: Fighter, g: Fighter) -> bool {
    &&& f.weapon == g.weapon
    &&& f.ammo == g.ammo
    &&& f.aim == g.aim
    &&& f.fire_tick == g.fire_tick
    &&& f.position == g.position
}

pub open spec fn arms_eq_seq(a: Seq<Fighter>, b: Seq<Fighter>) -> bool {
    a.len() == b.len() && forall|i: int| 0 <= i < a.len()
        ==> arms_eq(#[trigger] a[i], b[i])
}

/// A hit changes only the health of one member of the opposing roster.
pub proof fn lemma_hit_first_arms(shooter: Fighter, other: Seq<Fighter>, cons: Constants)
    ensures
        arms_eq_seq(spec_hit_first(shooter, other, cons), other),
    decreases other.len(),
{
    if other.len() > 0 {
        if other[0].health > 0 {
            let h = spec_hit_first(shooter, other, cons);
            assert(forall|i: int| 1 <= i < h.len() ==> #[trigger] h[i] == other[i]);
        } else {
            lemma_hit_first_arms(shooter, other.drop_first(), cons);
            let h = spec_hit_first(shooter, other, cons);
            let hrest = spec_hit_first(shooter, other.drop_first(), cons);
            assert(forall|i: int| 1 <= i < h.len() ==> #[trigger] h[i] == hrest[i - 1]);
            assert(forall|i: int| 0 <= i < other.drop_first().len()
                ==> #[trigger] other.drop_first()[i] == other[i + 1]);
        }
    }
}

/// A volley changes only healths on the receiving side.
pub proof fn lemma_volley_snd_arms(cur: Seq<Fighter>, other: Seq<Fighter>, rate: int,
    cons: Constants)
    ensures
        arms_eq_seq(spec_volley(cur, other, rate, cons).1, other),
    decreases cur.len(),
{
    if cur.len() > 0 {
        let fo = spec_fire_one(cur[0], other, rate, cons);
        lemma_hit_first_arms(cur[0], other, cons);
        assert(arms_eq_seq(fo.1, other));
        lemma_volley_snd_arms(cur.drop_first(), fo.1, rate, cons);
    }
}

/// What a volley does to the receiving side depends on the shooters
/// only through their arms, never their healths.
pub proof fn lemma_volley_shooters_arms(cur1: Seq<Fighter>, cur2: Seq<Fighter>,
    other: Seq<Fighter>, rate: int, cons: Constants)
    requires
        arms_eq_seq(cur1, cur2),
    ensures
        spec_volley(cur1, other, rate, cons).1 == spec_volley(cur2, other, rate, cons).1,
    decreases cur1.len(),
{
    if cur1.len() > 0 {
        let fo1 = spec_fire_one(cur1[0], other, rate, cons);
        let fo2 = spec_fire_one(cur2[0], other, rate, cons);
        assert(fo1.1 =~= fo2.1) by {
            if cur1[0].ammo != 0
                && cur1[0].fire_tick + rate >= cur1[0].weapon.fire_rate_ticks {
                lemma_hit_same_dmg(cur1[0], cur2[0], other, cons);
            }
        }
        assert(arms_eq_seq(cur1.drop_first(), cur2.drop_first())) by {
            assert(forall|i: int| 0 <= i < cur1.drop_first().len()
                ==> #[trigger] cur1.drop_first()[i] == cur1[i + 1]
                    && cur2.drop_first()[i] == cur2[i + 1]);
        }
        lemma_volley_shooters_arms(cur1.drop_first(), cur2.drop_first(), fo1.1, rate, cons);
    }
}

/// Two shooters of equal arms deal the same hit.
pub proof fn lemma_hit_same_dmg(s1: Fighter, s2: Fighter, other: Seq<Fighter>,
    cons: Constants)
    requires
        arms_eq(s1, s2),
    ensures
        spec_hit_first(s1, other, cons) == spec_hit_first(s2, other, cons),
    decreases other.len(),
{
    if other.len() > 0 {
        if other[0].health > 0 {
            assert(spec_dmg(s1, other[0], cons) == spec_dmg(s2, other[0], cons));
        } else {
            lemma_hit_same_dmg(s1, s2, other.drop_first(), cons);
        }
    }
}

/// The commutation at the heart of round symmetry: volleying into an
/// already fire-updated roster lands exactly where fire-updating the
/// volleyed roster would, because firing updates touch no healths and
/// hits touch nothing else.
pub proof fn lemma_volley_commutes(shooters: Seq<Fighter>, targets: Seq<Fighter>, rate: int,
    cons: Constants)
    ensures
        spec_volley(shooters, fire_map(targets, rate), rate, cons).1
            == fire_map(spec_volley(shooters, targets, rate, cons).1, rate),
    decreases shooters.len(),
{
    if shooters.len() == 0 {
        assert(spec_volley(shooters, fire_map(targets, rate), rate, cons).1
            == fire_map(targets, rate));
    } else {
        let s0 = shooters[0];
        let foa = spec_fire_one(s0, fire_map(targets, rate), rate, cons);
        let fob = spec_fire_one(s0, targets, rate, cons);
        assert(foa.1 == fire_map(fob.1, rate)) by {
            if s0.ammo != 0 && s0.fire_tick + rate >= s0.weapon.fire_rate_ticks {
                lemma_hit_commutes(s0, targets, rate, cons);
            }
        }
        lemma_volley_commutes(shooters.drop_first(), fob.1, rate, cons);
    }
}

/// One hit commutes with the firing updates of the receiving roster.
pub proof fn lemma_hit_commutes(shooter: Fighter, targets: Seq<Fighter>, rate: int,
    cons: Constants)
    ensures
        spec_hit_first(shooter, fire_map(targets, rate), cons)
            == fire_map(spec_hit_first(shooter, targets, cons), rate),
    decreases targets.len(),
{
    let ft = fire_map(targets, rate);
    if targets.len() == 0 {
        assert(ft =~= targets);
        assert(fire_map(spec_hit_first(shooter, targets, cons), rate) =~= targets);
    } else if targets[0].health > 0 {
        assert(ft[0] == fire_upd(targets[0], rate));
        assert(ft[0].health == targets[0].health);
        assert(ft[0].position == targets[0].position);
        let d = spec_dmg(shooter, targets[0], cons);
        assert(spec_dmg(shooter, ft[0], cons) == d);
        let lhs = spec_hit_first(shooter, ft, cons);
        let rhs = fire_map(spec_hit_first(shooter, targets, cons), rate);
        assert(lhs =~= rhs) by {
            assert(lhs[0] == (Fighter { health: (ft[0].health - d) as i64, ..ft[0] }));
            assert(rhs[0] == fire_upd(Fighter { health: (targets[0].health - d) as i64,
                ..targets[0] }, rate));
            assert(lhs[0] == rhs[0]);
            assert(forall|i: int| 1 <= i < lhs.len()
                ==> #[trigger] lhs[i] == ft[i] && ft[i] == fire_upd(targets[i], rate));
            assert(forall|i: int| 1 <= i < rhs.len()
                ==> #[trigger] rhs[i] == fire_upd(spec_hit_first(shooter, targets,
                    cons)[i], rate)
                    && spec_hit_first(shooter, targets, cons)[i] == targets[i]);
        }
    } else {
        lemma_hit_commutes(shooter, targets.drop_first(), rate, cons);
        let lhs = spec_hit_first(shooter, ft, cons);
        let rhs = fire_map(spec_hit_first(shooter, targets, cons), rate);
        assert(ft[0] == fire_upd(targets[0], rate));
        assert(ft[0].health == targets[0].health);
        assert(ft.drop_first() =~= fire_map(targets.drop_first(), rate)) by {
            assert(forall|i: int| 0 <= i < ft.drop_first().len()
                ==> #[trigger] ft.drop_first()[i] == ft[i + 1]
                    && ft[i + 1] == fire_upd(targets[i + 1], rate)
                    && targets.drop_first()[i] == targets[i + 1]);
        }
        assert(lhs =~= rhs) by {
            assert(lhs == seq![ft[0]] + spec_hit_first(shooter, ft.drop_first(), cons));
            assert(spec_hit_first(shooter, targets, cons)
                == seq![targets[0]] + spec_hit_first(shooter, targets.drop_first(), cons));
            assert(forall|i: int| 1 <= i < rhs.len()
                ==> #[trigger] rhs[i] == fire_upd((seq![targets[0]]
                    + spec_hit_first(shooter, targets.drop_first(), cons))[i], rate));
        }
    }
}


/// Swapping the two rosters mirrors the projection: one side's loss is
/// the other side's win, and draws are shared. (The casualty count of a
/// win is the one thing that depends on which side is asked.)
pub proof fn lemma_fight_swap(a: Seq<Fighter>, e: Seq<Fighter>, na: int, ne: int,
    cons: Constants, fuel: nat)
    ensures
        (spec_fight(a, e, na, cons, fuel) is LOST) <==> (match spec_fight(e, a, ne, cons,
            fuel) {
            FightSimResult::WON(_) => true,
            _ => false,
        }),
        (spec_fight(a, e, na, cons, fuel) is DRAW) <==> (spec_fight(e, a, ne, cons,
            fuel) is DRAW),
    decreases fuel,
{
    if e.len() == 0 || a.len() == 0 || fuel == 0 {
        // the entry and exhaustion cases mirror each other directly
    } else {
        let ra = spec_min_rate(a);
        let re = spec_min_rate(e);
        let rate = if ra <= re { ra } else { re };
        assert((if re <= ra { re } else { ra }) == rate);
        let v1 = spec_volley(a, e, rate, cons);
        let v2 = spec_volley(v1.1, v1.0, rate, cons);
        let w1 = spec_volley(e, a, rate, cons);
        let w2 = spec_volley(w1.1, w1.0, rate, cons);
        lemma_volley_fst(a, e, rate, cons);
        lemma_volley_fst(e, a, rate, cons);
        lemma_volley_snd_arms(a, e, rate, cons);
        lemma_volley_snd_arms(e, a, rate, cons);
        lemma_volley_shooters_arms(v1.1, e, v1.0, rate, cons);
        lemma_volley_commutes(e, a, rate, cons);
        lemma_volley_fst(v1.1, v1.0, rate, cons);
        lemma_volley_shooters_arms(w1.1, a, w1.0, rate, cons);
        lemma_volley_commutes(a, e, rate, cons);
        lemma_volley_fst(w1.1, w1.0, rate, cons);
        assert(v2.1 == w2.0);
        assert(v2.0 == w2.1);
        lemma_fight_swap(v2.1.filter(alive_pred()), v2.0.filter(alive_pred()), na, ne,
            cons, (fuel - 1) as nat);
    }
}

/// The Combat Simulator is consistent under swapping the groups: when
/// at least one group fields an eligible fighter, one side's loss is
/// exactly the other side's win, and a draw is a draw for both. (With
/// no eligible fighter on either side both directions forfeit, so both
/// come out `LOST`; that one input is excluded.)
pub proof fn lemma_simulation_swap(u1: Seq<Unit>, u2: Seq<Unit>, cons: Constants,
    current_tick: i64)
    requires
        spec_fighters_of(u1, cons, current_tick).len() > 0
            || spec_fighters_of(u2, cons, current_tick).len() > 0,
    ensures
        (spec_simulation(u1, u2, cons, current_tick) is LOST) <==> (match spec_simulation(
            u2, u1, cons, current_tick) {
            FightSimResult::WON(_) => true,
            _ => false,
        }),
        (spec_simulation(u1, u2, cons, current_tick) is DRAW) <==> (spec_simulation(u2, u1,
            cons, current_tick) is DRAW),
{
    let a = spec_fighters_of(u1, cons, current_tick);
    let e = spec_fighters_of(u2, cons, current_tick);
    if a.len() > 0 && e.len() > 0 {
        lemma_fight_swap(a, e, u1.len() as int, u2.len() as int, cons,
            SIM_ROUND_LIMIT as nat);
        assert(spec_fight(a, e, u1.len() as int, cons, SIM_ROUND_LIMIT as nat)
            == spec_simulation(u1, u2, cons, current_tick));
        assert(spec_fight(e, a, u2.len() as int, cons, SIM_ROUND_LIMIT as nat)
            == spec_simulation(u2, u1, cons, current_tick));
    }
}

} // verus!

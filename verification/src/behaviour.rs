//! Behaviour State Machine: four mutually exclusive policies evaluated
//! in fixed priority order (Ghosting, Fighting, RunAndHeal, MoveOrLoot).
//! Each tick the first applicable policy fully determines one unit's
//! order; nothing is remembered across ticks beyond World Memory.

use vstd::prelude::*;

use crate::geom::{spec_distance, Vec2, DIST_MAX};
use crate::model::{clear_pred, Constants, Game, Loot, Obstacle, Projectile, Unit, UnitOrder, Zone};
use crate::scoring::{spec_collision_score, spec_magnet_score, spec_zone_penalty};
use crate::util::{spec_bullet_trace_score, spec_does_intersect};
use crate::world::World;

verus! {

/// Fellow team members close enough to fight alongside the unit.
pub open spec fn team_near_pred(my_id: i64, id: i64, pos: Vec2) -> spec_fn(Unit) -> bool {
    |u: Unit| u.player_id == my_id && u.id != id && spec_distance(u.position, pos) < 10_000
}

/// The unit's nearby fighting team: other visible team units within ten
/// units of it.
pub fn find_my_team(unit: &Unit, game: &Game) -> (r: Vec<Unit>)
    requires
        unit.position.in_arena(),
        forall|i: int| 0 <= i < game.units.len()
            ==> (#[trigger] game.units[i]).position.in_arena(),
    ensures
        r@ == game.units@.filter(team_near_pred(game.my_id, unit.id, unit.position)),
{
    let mut r: Vec<Unit> = Vec::new();
    let my_id = game.my_id;
    let id = unit.id;
    let pos = unit.position;
    for i in 0..game.units.len()
        invariant
            my_id == game.my_id,
            id == unit.id,
            pos == unit.position,
            pos.in_arena(),
            forall|j: int| 0 <= j < game.units.len()
                ==> (#[trigger] game.units[j]).position.in_arena(),
            r@ == game.units@.take(i as int).filter(team_near_pred(my_id, id, pos)),
    {
        if game.units[i].player_id == my_id && game.units[i].id != id {
            if game.units[i].position.distance(&pos) < 10_000 {
                let u = game.units[i];
                r.push(u);
            }
        }
        proof {
            crate::model::lemma_filter_take_step(game.units@, team_near_pred(my_id, id, pos),
                i as int);
        }
    }
    proof {
        assert(game.units@.take(game.units@.len() as int) =~= game.units@);
    }
    r
}

/// Spawned units of one opposing team.
pub open spec fn player_group_pred(pid: i64) -> spec_fn(Unit) -> bool {
    |u: Unit| u.player_id == pid && u.remaining_spawn_time is None
}

/// Whether `g` is the spawned roster of one opposing team.
pub open spec fn is_player_group(enemies: Seq<Unit>, g: Seq<Unit>) -> bool {
    exists|pid: i64| g == enemies.filter(#[trigger] player_group_pred(pid))
}

/// The known spawned enemies, grouped per opposing team (teams in
/// first-appearance order).
pub fn find_enemy_groups(enemies: &Vec<Unit>) -> (r: Vec<Vec<Unit>>)
    ensures
        forall|g: int| 0 <= g < r.len() ==> is_player_group(enemies@, (#[trigger] r[g])@),
        forall|i: int| 0 <= i < enemies.len()
            && (#[trigger] enemies[i]).remaining_spawn_time is None
            ==> exists|g: int| 0 <= g < r.len()
                && (#[trigger] r[g])@ == enemies@.filter(
                    player_group_pred(enemies[i].player_id)),
{
    let mut pids: Vec<i64> = Vec::new();
    for i in 0..enemies.len()
        invariant
            forall|j: int| 0 <= j < i
                && (#[trigger] enemies@[j]).remaining_spawn_time is None
                ==> pids@.contains(enemies@[j].player_id),
    {
        if enemies[i].remaining_spawn_time.is_none() {
            if !crate::util::contains_id(&pids, enemies[i].player_id) {
                let pid = enemies[i].player_id;
                let ghost old_pids = pids@;
                pids.push(pid);
                proof {
                    assert(pids@[pids@.len() - 1] == pid);
                    assert forall|x: i64| old_pids.contains(x)
                        implies pids@.contains(x) by {
                        let j = choose|j: int| 0 <= j < old_pids.len() && old_pids[j] == x;
                        assert(pids@[j] == x);
                    }
                }
            }
        }
    }
    let mut r: Vec<Vec<Unit>> = Vec::new();
    for p in 0..pids.len()
        invariant
            forall|j: int| 0 <= j < enemies.len()
                && (#[trigger] enemies@[j]).remaining_spawn_time is None
                ==> pids@.contains(enemies@[j].player_id),
            r@.len() == p,
            forall|g: int| 0 <= g < p
                ==> (#[trigger] r[g])@ == enemies@.filter(player_group_pred(pids@[g])),
    {
        let pid = pids[p];
        let mut group: Vec<Unit> = Vec::new();
        for j in 0..enemies.len()
            invariant
                pid == pids@[p as int],
                group@ == enemies@.take(j as int).filter(player_group_pred(pid)),
        {
            if enemies[j].player_id == pid && enemies[j].remaining_spawn_time.is_none() {
                let u = enemies[j];
                group.push(u);
            }
            proof {
                crate::model::lemma_filter_take_step(enemies@, player_group_pred(pid),
                    j as int);
            }
        }
        proof {
            assert(enemies@.take(enemies@.len() as int) =~= enemies@);
        }
        r.push(group);
    }
    proof {
        assert forall|i: int| 0 <= i < enemies.len()
            && (#[trigger] enemies[i]).remaining_spawn_time is None
            implies exists|g: int| 0 <= g < r.len()
                && (#[trigger] r[g])@ == enemies@.filter(
                    player_group_pred(enemies[i].player_id)) by {
            assert(pids@.contains(enemies@[i].player_id));
            let g = choose|g: int| 0 <= g < pids@.len()
                && pids@[g] == enemies@[i].player_id;
            assert(r[g]@ == enemies@.filter(player_group_pred(enemies@[i].player_id)));
        }
        assert forall|g: int| 0 <= g < r.len()
            implies is_player_group(enemies@, (#[trigger] r[g])@) by {
            assert(r[g]@ == enemies@.filter(player_group_pred(pids@[g])));
        }
    }
    r
}

/// The micro-movement score of a candidate point: projected-bullet
/// danger, ally-collision penalty, distance to the goal, and (for the
/// pre-spawn policy) the zone penalty — each term only where the
/// calling behaviour uses it.
pub open spec fn spec_move_score(traces: Seq<Projectile>, game: Game, cons: Constants,
    u: Unit, zone: Zone, goal: Vec2, use_bullet: bool, use_collision: bool, use_zone: bool,
    p: Vec2) -> int {
    (if use_bullet { spec_bullet_trace_score(traces, Set::empty(), p, cons) } else { 0 })
        + (if use_collision { spec_collision_score(game, u, p) } else { 0 })
        + (if use_zone { spec_zone_penalty(zone, p) } else { 0 })
        + spec_distance(p, goal)
}

/// Pick the candidate of least movement score; the earliest on ties.
pub fn choose_move(cands: &Vec<Vec2>, traces: &Vec<Projectile>, unit: &Unit, game: &Game,
    zone: &Zone, goal: Vec2, use_bullet: bool, use_collision: bool, use_zone: bool,
    cons: &Constants) -> (r: Option<Vec2>)
    requires
        cons.valid(),
        zone.valid(),
        goal.valid(),
        unit.position.in_arena(),
        forall|i: int| 0 <= i < cands.len() ==> (#[trigger] cands[i]).valid(),
        forall|i: int| 0 <= i < traces.len() ==> (#[trigger] traces[i]).position.valid(),
        forall|i: int| 0 <= i < traces.len()
            ==> (#[trigger] traces[i]).weapon_type_index < cons.weapons.len(),
        forall|i: int| 0 <= i < game.units.len()
            ==> (#[trigger] game.units[i]).position.in_arena(),
    ensures
        (match r {
            Option::None => cands@.len() == 0,
            Option::Some(p) => {
                &&& exists|i: int| 0 <= i < cands@.len() && cands@[i] == p
                    && (forall|j: int| 0 <= j < i
                        ==> spec_move_score(traces@, *game, *cons, *unit, *zone, goal,
                            use_bullet, use_collision, use_zone, #[trigger] cands@[j])
                            > spec_move_score(traces@, *game, *cons, *unit, *zone, goal,
                                use_bullet, use_collision, use_zone, p))
                &&& forall|j: int| 0 <= j < cands@.len()
                    ==> spec_move_score(traces@, *game, *cons, *unit, *zone, goal,
                        use_bullet, use_collision, use_zone, #[trigger] cands@[j])
                        >= spec_move_score(traces@, *game, *cons, *unit, *zone, goal,
                            use_bullet, use_collision, use_zone, p)
            },
        }),
{
    if cands.len() == 0 {
        return Option::None;
    }
    let mut best: Vec2 = cands[0];
    let mut best_score: i128 = move_score(&cands[0], traces, unit, game, zone, goal,
        use_bullet, use_collision, use_zone, cons);
    let ghost mut best_i: int = 0;
    let mut i: usize = 1;
    while i < cands.len()
        invariant
            cons.valid(),
            zone.valid(),
            goal.valid(),
            unit.position.in_arena(),
            forall|k: int| 0 <= k < cands.len() ==> (#[trigger] cands[k]).valid(),
            forall|k: int| 0 <= k < traces.len() ==> (#[trigger] traces[k]).position.valid(),
            forall|k: int| 0 <= k < traces.len()
                ==> (#[trigger] traces[k]).weapon_type_index < cons.weapons.len(),
            forall|k: int| 0 <= k < game.units.len()
                ==> (#[trigger] game.units[k]).position.in_arena(),
            1 <= i <= cands@.len(),
            0 <= best_i < i as int,
            best == cands@[best_i],
            best_score == spec_move_score(traces@, *game, *cons, *unit, *zone, goal,
                use_bullet, use_collision, use_zone, best),
            forall|j: int| 0 <= j < best_i
                ==> spec_move_score(traces@, *game, *cons, *unit, *zone, goal,
                    use_bullet, use_collision, use_zone, #[trigger] cands@[j]) > best_score,
            forall|j: int| 0 <= j < i as int
                ==> spec_move_score(traces@, *game, *cons, *unit, *zone, goal,
                    use_bullet, use_collision, use_zone, #[trigger] cands@[j]) >= best_score,
        decreases cands@.len() - i,
    {
        let s = move_score(&cands[i], traces, unit, game, zone, goal, use_bullet,
            use_collision, use_zone, cons);
        if s < best_score {
            best = cands[i];
            best_score = s;
            proof {
                best_i = i as int;
            }
        }
        i = i + 1;
    }
    Option::Some(best)
}

/// Executable twin of `spec_move_score`.
fn move_score(p: &Vec2, traces: &Vec<Projectile>, unit: &Unit, game: &Game, zone: &Zone,
    goal: Vec2, use_bullet: bool, use_collision: bool, use_zone: bool, cons: &Constants)
    -> (r: i128)
    requires
        cons.valid(),
        zone.valid(),
        goal.valid(),
        p.valid(),
        unit.position.in_arena(),
        forall|i: int| 0 <= i < traces.len() ==> (#[trigger] traces[i]).position.valid(),
        forall|i: int| 0 <= i < traces.len()
            ==> (#[trigger] traces[i]).weapon_type_index < cons.weapons.len(),
        forall|i: int| 0 <= i < game.units.len()
            ==> (#[trigger] game.units[i]).position.in_arena(),
    ensures
        r == spec_move_score(traces@, *game, *cons, *unit, *zone, goal, use_bullet,
            use_collision, use_zone, *p),
{
    let bullet: i128 = if use_bullet {
        crate::util::bullet_trace_score(traces, p, cons)
    } else {
        0
    };
    let tl = traces.len();
    proof {
        assert(traces@.len() * 10_000_000_000
            <= 18_446_744_073_709_551_615 * 10_000_000_000) by (nonlinear_arith)
            requires
                traces@.len() == tl as int,
                tl as int <= 18_446_744_073_709_551_615int,
        {
        }
    }
    let collision: i128 = if use_collision {
        crate::scoring::my_units_collision_score(p, unit, game) as i128
    } else {
        0
    };
    let zonep: i128 = if use_zone {
        crate::scoring::zone_penalty(p, zone) as i128
    } else {
        0
    };
    let d = p.distance(&goal);
    bullet + collision + zonep + (d as i128)
}


/// Enemies other than the chosen target.
pub open spec fn other_pred(tid: i64) -> spec_fn(Unit) -> bool {
    |e: Unit| e.id != tid
}

/// Enemies (other than the target) who would have the point inside
/// their firing reach, or whose line to it is blocked (both count
/// against the point).
pub open spec fn in_range_pred(tid: i64, p: Vec2, cons: Constants, obstacles: Seq<Obstacle>)
    -> spec_fn(Unit) -> bool {
    |e: Unit| e.id != tid
        && (spec_distance(e.position, p) - cons.unit_radius < e.spec_firing_distance(cons)
            || spec_does_intersect(e.position, p, obstacles))
}

/// A firing-spot candidate must keep a unit radius clear of every
/// cached obstacle and four radii clear of every fellow.
pub open spec fn spot_admissible(obstacles: Seq<Obstacle>, fellows: Seq<Unit>,
    cons: Constants, p: Vec2) -> bool {
    &&& clear_pred(obstacles, cons.unit_radius)(p)
    &&& !(exists|i: int| 0 <= i < fellows.len()
        && spec_distance((#[trigger] fellows[i]).position, p) < 4 * cons.unit_radius)
}

/// The firing-spot score: safer when fewer enemies reach it, pulled
/// toward allies, rewarded for cover, penalised near the zone edge, and
/// preferring half the own firing distance from the target.
pub open spec fn spec_spot_score(enemies: Seq<Unit>, fellows: Seq<Unit>, target: Unit,
    u: Unit, game: Game, cons: Constants, obstacles: Seq<Obstacle>, p: Vec2) -> int {
    let inr = enemies.filter(in_range_pred(target.id, p, cons, obstacles)).len() as int;
    let others = enemies.filter(other_pred(target.id)).len() as int;
    let has_obs = spec_does_intersect(u.position, p, obstacles)
        || crate::util::spec_intersects_units(u.position, p, fellows, cons);
    let fd2 = u.spec_firing_distance(cons) / 2;
    let dt = spec_distance(p, target.position);
    let dist_score = if dt >= fd2 { dt - fd2 } else { fd2 - dt };
    ((others - inr) - inr) * 2000 - spec_magnet_score(game, u, p)
        + (if has_obs { -5000int } else { 5000int })
        - spec_zone_penalty(game.zone, p) - dist_score
}

/// Executable twin of `spec_spot_score`.
fn spot_score(enemies: &Vec<Unit>, fellows: &Vec<Unit>, target: &Unit, u: &Unit, game: &Game,
    cons: &Constants, obstacles: &Vec<Obstacle>, p: &Vec2) -> (r: i128)
    requires
        cons.valid(),
        game.zone.valid(),
        p.valid(),
        u.valid(cons.weapons.len() as int),
        target.position.in_arena(),
        forall|i: int| 0 <= i < enemies.len()
            ==> (#[trigger] enemies[i]).valid(cons.weapons.len() as int),
        forall|i: int| 0 <= i < fellows.len()
            ==> (#[trigger] fellows[i]).position.in_arena(),
        forall|i: int| 0 <= i < obstacles.len() ==> (#[trigger] obstacles[i]).valid(),
        forall|i: int| 0 <= i < game.units.len()
            ==> (#[trigger] game.units[i]).position.in_arena(),
    ensures
        r == spec_spot_score(enemies@, fellows@, *target, *u, *game, *cons, obstacles@, *p),
{
    let mut inr: usize = 0;
    let mut others: usize = 0;
    let mut i: usize = 0;
    while i < enemies.len()
        invariant
            cons.valid(),
            p.valid(),
            forall|k: int| 0 <= k < enemies.len()
                ==> (#[trigger] enemies[k]).valid(cons.weapons.len() as int),
            forall|k: int| 0 <= k < obstacles.len() ==> (#[trigger] obstacles[k]).valid(),
            0 <= i <= enemies@.len(),
            inr == enemies@.take(i as int).filter(
                in_range_pred(target.id, *p, *cons, obstacles@)).len(),
            others == enemies@.take(i as int).filter(other_pred(target.id)).len(),
            inr <= i,
            others <= i,
        decreases enemies@.len() - i,
    {
        let e = enemies[i];
        if e.id != target.id {
            others = others + 1;
            let d = e.position.distance(p);
            let fd = e.firing_distance(cons);
            let close = d - cons.unit_radius < fd;
            let blocked = if close {
                true
            } else {
                crate::util::does_intersect_vec(&e.position, p, obstacles)
            };
            if blocked {
                inr = inr + 1;
            }
        }
        proof {
            crate::model::lemma_filter_take_step(enemies@,
                in_range_pred(target.id, *p, *cons, obstacles@), i as int);
            crate::model::lemma_filter_take_step(enemies@, other_pred(target.id), i as int);
        }
        i = i + 1;
    }
    proof {
        assert(enemies@.take(enemies@.len() as int) =~= enemies@);
    }
    let magnet = crate::scoring::my_units_magnet_score(p, u, game);
    let obs1 = crate::util::does_intersect_vec(&u.position, p, obstacles);
    let has_obs = if obs1 {
        true
    } else {
        crate::util::intersects_with_units_vec(&u.position, p, fellows, cons)
    };
    let zonep = crate::scoring::zone_penalty(p, &game.zone);
    let fd2 = u.firing_distance(cons) / 2;
    let dt = p.distance(&target.position);
    let dist_score = if dt >= fd2 { dt - fd2 } else { fd2 - dt };
    let base: i128 = ((others as i128) - (inr as i128) - (inr as i128)) * 2000;
    base - (magnet as i128) + (if has_obs { -5000i128 } else { 5000i128 })
        - (zonep as i128) - (dist_score as i128)
}

/// The best firing spot near the unit: of the admissible whole-unit
/// grid points around it, the one of highest score, the earliest on
/// ties. A point inside any obstacle grown by the unit radius is never
/// returned.
pub fn get_best_firing_spot(unit: &Unit, target: &Unit, obstacles: &Vec<Obstacle>,
    world: &World) -> (r: Option<Vec2>)
    requires
        world.wf(),
        unit.valid(world.constants.weapons.len() as int),
        target.position.in_arena(),
        forall|i: int| 0 <= i < obstacles.len() ==> (#[trigger] obstacles[i]).valid(),
        forall|i: int| 0 <= i < world.units.len()
            ==> (#[trigger] world.units[i]).valid(world.constants.weapons.len() as int),
    ensures
        ({
            let cands = crate::model::spec_grid(unit.position, 10).filter(
                crate::model::grid_near_pred(unit.position, 10_000));
            let fellows = world.game.units@.filter(
                crate::model::fellow_pred(world.game.my_id, unit.id));
            let cons = world.constants;
            match r {
                Option::None => forall|j: int| 0 <= j < cands.len()
                    ==> !spot_admissible(obstacles@, fellows, cons, #[trigger] cands[j]),
                Option::Some(p) => {
                    &&& p.valid()
                    &&& spot_admissible(obstacles@, fellows, cons, p)
                    &&& exists|i: int| 0 <= i < cands.len() && cands[i] == p
                        && (forall|j: int| 0 <= j < i
                            && spot_admissible(obstacles@, fellows, cons, #[trigger] cands[j])
                            ==> spec_spot_score(world.units@, fellows, *target, *unit,
                                world.game, cons, obstacles@, cands[j])
                                < spec_spot_score(world.units@, fellows, *target, *unit,
                                    world.game, cons, obstacles@, p))
                    &&& forall|j: int| 0 <= j < cands.len()
                        && spot_admissible(obstacles@, fellows, cons, #[trigger] cands[j])
                        ==> spec_spot_score(world.units@, fellows, *target, *unit,
                            world.game, cons, obstacles@, cands[j])
                            <= spec_spot_score(world.units@, fellows, *target, *unit,
                                world.game, cons, obstacles@, p)
                },
            }
        }),
{
    let cons = &world.constants;
    let cands = unit.points_in_radius(10);
    let fellows = unit.my_other_units(&world.game);
    proof {
        world.game.units@.lemma_filter_len(crate::model::fellow_pred(world.game.my_id,
            unit.id));
        assert forall|x: int| 0 <= x < fellows@.len()
            implies (#[trigger] fellows@[x]).position.in_arena() by {
            world.game.units@.lemma_filter_pred(crate::model::fellow_pred(world.game.my_id,
                unit.id), x);
            crate::fight_sim::lemma_filter_elem_of(world.game.units@,
                crate::model::fellow_pred(world.game.my_id, unit.id), x);
        }
    }
    let mut best: Option<Vec2> = Option::None;
    let mut best_score: i128 = 0;
    let ghost mut best_i: int = 0;
    let ghost gcands = crate::model::spec_grid(unit.position, 10).filter(
        crate::model::grid_near_pred(unit.position, 10_000));
    let mut i: usize = 0;
    while i < cands.len()
        invariant
            world.wf(),
            cons == &world.constants,
            unit.valid(cons.weapons.len() as int),
            target.position.in_arena(),
            forall|k: int| 0 <= k < obstacles.len() ==> (#[trigger] obstacles[k]).valid(),
            forall|k: int| 0 <= k < world.units.len()
                ==> (#[trigger] world.units[k]).valid(cons.weapons.len() as int),
            cands@ == gcands,
            fellows@ == world.game.units@.filter(
                crate::model::fellow_pred(world.game.my_id, unit.id)),
            forall|k: int| 0 <= k < cands.len() ==> (#[trigger] cands[k]).valid(),
            forall|x: int| 0 <= x < fellows@.len()
                ==> (#[trigger] fellows@[x]).position.in_arena(),
            0 <= i <= cands@.len(),
            (match best {
                Option::None => forall|j: int| 0 <= j < i as int
                    ==> !spot_admissible(obstacles@, fellows@, *cons, #[trigger] gcands[j]),
                Option::Some(p) => {
                    &&& p.valid()
                    &&& 0 <= best_i < i as int
                    &&& gcands[best_i] == p
                    &&& spot_admissible(obstacles@, fellows@, *cons, p)
                    &&& best_score == spec_spot_score(world.units@, fellows@, *target, *unit,
                        world.game, *cons, obstacles@, p)
                    &&& forall|j: int| 0 <= j < best_i
                        && spot_admissible(obstacles@, fellows@, *cons, #[trigger] gcands[j])
                        ==> spec_spot_score(world.units@, fellows@, *target, *unit,
                            world.game, *cons, obstacles@, gcands[j]) < best_score
                    &&& forall|j: int| 0 <= j < i as int
                        && spot_admissible(obstacles@, fellows@, *cons, #[trigger] gcands[j])
                        ==> spec_spot_score(world.units@, fellows@, *target, *unit,
                            world.game, *cons, obstacles@, gcands[j]) <= best_score
                },
            }),
        decreases cands@.len() - i,
    {
        let p = cands[i];
        let clear = crate::model::point_is_clear(&p, obstacles, cons.unit_radius);
        let admissible = if clear {
            let mut near_ally = false;
            let mut f: usize = 0;
            while f < fellows.len()
                invariant
                    p.valid(),
                    cons.valid(),
                    forall|x: int| 0 <= x < fellows@.len()
                        ==> (#[trigger] fellows@[x]).position.in_arena(),
                    0 <= f <= fellows@.len(),
                    near_ally == exists|x: int| 0 <= x < f
                        && spec_distance((#[trigger] fellows@[x]).position, p)
                            < 4 * cons.unit_radius,
                decreases fellows@.len() - f,
            {
                if fellows[f].position.distance(&p) < 4 * cons.unit_radius {
                    near_ally = true;
                }
                f = f + 1;
            }
            !near_ally
        } else {
            false
        };
        if admissible {
            let s = spot_score(&world.units, &fellows, target, unit, &world.game, cons,
                obstacles, &p);
            let better = match best {
                Option::None => true,
                Option::Some(_) => s > best_score,
            };
            if better {
                best = Option::Some(p);
                best_score = s;
                proof {
                    best_i = i as int;
                }
            }
        }
        i = i + 1;
    }
    best
}


/// Clamp a coordinate into the working range.
pub open spec fn spec_clamp_coord(v: int) -> i64 {
    if v > crate::geom::COORD_MAX {
        crate::geom::COORD_MAX
    } else if v < -crate::geom::COORD_MAX {
        (-crate::geom::COORD_MAX) as i64
    } else {
        v as i64
    }
}

fn clamp_coord(v: i64) -> (r: i64)
    ensures
        r == spec_clamp_coord(v as int),
        crate::geom::in_coord(r as int),
{
    if v > crate::geom::COORD_MAX {
        crate::geom::COORD_MAX
    } else if v < -crate::geom::COORD_MAX {
        -crate::geom::COORD_MAX
    } else {
        v
    }
}

/// The point to fire at: the target's position led by its velocity over
/// the projectile's travel time, clamped into the working range.
pub open spec fn spec_lead_point(unit: Unit, target: Unit, cons: Constants) -> Vec2 {
    let speed = match unit.weapon {
        Option::None => 0,
        Option::Some(w) => cons.weapons[w as int].projectile_speed,
    };
    let d = spec_distance(unit.position, target.position);
    let tt_raw = if speed > 0 { d / (speed as int) } else { 0 };
    let tt = if tt_raw > 1_000 { 1_000 } else { tt_raw };
    Vec2 {
        x: spec_clamp_coord(target.position.x + target.velocity.x * tt),
        y: spec_clamp_coord(target.position.y + target.velocity.y * tt),
    }
}

fn lead_point(unit: &Unit, target: &Unit, cons: &Constants) -> (r: Vec2)
    requires
        cons.valid(),
        unit.valid(cons.weapons.len() as int),
        target.position.in_arena(),
        target.velocity.in_arena(),
    ensures
        r == spec_lead_point(*unit, *target, *cons),
        r.valid(),
{
    let speed = match unit.weapon {
        Option::None => 0,
        Option::Some(w) => cons.weapons[w].projectile_speed,
    };
    let d = unit.position.distance(&target.position);
    let tt_raw = if speed > 0 { crate::geom::div_trunc(d, speed) } else { 0 };
    let tt = if tt_raw > 1_000 { 1_000 } else { tt_raw };
    proof {
        assert(-2_000_000_000 <= target.velocity.x * tt <= 2_000_000_000
            && -2_000_000_000 <= target.velocity.y * tt <= 2_000_000_000)
            by (nonlinear_arith)
            requires
                0 <= tt <= 1_000,
                -2_000_000 <= target.velocity.x <= 2_000_000,
                -2_000_000 <= target.velocity.y <= 2_000_000,
        {
        }
    }
    let lx = clamp_coord(target.position.x + target.velocity.x * tt);
    let ly = clamp_coord(target.position.y + target.velocity.y * tt);
    Vec2 { x: lx, y: ly }
}

/// Steering: full speed toward `to` from `from`.
pub open spec fn spec_steer(from: Vec2, to: Vec2) -> Vec2 {
    Vec2 { x: ((to.x - from.x) * 1000) as i64, y: ((to.y - from.y) * 1000) as i64 }
}

fn steer(from: Vec2, to: Vec2) -> (r: Vec2)
    requires
        from.valid(),
        to.valid(),
    ensures
        r == spec_steer(from, to),
{
    Vec2 { x: (to.x - from.x) * 1000, y: (to.y - from.y) * 1000 }
}

/// The facing that sweeps vision: a quarter turn from the current one.
pub open spec fn spec_scan_dir(u: Unit) -> Vec2 {
    Vec2 { x: (-u.direction.y) as i64, y: u.direction.x }
}

/// Pre-spawn holding policy: pick a spawn-window goal, steer toward the
/// best candidate point, and keep rotating to sweep vision.
pub struct Ghosting {}

/// The behaviour that takes and wins fights.
pub struct Fighting {}

/// Retreat-and-drink policy for losing or hurt units.
pub struct RunAndHeal {}

/// The default policy: collect loot or keep to the safe zone.
pub struct MoveOrLoot {}

/// The goal a unit without a better idea heads for: the position of a
/// loot item that passes the approach filter, or the fixed ring point
/// well inside the zone, slightly ahead of the unit's bearing from the
/// zone center.
pub open spec fn is_spawn_goal(w: World, u: Unit, g: Vec2) -> bool {
    ||| exists|l: Loot| #![auto] g == l.position
        && crate::loot::is_best_loot_of(w, u, false, l)
    ||| (crate::loot::no_loot_passes(w, u, false) && g == spec_zone_ring_point(w, u))
}

/// The zone-ring holding point: the unit's half-offset from the center,
/// turned by a small fixed angle, pushed out to 85% of the radius.
pub open spec fn spec_zone_ring_point(w: World, u: Unit) -> Vec2 {
    let center = w.game.zone.current_center;
    let from_center = Vec2 {
        x: crate::geom::tdiv(u.position.x - center.x, 2) as i64,
        y: crate::geom::tdiv(u.position.y - center.y, 2) as i64,
    };
    let rs = crate::geom::spec_rot_step(from_center, crate::geom::SMALL_COS,
        crate::geom::SMALL_SIN);
    let turned = Vec2 { x: rs.0 as i64, y: rs.1 as i64 };
    crate::geom::spec_rotate(center, turned,
        crate::geom::tdiv(w.game.zone.current_radius * 85, 100) as i64)
}

/// The spawn-window goal: the best approachable loot (booked at once),
/// or a point on a ring well inside the zone, ahead of the unit's
/// current bearing from the center.
fn loot_or_near_the_zone(unit: &Unit, world: &mut World) -> (r: Vec2)
    requires
        old(world).wf(),
        unit.valid(old(world).constants.weapons.len() as int),
    ensures
        final(world).wf(),
        r.valid(),
        *final(world) == (World { booked_loot: final(world).booked_loot, ..*old(world) }),
        is_spawn_goal(*old(world), *unit, r),
        !crate::loot::no_loot_passes(*old(world), *unit, false)
            ==> exists|l: Loot| #![auto]
                crate::loot::is_best_loot_of(*old(world), *unit, false, l)
                && final(world).booked_loot@.contains(l.id),
{
    let best = crate::loot::best_loot(unit, &world.loot, false, world);
    match best {
        Option::Some(l) => {
            proof {
                let ghost booked = world.booked_loot@;
                let ghost enemies = world.units@;
                let ghost zone = world.game.zone;
                let ghost consg = world.constants;
                let i = choose|i: int| 0 <= i < world.loot@.len() && world.loot@[i] == l
                    && (forall|j: int| 0 <= j < i
                        && crate::loot::spec_loot_passes(booked, enemies, zone, consg,
                            *unit, false, #[trigger] world.loot@[j])
                        ==> crate::loot::spec_loot_rank(world.game, consg, *unit,
                            world.loot@[j])
                            < crate::loot::spec_loot_rank(world.game, consg, *unit, l));
                assert(0 <= i < world.loot@.len() && world.loot@[i] == l);
                assert(crate::loot::is_best_loot_of(*world, *unit, false, l));
            }
            let ghost pre = world.booked_loot@;
            world.book_loot(l.id);
            proof {
                assert(is_spawn_goal(*old(world), *unit, l.position));
                assert(world.booked_loot@[pre.len() as int] == l.id);
                assert(world.booked_loot@.contains(l.id));
            }
            l.position
        },
        Option::None => {
            let center = world.game.zone.current_center;
            let from_center = Vec2 {
                x: crate::geom::div_trunc(unit.position.x - center.x, 2),
                y: crate::geom::div_trunc(unit.position.y - center.y, 2),
            };
            let turned = crate::geom::rot_step(from_center, crate::geom::SMALL_COS,
                crate::geom::SMALL_SIN);
            let ring = crate::geom::div_trunc(world.game.zone.current_radius * 85, 100);
            let p = crate::geom::rotate(center, turned, ring);
            proof {
                assert(p == spec_zone_ring_point(*world, *unit));
            }
            p
        },
    }
}

/// The pre-spawn goal: toward the team once the spawn window is over
/// and a spawned fellow exists, else the spawn-window goal.
pub open spec fn is_ghosting_goal(w: World, u: Unit, g: Vec2) -> bool {
    if w.game.current_tick >= w.constants.spawn_ticks {
        match crate::scoring::spec_closest_fellow(w.game, u) {
            Option::Some(o) => g == o.position,
            Option::None => is_spawn_goal(w, u, g),
        }
    } else {
        is_spawn_goal(w, u, g)
    }
}

impl Ghosting {
    /// Applicable while the unit has not spawned yet.
    pub fn should_use(&self, unit: &Unit) -> (r: bool)
        ensures
            r == (unit.remaining_spawn_time is Some),
    {
        unit.remaining_spawn_time.is_some()
    }

    /// Hold near loot or the zone ring (early) or near the team (late),
    /// dodging fellows and the zone edge; face sideways to sweep vision;
    /// no action while unspawned.
    pub fn order(&self, unit: &Unit, world: &mut World) -> (r: UnitOrder)
        requires
            old(world).wf(),
            unit.valid(old(world).constants.weapons.len() as int),
        ensures
            final(world).wf(),
            *final(world) == (World { booked_loot: final(world).booked_loot, ..*old(world) }),
            r.action is None,
            r.target_direction == spec_scan_dir(*unit),
            // when the spawn-window goal is taken and loot is available,
            // the approached loot is booked at once
            ((old(world).game.current_tick < old(world).constants.spawn_ticks
                || crate::scoring::spec_closest_fellow(old(world).game, *unit) is None)
                && !crate::loot::no_loot_passes(*old(world), *unit, false))
                ==> exists|l: Loot| #![auto]
                    crate::loot::is_best_loot_of(*old(world), *unit, false, l)
                    && final(world).booked_loot@.contains(l.id),
            exists|g: Vec2| #![auto] is_ghosting_goal(*old(world), *unit, g)
                && ({
                    let ring = unit.spec_move_ring(old(world).constants);
                    exists|i: int| 0 <= i < ring.len()
                        && r.target_velocity == spec_steer(unit.position, ring[i])
                        && forall|j: int| 0 <= j < ring.len()
                            ==> spec_move_score(Seq::empty(), old(world).game,
                                old(world).constants, *unit, old(world).game.zone, g,
                                false, true, true, #[trigger] ring[j])
                                >= spec_move_score(Seq::empty(), old(world).game,
                                    old(world).constants, *unit, old(world).game.zone, g,
                                    false, true, true, ring[i])
                }),
    {
        let goal = if world.game.current_tick < world.constants.spawn_ticks {
            loot_or_near_the_zone(unit, world)
        } else {
            match crate::scoring::closest_fellow(unit, &world.game) {
                Option::None => loot_or_near_the_zone(unit, world),
                Option::Some(u) => u.position,
            }
        };
        let obstacles = world.get_obstacles(unit.id);
        let cands = unit.points_around_unit(&world.constants, &obstacles, false);
        let empty_traces: Vec<Projectile> = Vec::new();
        let best = choose_move(&cands, &empty_traces, unit, &world.game, &world.game.zone,
            goal, false, true, true, &world.constants);
        let move_to = match best {
            Option::Some(p) => p,
            Option::None => unit.position,
        };
        proof {
            assert(empty_traces@ =~= Seq::<Projectile>::empty());
            assert(is_ghosting_goal(*old(world), *unit, goal));
        }
        UnitOrder {
            target_velocity: steer(unit.position, move_to),
            target_direction: Vec2 { x: -unit.direction.y, y: unit.direction.x },
            action: Option::None,
        }
    }
}

/// The group that fights beside the unit: its nearby fellows plus
/// itself.
pub open spec fn spec_team_of(w: World, u: Unit) -> Seq<Unit> {
    w.game.units@.filter(team_near_pred(w.game.my_id, u.id, u.position)).push(u)
}

/// Whether an enemy roster is worth engaging: nonempty, beatable by the
/// unit's team (a draw suffices only when the enemies are not in the
/// majority), with some member already inside the unit's firing
/// distance.
pub open spec fn winnable_group(w: World, u: Unit, grp: Seq<Unit>) -> bool {
    let team = spec_team_of(w, u);
    &&& grp.len() > 0
    &&& (match crate::fight_sim::spec_simulation(team, grp, w.constants,
        w.game.current_tick) {
        crate::fight_sim::FightSimResult::WON(_) => true,
        crate::fight_sim::FightSimResult::DRAW => w.units@.len() <= team.len(),
        crate::fight_sim::FightSimResult::LOST => false,
    })
    &&& exists|j: int| 0 <= j < grp.len()
        && spec_distance((#[trigger] grp[j]).position, u.position) - w.constants.unit_radius
            < u.spec_firing_distance(w.constants)
}

/// Whether an enemy roster is worth engaging once the fight is on: the
/// in-reach condition no longer gates it, and a draw suffices when the
/// roster is not larger than the team.
pub open spec fn order_winnable(w: World, u: Unit, grp: Seq<Unit>) -> bool {
    let team = spec_team_of(w, u);
    &&& grp.len() > 0
    &&& (match crate::fight_sim::spec_simulation(team, grp, w.constants,
        w.game.current_tick) {
        crate::fight_sim::FightSimResult::WON(_) => true,
        crate::fight_sim::FightSimResult::DRAW => grp.len() <= team.len(),
        crate::fight_sim::FightSimResult::LOST => false,
    })
}

/// Ticks the unit still has to wait before its next shot.
pub open spec fn spec_ticks_until(u: Unit, tick: i64) -> int {
    if u.next_shot_tick > tick {
        u.next_shot_tick - tick
    } else {
        0
    }
}

/// Ticks of aiming the unit still needs.
pub open spec fn spec_aim_left(u: Unit, cons: Constants) -> int {
    match u.weapon {
        Option::Some(w) => crate::geom::tdiv(
            cons.weapons[w as int].aim_ticks * (1000 - u.aim), 1000),
        Option::None => 0,
    }
}

/// Whether the fighting policy claims the unit: free, armed, and some
/// opposing team's spawned roster is winnable and in reach.
pub open spec fn spec_fighting_applicable(w: World, u: Unit) -> bool {
    &&& u.action is None
    &&& crate::fight_sim::spec_eligible(u)
    &&& exists|pid: i64| winnable_group(w, u,
        w.units@.filter(#[trigger] player_group_pred(pid)))
}

impl Fighting {
    /// Applicable when the unit is free and armed, some enemy group can
    /// be beaten by its nearby team, and such an enemy is already
    /// within the unit's own firing distance.
    pub fn should_use(&self, unit: &Unit, world: &World) -> (r: bool)
        requires
            world.wf(),
            unit.valid(world.constants.weapons.len() as int),
        ensures
            r == spec_fighting_applicable(*world, *unit),
    {
        if unit.action.is_some() {
            return false;
        }
        let armed = match unit.weapon {
            Option::None => false,
            Option::Some(w) => unit.ammo[w] != 0,
        };
        if !armed {
            return false;
        }
        let mut my_team = find_my_team(unit, &world.game);
        proof {
            world.game.units@.lemma_filter_len(team_near_pred(world.game.my_id, unit.id,
                unit.position));
            lemma_filtered_units_valid(world.game.units@, team_near_pred(world.game.my_id,
                unit.id, unit.position), world.constants.weapons.len() as int);
        }
        let u_self = *unit;
        my_team.push(u_self);
        proof {
            assert(my_team@ == spec_team_of(*world, *unit));
        }
        let groups = find_enemy_groups(&world.units);
        let allow = world.units.len() <= my_team.len();
        let mut g: usize = 0;
        while g < groups.len()
            invariant
                world.wf(),
                unit.valid(world.constants.weapons.len() as int),
                unit.action is None,
                crate::fight_sim::spec_eligible(*unit),
                my_team@ == spec_team_of(*world, *unit),
                my_team@.len() <= 1_000_000,
                allow == (world.units@.len() <= my_team@.len()),
                forall|k: int| 0 <= k < my_team@.len()
                    ==> (#[trigger] my_team@[k]).valid(world.constants.weapons.len() as int),
                forall|x: int| 0 <= x < groups@.len()
                    ==> is_player_group(world.units@, (#[trigger] groups@[x])@),
                forall|i: int| 0 <= i < world.units@.len()
                    && (#[trigger] world.units@[i]).remaining_spawn_time is None
                    ==> exists|x: int| 0 <= x < groups@.len()
                        && (#[trigger] groups@[x])@ == world.units@.filter(
                            player_group_pred(world.units@[i].player_id)),
                0 <= g <= groups@.len(),
                forall|x: int| 0 <= x < g
                    ==> !winnable_group(*world, *unit, (#[trigger] groups@[x])@),
            decreases groups@.len() - g,
        {
            proof {
                let grp = groups@[g as int]@;
                let pid = choose|pid: i64| grp == world.units@.filter(
                    #[trigger] player_group_pred(pid));
                lemma_filtered_units_valid(world.units@, player_group_pred(pid),
                    world.constants.weapons.len() as int);
            }
            let win = crate::fight_sim::can_win(&my_team, &groups[g], allow,
                &world.constants, world.game.current_tick);
            if win {
                let fd = unit.firing_distance(&world.constants);
                let mut m: usize = 0;
                while m < groups[g].len()
                    invariant
                        world.wf(),
                        unit.valid(world.constants.weapons.len() as int),
                        unit.action is None,
                        crate::fight_sim::spec_eligible(*unit),
                        unit.position.in_arena(),
                        g < groups@.len(),
                        my_team@ == spec_team_of(*world, *unit),
                        is_player_group(world.units@, groups@[g as int]@),
                        (match crate::fight_sim::spec_simulation(my_team@,
                            groups@[g as int]@, world.constants, world.game.current_tick) {
                            crate::fight_sim::FightSimResult::WON(_) => true,
                            crate::fight_sim::FightSimResult::DRAW =>
                                world.units@.len() <= my_team@.len(),
                            crate::fight_sim::FightSimResult::LOST => false,
                        }),
                        fd == unit.spec_firing_distance(world.constants),
                        0 <= m <= groups@[g as int]@.len(),
                        forall|y: int| 0 <= y < m
                            ==> !(spec_distance((#[trigger] groups@[g as int]@[y]).position,
                                unit.position) - world.constants.unit_radius
                                < unit.spec_firing_distance(world.constants)),
                    decreases groups@[g as int]@.len() - m,
                {
                    proof {
                        let grp = groups@[g as int]@;
                        let pid = choose|pid: i64| grp == world.units@.filter(
                            #[trigger] player_group_pred(pid));
                        crate::fight_sim::lemma_filter_elem_of(world.units@,
                            player_group_pred(pid), m as int);
                        let j = choose|j: int| 0 <= j < world.units@.len()
                            && world.units@[j] == grp[m as int];
                        assert(world.units@[j].valid(world.constants.weapons.len() as int));
                    }
                    let d = groups[g][m].position.distance(&unit.position);
                    if d - world.constants.unit_radius < fd {
                        proof {
                            let grp = groups@[g as int]@;
                            let pid = choose|pid: i64| grp == world.units@.filter(
                                #[trigger] player_group_pred(pid));
                            assert(winnable_group(*world, *unit, grp));
                            assert(spec_fighting_applicable(*world, *unit));
                        }
                        return true;
                    }
                    m = m + 1;
                }
            }
            g = g + 1;
        }
        proof {
            assert forall|pid: i64| !winnable_group(*world, *unit,
                world.units@.filter(#[trigger] player_group_pred(pid))) by {
                let grp = world.units@.filter(player_group_pred(pid));
                if grp.len() > 0 {
                    crate::fight_sim::lemma_filter_elem_of(world.units@,
                        player_group_pred(pid), 0);
                    world.units@.lemma_filter_pred(player_group_pred(pid), 0);
                    let j = choose|j: int| 0 <= j < world.units@.len()
                        && world.units@[j] == grp[0];
                    assert(world.units@[j].remaining_spawn_time is None);
                    assert(world.units@[j].player_id == pid);
                    let x = choose|x: int| 0 <= x < groups@.len()
                        && groups@[x]@ == world.units@.filter(
                            player_group_pred(world.units@[j].player_id));
                    assert(!winnable_group(*world, *unit, groups@[x]@));
                }
            }
        }
        false
    }

    /// Fight: pick the nearest member of a winnable enemy group, lead
    /// the shot by its velocity, move to the best firing spot, and
    /// aim - shooting only with a clear, friendly-fire-free line of
    /// sight inside the vision arc.
    pub fn order(&self, unit: &Unit, world: &World) -> (r: UnitOrder)
        requires
            world.wf(),
            unit.valid(world.constants.weapons.len() as int),
        ensures
            // aim exactly when the weapon will be ready in time
            spec_fighting_applicable(*world, *unit)
                ==> ((r.action is Some)
                    <==> spec_ticks_until(*unit, world.game.current_tick)
                        <= spec_aim_left(*unit, world.constants)),
            (match r.action {
                Option::None => true,
                Option::Some(a) => a matches crate::model::ActionOrder::Aim { .. },
            }),
            // the whole order is pinned to a winnable target: the shot is
            // led by its velocity, shooting only with a clear,
            // friendly-fire-free line inside the vision arc, and the
            // movement heads for the best candidate toward the firing spot
            spec_fighting_applicable(*world, *unit)
                ==> exists|t: Unit, g: Vec2, obs: Vec<Obstacle>|
                    #![trigger is_firing_goal(*world, *unit, t, obs@, g)]
                    ({
                        let fellows = world.game.units@.filter(crate::model::fellow_pred(
                            world.game.my_id, unit.id));
                        let lead = spec_lead_point(*unit, t, world.constants);
                        &&& exists|pid: i64| order_winnable(*world, *unit,
                            world.units@.filter(#[trigger] player_group_pred(pid)))
                            && world.units@.filter(player_group_pred(pid)).contains(t)
                        &&& forall|pid2: i64, m: int|
                            #![trigger world.units@.filter(player_group_pred(pid2))[m]]
                            order_winnable(*world, *unit,
                                world.units@.filter(player_group_pred(pid2)))
                            && 0 <= m < world.units@.filter(
                                player_group_pred(pid2)).len()
                            ==> spec_distance(world.units@.filter(
                                player_group_pred(pid2))[m].position, unit.position)
                                >= spec_distance(t.position, unit.position)
                        &&& (match crate::world::cache_lookup(world.obstacle_cache@,
                            unit.id) {
                            Option::Some(v) => obs@ == v@,
                            Option::None => obs@.len() == 0,
                        })
                        &&& r.target_direction == spec_steer(unit.position, lead)
                        &&& (match r.action {
                            Option::Some(a) => match a {
                                crate::model::ActionOrder::Aim { shoot } => shoot
                                    <==> (!spec_does_intersect(unit.position, lead, obs@)
                                        && !crate::util::spec_intersects_units(
                                            unit.position, lead, fellows,
                                            world.constants)
                                        && unit.spec_is_inside_vision(t.position,
                                            world.constants)),
                                _ => false,
                            },
                            Option::None => true,
                        })
                        &&& is_firing_goal(*world, *unit, t, obs@, g)
                        &&& ({
                            let mring = unit.spec_move_ring(world.constants).filter(
                                clear_pred(obs@, world.constants.unit_radius));
                            let traces = crate::util::spec_traces(world.projectiles@);
                            if mring.len() == 0 {
                                r.target_velocity == spec_steer(unit.position,
                                    world.game.zone.current_center)
                            } else {
                                exists|i: int| 0 <= i < mring.len()
                                    && r.target_velocity == spec_steer(unit.position,
                                        mring[i])
                                    && forall|j: int| 0 <= j < mring.len()
                                        ==> spec_move_score(traces, world.game,
                                            world.constants, *unit, world.game.zone, g,
                                            true, true, false, #[trigger] mring[j])
                                            >= spec_move_score(traces, world.game,
                                                world.constants, *unit, world.game.zone,
                                                g, true, true, false, mring[i])
                            }
                        })
                    }),
    {
        let cons = &world.constants;
        let mut my_team = find_my_team(unit, &world.game);
        proof {
            world.game.units@.lemma_filter_len(team_near_pred(world.game.my_id, unit.id,
                unit.position));
            lemma_filtered_units_valid(world.game.units@, team_near_pred(world.game.my_id,
                unit.id, unit.position), cons.weapons.len() as int);
        }
        let u_self = *unit;
        my_team.push(u_self);
        let groups = find_enemy_groups(&world.units);
        // the nearest member of a winnable group
        let mut target: Option<Unit> = Option::None;
        let mut target_d: i64 = 0;
        let mut g: usize = 0;
        while g < groups.len()
            invariant
                world.wf(),
                cons == &world.constants,
                unit.position.in_arena(),
                my_team@.len() <= 1_000_000,
                forall|k: int| 0 <= k < my_team@.len()
                    ==> (#[trigger] my_team@[k]).valid(cons.weapons.len() as int),
                forall|x: int| 0 <= x < groups@.len()
                    ==> is_player_group(world.units@, (#[trigger] groups@[x])@),
                0 <= g <= groups@.len(),
                my_team@ == spec_team_of(*world, *unit),
                (match target {
                    Option::None => forall|x: int| 0 <= x < g
                        ==> !order_winnable(*world, *unit, (#[trigger] groups@[x])@),
                    Option::Some(t) => world.units@.contains(t) && t.position.in_arena()
                        && t.velocity.in_arena()
                        && target_d == spec_distance(t.position, unit.position)
                        && (exists|pid2: i64| order_winnable(*world, *unit,
                            world.units@.filter(#[trigger] player_group_pred(pid2)))
                            && world.units@.filter(player_group_pred(pid2)).contains(t))
                        && forall|x: int, m: int| #![trigger (groups@[x])@[m]]
                            0 <= x < g && order_winnable(*world, *unit, groups@[x]@)
                            && 0 <= m < groups@[x]@.len()
                            ==> spec_distance(groups@[x]@[m].position, unit.position)
                                >= target_d,
                }),
            decreases groups@.len() - g,
        {
            proof {
                let grp = groups@[g as int]@;
                let pid = choose|pid: i64| grp == world.units@.filter(
                    #[trigger] player_group_pred(pid));
                lemma_filtered_units_valid(world.units@, player_group_pred(pid),
                    cons.weapons.len() as int);
            }
            let allow = groups[g].len() <= my_team.len();
            let win = crate::fight_sim::can_win(&my_team, &groups[g], allow, cons,
                world.game.current_tick);
            if win {
                let ghost grp = groups@[g as int]@;
                let ghost pid = choose|pid: i64| grp == world.units@.filter(
                    #[trigger] player_group_pred(pid));
                let mut m: usize = 0;
                while m < groups[g].len()
                    invariant
                        world.wf(),
                        cons == &world.constants,
                        unit.position.in_arena(),
                        g < groups@.len(),
                        my_team@ == spec_team_of(*world, *unit),
                        groups@[g as int]@ == world.units@.filter(player_group_pred(pid)),
                        groups@[g as int]@.len() > 0
                            ==> order_winnable(*world, *unit, groups@[g as int]@),
                        0 <= m <= groups@[g as int]@.len(),
                        (match target {
                            Option::None => m == 0 && forall|x: int| 0 <= x < g
                                ==> !order_winnable(*world, *unit,
                                    (#[trigger] groups@[x])@),
                            Option::Some(t) => world.units@.contains(t)
                                && t.position.in_arena() && t.velocity.in_arena()
                                && target_d == spec_distance(t.position, unit.position)
                                && (exists|pid2: i64| order_winnable(*world, *unit,
                                    world.units@.filter(#[trigger] player_group_pred(pid2)))
                                    && world.units@.filter(
                                        player_group_pred(pid2)).contains(t))
                                && (forall|x: int, m2: int| #![trigger (groups@[x])@[m2]]
                                    0 <= x < g
                                    && order_winnable(*world, *unit, groups@[x]@)
                                    && 0 <= m2 < groups@[x]@.len()
                                    ==> spec_distance(groups@[x]@[m2].position,
                                        unit.position) >= target_d)
                                && (forall|m2: int| 0 <= m2 < m
                                    ==> spec_distance(
                                        (#[trigger] groups@[g as int]@[m2]).position,
                                        unit.position) >= target_d),
                        }),
                    decreases groups@[g as int]@.len() - m,
                {
                    proof {
                        crate::fight_sim::lemma_filter_elem_of(world.units@,
                            player_group_pred(pid), m as int);
                        let j = choose|j: int| 0 <= j < world.units@.len()
                            && world.units@[j] == groups@[g as int]@[m as int];
                        assert(world.units@.contains(world.units@[j]));
                    }
                    let e = groups[g][m];
                    let d = e.position.distance(&unit.position);
                    let better = match target {
                        Option::None => true,
                        Option::Some(_) => d < target_d,
                    };
                    if better {
                        target = Option::Some(e);
                        target_d = d;
                        proof {
                            assert(groups@[g as int]@.contains(e));
                            assert(order_winnable(*world, *unit,
                                world.units@.filter(player_group_pred(pid))));
                        }
                    }
                    m = m + 1;
                }
            }
            proof {
                match target {
                    Option::None => {
                        assert(!order_winnable(*world, *unit, groups@[g as int]@));
                    },
                    Option::Some(t0) => {},
                }
            }
            g = g + 1;
        }
        proof {
            if spec_fighting_applicable(*world, *unit) {
                let pid = choose|pid: i64| winnable_group(*world, *unit,
                    world.units@.filter(#[trigger] player_group_pred(pid)));
                let grp = world.units@.filter(player_group_pred(pid));
                world.units@.lemma_filter_len(player_group_pred(pid));
                assert(order_winnable(*world, *unit, grp));
                world.units@.lemma_filter_pred(player_group_pred(pid), 0);
                crate::fight_sim::lemma_filter_elem_of(world.units@,
                    player_group_pred(pid), 0);
                let j = choose|j: int| 0 <= j < world.units@.len()
                    && world.units@[j] == grp[0];
                assert(world.units@[j].remaining_spawn_time is None);
                let x = choose|x: int| 0 <= x < groups@.len()
                    && groups@[x]@ == world.units@.filter(
                        player_group_pred(world.units@[j].player_id));
                assert(world.units@[j].player_id == pid);
                assert(order_winnable(*world, *unit, groups@[x]@));
                match target {
                    Option::None => {
                        assert(!order_winnable(*world, *unit, groups@[x]@));
                        assert(false);
                    },
                    Option::Some(t0) => {},
                }
                assert(target is Some);
            }
        }
        let t = match target {
            Option::Some(t) => t,
            Option::None => {
                // no winnable target is in memory: hold position
                proof {
                    assert(!spec_fighting_applicable(*world, *unit));
                }
                return UnitOrder {
                    target_velocity: Vec2 { x: 0, y: 0 },
                    target_direction: unit.direction,
                    action: Option::None,
                };
            },
        };
        proof {
            assert forall|pid2: i64, m: int|
                #![trigger world.units@.filter(player_group_pred(pid2))[m]]
                order_winnable(*world, *unit, world.units@.filter(player_group_pred(pid2)))
                && 0 <= m < world.units@.filter(player_group_pred(pid2)).len()
                implies spec_distance(world.units@.filter(
                    player_group_pred(pid2))[m].position, unit.position)
                    >= spec_distance(t.position, unit.position) by {
                let grp = world.units@.filter(player_group_pred(pid2));
                world.units@.lemma_filter_pred(player_group_pred(pid2), 0);
                crate::fight_sim::lemma_filter_elem_of(world.units@,
                    player_group_pred(pid2), 0);
                let j = choose|j: int| 0 <= j < world.units@.len()
                    && world.units@[j] == grp[0];
                assert(world.units@[j].remaining_spawn_time is None);
                assert(world.units@[j].player_id == pid2);
                let x = choose|x: int| 0 <= x < groups@.len()
                    && groups@[x]@ == world.units@.filter(
                        player_group_pred(world.units@[j].player_id));
                assert(groups@[x]@ == grp);
                assert(spec_distance(groups@[x]@[m].position, unit.position) >= target_d);
            }
        }
        let obstacles = world.get_obstacles(unit.id);
        let fire_target = lead_point(unit, &t, cons);
        let blocked = crate::util::does_intersect_vec(&unit.position, &fire_target,
            &obstacles);
        let fellows = unit.my_other_units(&world.game);
        proof {
            world.game.units@.lemma_filter_len(crate::model::fellow_pred(world.game.my_id,
                unit.id));
            lemma_filtered_units_valid(world.game.units@,
                crate::model::fellow_pred(world.game.my_id, unit.id),
                cons.weapons.len() as int);
        }
        let through_friends = crate::util::intersects_with_units_vec(&unit.position,
            &fire_target, &fellows, cons);
        let goal = match get_best_firing_spot(unit, &t, &obstacles, world) {
            Option::Some(p) => p,
            Option::None => world.game.zone.current_center,
        };
        proof {
            assert forall|i: int| 0 <= i < world.projectiles@.len()
                implies (#[trigger] world.projectiles@[i]).valid(
                    crate::model::AMMO_SLOTS as int) by {
                assert(world.projectiles@[i].valid(cons.weapons.len() as int));
            }
        }
        let traces = crate::util::get_projectile_traces(&world.projectiles);
        proof {
            crate::util::lemma_traces_valid(world.projectiles@, cons.weapons.len() as int);
        }
        let cands = unit.points_around_unit(cons, &obstacles, true);
        let best = choose_move(&cands, &traces, unit, &world.game, &world.game.zone, goal,
            true, true, false, cons);
        let move_to = match best {
            Option::Some(p) => p,
            Option::None => world.game.zone.current_center,
        };
        let ticks_until = if unit.next_shot_tick > world.game.current_tick {
            unit.next_shot_tick - world.game.current_tick
        } else {
            0
        };
        let aim_left = match unit.weapon {
            Option::Some(w) => {
                let a = cons.weapons[w].aim_ticks;
                proof {
                    assert(0 <= a * (1000 - unit.aim) <= 1_000_000_000_000_000)
                        by (nonlinear_arith)
                        requires
                            0 <= a <= 1_000_000_000,
                            0 <= 1000 - unit.aim <= 1000,
                    {
                    }
                }
                crate::geom::div_trunc(a * (1000 - unit.aim), 1000)
            },
            Option::None => 0,
        };
        let action = if ticks_until <= aim_left {
            let vis = unit.is_inside_vision(&t.position, cons);
            let shoot = !blocked && !through_friends && vis;
            Option::Some(crate::model::ActionOrder::Aim { shoot })
        } else {
            Option::None
        };
        proof {
            assert(fellows@ == world.game.units@.filter(crate::model::fellow_pred(
                world.game.my_id, unit.id)));
            assert(traces@ == crate::util::spec_traces(world.projectiles@));
            assert(is_firing_goal(*world, *unit, t, obstacles@, goal));
            assert(ticks_until == spec_ticks_until(*unit, world.game.current_tick));
            assert(aim_left == spec_aim_left(*unit, *cons));
        }
        UnitOrder {
            target_velocity: steer(unit.position, move_to),
            target_direction: steer(unit.position, fire_target),
            action,
        }
    }
}

/// The firing-spot goal actually steered for: the admissible grid point
/// of greatest spot score against the chosen target, or the zone center
/// when no grid point is admissible.
pub open spec fn is_firing_goal(w: World, u: Unit, t: Unit, obs: Seq<Obstacle>, g: Vec2)
    -> bool {
    let cands = crate::model::spec_grid(u.position, 10).filter(
        crate::model::grid_near_pred(u.position, 10_000));
    let fellows = w.game.units@.filter(crate::model::fellow_pred(w.game.my_id, u.id));
    ||| ((forall|j: int| 0 <= j < cands.len()
        ==> !spot_admissible(obs, fellows, w.constants, #[trigger] cands[j]))
        && g == w.game.zone.current_center)
    ||| (exists|i: int| 0 <= i < cands.len() && g == cands[i]
        && spot_admissible(obs, fellows, w.constants, cands[i])
        && forall|j: int| 0 <= j < cands.len()
            && spot_admissible(obs, fellows, w.constants, #[trigger] cands[j])
            ==> spec_spot_score(w.units@, fellows, t, u, w.game, w.constants, obs,
                cands[j]) <= spec_spot_score(w.units@, fellows, t, u, w.game,
                    w.constants, obs, cands[i]))
}

/// Elements of a filtered unit sequence inherit validity.
pub proof fn lemma_filtered_units_valid(s: Seq<Unit>, pred: spec_fn(Unit) -> bool, n: int)
    requires
        forall|i: int| 0 <= i < s.len() ==> (#[trigger] s[i]).valid(n),
    ensures
        forall|i: int| 0 <= i < s.filter(pred).len()
            ==> (#[trigger] s.filter(pred)[i]).valid(n),
{
    assert forall|i: int| 0 <= i < s.filter(pred).len()
        implies (#[trigger] s.filter(pred)[i]).valid(n) by {
        crate::fight_sim::lemma_filter_elem_of(s, pred, i);
        let j = choose|j: int| 0 <= j < s.len() && s[j] == s.filter(pred)[i];
        assert(s[j].valid(n));
    }
}


/// Whether a cached fight projection says the unit's group loses
/// against enemies of which one already has the unit in firing reach.
pub open spec fn spec_losing_near(sims: Seq<crate::fight_sim::FightSim>, units: Seq<Unit>,
    u: Unit, cons: Constants) -> bool {
    exists|k: int, j: int| 0 <= k < sims.len() && 0 <= j < units.len()
        && (#[trigger] sims[k]).allies@.contains(u.id)
        && sims[k].result is LOST
        && sims[k].enemies@.contains((#[trigger] units[j]).id)
        && spec_distance(units[j].position, u.position) <= units[j].spec_firing_distance(cons)
}

/// The smallest distance from any of the units to the point; zero with
/// no units known.
pub open spec fn spec_min_enemy_dist(units: Seq<Unit>, p: Vec2) -> int
    decreases units.len(),
{
    if units.len() == 0 {
        0
    } else if units.len() == 1 {
        spec_distance(units[0].position, p)
    } else {
        let rest = spec_min_enemy_dist(units.drop_first(), p);
        let d = spec_distance(units[0].position, p);
        if d <= rest {
            d
        } else {
            rest
        }
    }
}

fn min_enemy_dist(units: &Vec<Unit>, p: &Vec2) -> (r: i64)
    requires
        p.valid(),
        forall|i: int| 0 <= i < units.len() ==> (#[trigger] units[i]).position.in_arena(),
    ensures
        r == spec_min_enemy_dist(units@, *p),
        0 <= r <= DIST_MAX,
{
    if units.len() == 0 {
        return 0;
    }
    // walk from the back so the recursive spec unfolds one step per turn
    let mut k: usize = units.len();
    let mut acc: i64 = 0;
    while k > 0
        invariant
            p.valid(),
            forall|x: int| 0 <= x < units.len()
                ==> (#[trigger] units[x]).position.in_arena(),
            0 <= k <= units@.len(),
            k < units@.len() ==> acc == spec_min_enemy_dist(units@.skip(k as int), *p)
                && 0 <= acc <= DIST_MAX,
        decreases k,
    {
        k = k - 1;
        proof {
            assert(units@.skip(k as int)[0] == units@[k as int]);
            assert(units@.skip(k as int).drop_first() =~= units@.skip(k + 1));
        }
        let d = units[k].position.distance(p);
        if k == units.len() - 1 {
            acc = d;
        } else if d <= acc {
            acc = d;
        }
    }
    proof {
        assert(units@.skip(0) =~= units@);
    }
    acc
}

/// The retreat score of a point: better farther from the nearest
/// enemy, near the previous position, and away from crowding allies.
pub open spec fn spec_heal_score(units: Seq<Unit>, game: Game, u: Unit, cons: Constants,
    p: Vec2) -> int {
    let away = spec_min_enemy_dist(units, p);
    let keep = if spec_distance(p, u.position) > 3_000 {
        3_000
    } else {
        spec_distance(p, u.position)
    };
    -away - keep + spec_magnet_score(game, u, p) / 2
}

/// A retreat goal must clear every cached obstacle by one unit radius
/// and keep three units inside the zone border.
pub open spec fn heal_goal_admissible(obstacles: Seq<Obstacle>, zone: Zone, cons: Constants,
    p: Vec2) -> bool {
    &&& clear_pred(obstacles, cons.unit_radius)(p)
    &&& spec_distance(zone.current_center, p) + 3_000 < zone.current_radius
}

/// The retreat goal: of the admissible whole-unit grid points, one of
/// least retreat score; the current zone center when none is
/// admissible.
pub open spec fn is_heal_goal(w: World, u: Unit, obs: Seq<Obstacle>, g: Vec2) -> bool {
    let cands = crate::model::spec_grid(u.position, 10).filter(
        crate::model::grid_near_pred(u.position, 10_000));
    ||| ((forall|j: int| 0 <= j < cands.len()
        ==> !heal_goal_admissible(obs, w.game.zone, w.constants, #[trigger] cands[j]))
        && g == w.game.zone.current_center)
    ||| (exists|i: int| 0 <= i < cands.len() && g == cands[i]
        && heal_goal_admissible(obs, w.game.zone, w.constants, cands[i])
        && forall|j: int| 0 <= j < cands.len()
            && heal_goal_admissible(obs, w.game.zone, w.constants, #[trigger] cands[j])
            ==> spec_heal_score(w.units@, w.game, u, w.constants, cands[j])
                >= spec_heal_score(w.units@, w.game, u, w.constants, cands[i]))
}

/// Whether the retreat-and-drink policy claims the unit: a losing
/// cached projection with an enemy in reach before the endgame, or low
/// health, or missing shield with a potion at hand.
pub open spec fn heal_applicable(w: World, u: Unit) -> bool {
    ||| (spec_losing_near(w.sims@, w.units@, u, w.constants)
        && w.game.current_tick < 5_000)
    ||| 2 * u.health < w.constants.unit_health
    ||| (u.shield < w.constants.max_shield && u.shield_potions > 0)
}

/// The fighting applicability depends only on the snapshot, the
/// remembered enemies and the constants, never on bookings or loot.
pub proof fn lemma_fighting_applicable_frame(w1: World, w2: World, u: Unit)
    requires
        w1.game == w2.game,
        w1.units == w2.units,
        w1.constants == w2.constants,
    ensures
        spec_fighting_applicable(w1, u) == spec_fighting_applicable(w2, u),
{
    assert(spec_team_of(w1, u) == spec_team_of(w2, u));
    assert forall|pid: i64| winnable_group(w1, u,
        w1.units@.filter(#[trigger] player_group_pred(pid)))
        == winnable_group(w2, u, w2.units@.filter(player_group_pred(pid))) by {
        let grp = w1.units@.filter(player_group_pred(pid));
        if winnable_group(w1, u, grp) {
            let j = choose|j: int| 0 <= j < grp.len()
                && spec_distance((#[trigger] grp[j]).position, u.position)
                    - w1.constants.unit_radius < u.spec_firing_distance(w1.constants);
            assert(winnable_group(w2, u, grp));
        }
        if winnable_group(w2, u, grp) {
            let j = choose|j: int| 0 <= j < grp.len()
                && spec_distance((#[trigger] grp[j]).position, u.position)
                    - w2.constants.unit_radius < u.spec_firing_distance(w2.constants);
            assert(winnable_group(w1, u, grp));
        }
    }
    if spec_fighting_applicable(w1, u) {
        let pid = choose|pid: i64| winnable_group(w1, u,
            w1.units@.filter(#[trigger] player_group_pred(pid)));
        assert(winnable_group(w2, u, w2.units@.filter(player_group_pred(pid))));
    }
    if spec_fighting_applicable(w2, u) {
        let pid = choose|pid: i64| winnable_group(w2, u,
            w2.units@.filter(#[trigger] player_group_pred(pid)));
        assert(winnable_group(w1, u, w1.units@.filter(player_group_pred(pid))));
    }
}

impl RunAndHeal {
    /// Applicable when a cached projection loses against an enemy in
    /// reach (before the endgame), or when health or shield is low and
    /// worth a potion.
    pub fn should_use(&self, unit: &Unit, world: &World) -> (r: bool)
        requires
            world.wf(),
            unit.valid(world.constants.weapons.len() as int),
        ensures
            r == heal_applicable(*world, *unit),
    {
        let mut losing = false;
        let mut k: usize = 0;
        while k < world.sims.len() && !losing
            invariant
                world.wf(),
                unit.valid(world.constants.weapons.len() as int),
                0 <= k <= world.sims@.len(),
                losing ==> spec_losing_near(world.sims@, world.units@, *unit,
                    world.constants),
                !losing ==> forall|x: int, j: int| 0 <= x < k && 0 <= j < world.units@.len()
                    ==> !((#[trigger] world.sims@[x]).allies@.contains(unit.id)
                        && world.sims@[x].result is LOST
                        && world.sims@[x].enemies@.contains((#[trigger] world.units@[j]).id)
                        && spec_distance(world.units@[j].position, unit.position)
                            <= world.units@[j].spec_firing_distance(world.constants)),
            decreases world.sims@.len() - k,
        {
            let covers = world.sims[k].covers_ally(unit.id);
            let lost = match world.sims[k].result {
                crate::fight_sim::FightSimResult::LOST => true,
                _ => false,
            };
            if covers && lost {
                let mut j: usize = 0;
                while j < world.units.len()
                    invariant
                        world.wf(),
                        unit.valid(world.constants.weapons.len() as int),
                        k < world.sims@.len(),
                        world.sims@[k as int].allies@.contains(unit.id),
                        world.sims@[k as int].result is LOST,
                        0 <= j <= world.units@.len(),
                        losing ==> spec_losing_near(world.sims@, world.units@, *unit,
                            world.constants),
                        !losing ==> forall|y: int| 0 <= y < j
                            ==> !(world.sims@[k as int].enemies@.contains(
                                (#[trigger] world.units@[y]).id)
                                && spec_distance(world.units@[y].position, unit.position)
                                    <= world.units@[y].spec_firing_distance(world.constants)),
                    decreases world.units@.len() - j,
                {
                    if crate::util::contains_id(&world.sims[k].enemies, world.units[j].id) {
                        let d = world.units[j].position.distance(&unit.position);
                        let fd = world.units[j].firing_distance(&world.constants);
                        if d <= fd {
                            losing = true;
                        }
                    }
                    j = j + 1;
                }
            }
            k = k + 1;
        }
        let lost_near = losing;
        if lost_near && world.game.current_tick < 5_000 {
            return true;
        }
        2 * unit.health < world.constants.unit_health
            || (unit.shield < world.constants.max_shield && unit.shield_potions > 0)
    }

    /// Retreat toward the admissible grid point farthest from the
    /// nearest enemy without straying far, dodging projected bullets on
    /// the way, and drink a shield potion.
    pub fn order(&self, unit: &Unit, world: &World) -> (r: UnitOrder)
        requires
            world.wf(),
            unit.valid(world.constants.weapons.len() as int),
        ensures
            r.action == Option::Some(crate::model::ActionOrder::UseShieldPotion),
            exists|g: Vec2, obs: Vec<Obstacle>|
                #![trigger is_heal_goal(*world, *unit, obs@, g), obs@]
                is_heal_goal(*world, *unit, obs@, g)
                && (match crate::world::cache_lookup(world.obstacle_cache@, unit.id) {
                    Option::Some(v) => obs@ == v@,
                    Option::None => obs@.len() == 0,
                })
                && ({
                    let mring = unit.spec_move_ring(world.constants).filter(
                        clear_pred(obs@, world.constants.unit_radius));
                    let traces = crate::util::spec_traces(world.projectiles@);
                    if mring.len() == 0 {
                        r.target_velocity == spec_steer(unit.position,
                            world.game.zone.current_center)
                    } else {
                        exists|i: int| 0 <= i < mring.len()
                            && r.target_velocity == spec_steer(unit.position, mring[i])
                            && forall|j: int| 0 <= j < mring.len()
                                ==> spec_move_score(traces, world.game, world.constants,
                                    *unit, world.game.zone, g, true, false, false,
                                    #[trigger] mring[j])
                                    >= spec_move_score(traces, world.game,
                                        world.constants, *unit, world.game.zone, g,
                                        true, false, false, mring[i])
                    }
                }),
    {
        let cons = &world.constants;
        let obstacles = world.get_obstacles(unit.id);
        let cands = unit.points_in_radius(10);
        let ghost gcands = crate::model::spec_grid(unit.position, 10).filter(
            crate::model::grid_near_pred(unit.position, 10_000));
        let mut goal: Vec2 = world.game.zone.current_center;
        let mut have_goal = false;
        let mut goal_score: i128 = 0;
        let ghost mut goal_i: int = 0;
        let mut i: usize = 0;
        while i < cands.len()
            invariant
                world.wf(),
                cons == &world.constants,
                unit.valid(cons.weapons.len() as int),
                cands@ == gcands,
                forall|x: int| 0 <= x < cands.len() ==> (#[trigger] cands[x]).valid(),
                forall|x: int| 0 <= x < obstacles.len() ==> (#[trigger] obstacles[x]).valid(),
                0 <= i <= cands@.len(),
                !have_goal ==> goal == world.game.zone.current_center
                    && forall|j: int| 0 <= j < i as int
                        ==> !heal_goal_admissible(obstacles@, world.game.zone, *cons,
                            #[trigger] gcands[j]),
                have_goal ==> goal.valid()
                    && 0 <= goal_i < i as int
                    && goal == gcands[goal_i]
                    && heal_goal_admissible(obstacles@, world.game.zone, *cons, goal)
                    && goal_score == spec_heal_score(world.units@, world.game, *unit,
                        *cons, goal)
                    && forall|j: int| 0 <= j < i as int
                        && heal_goal_admissible(obstacles@, world.game.zone, *cons,
                            #[trigger] gcands[j])
                        ==> spec_heal_score(world.units@, world.game, *unit, *cons,
                            gcands[j]) >= goal_score,
            decreases cands@.len() - i,
        {
            let p = cands[i];
            let clear = crate::model::point_is_clear(&p, &obstacles, cons.unit_radius);
            if clear {
                let dz = world.game.zone.current_center.distance(&p);
                if dz + 3_000 < world.game.zone.current_radius {
                    let away = min_enemy_dist(&world.units, &p);
                    let dprev = p.distance(&unit.position);
                    let keep = if dprev > 3_000 { 3_000 } else { dprev };
                    let magnet = crate::scoring::my_units_magnet_score(&p, unit,
                        &world.game);
                    let s: i128 = -(away as i128) - (keep as i128) + ((magnet / 2) as i128);
                    if !have_goal || s < goal_score {
                        goal = p;
                        goal_score = s;
                        have_goal = true;
                        proof {
                            goal_i = i as int;
                        }
                    }
                }
            }
            i = i + 1;
        }
        proof {
            assert(is_heal_goal(*world, *unit, obstacles@, goal));
        }
        proof {
            assert forall|i2: int| 0 <= i2 < world.projectiles@.len()
                implies (#[trigger] world.projectiles@[i2]).valid(
                    crate::model::AMMO_SLOTS as int) by {
                assert(world.projectiles@[i2].valid(cons.weapons.len() as int));
            }
        }
        let traces = crate::util::get_projectile_traces(&world.projectiles);
        proof {
            crate::util::lemma_traces_valid(world.projectiles@, cons.weapons.len() as int);
        }
        let mcands = unit.points_around_unit(cons, &obstacles, true);
        let best = choose_move(&mcands, &traces, unit, &world.game, &world.game.zone, goal,
            true, false, false, cons);
        let move_to = match best {
            Option::Some(p) => p,
            Option::None => world.game.zone.current_center,
        };
        let rotation = if world.game.current_tick % 100 >= 85 {
            Vec2 { x: -unit.direction.y, y: unit.direction.x }
        } else {
            Vec2 { x: goal.x - unit.position.x, y: goal.y - unit.position.y }
        };
        proof {
            assert(traces@ == crate::util::spec_traces(world.projectiles@));
            assert(is_heal_goal(*world, *unit, obstacles@, goal));
        }
        UnitOrder {
            target_velocity: steer(unit.position, move_to),
            target_direction: rotation,
            action: Option::Some(crate::model::ActionOrder::UseShieldPotion),
        }
    }
}

/// Both coordinates clamped into the working range.
pub open spec fn spec_clamp_vec(v: Vec2) -> Vec2 {
    Vec2 { x: spec_clamp_coord(v.x as int), y: spec_clamp_coord(v.y as int) }
}

/// The travel goal of the fallback policy: the best approachable loot,
/// an isolated fellow, or the zone ring point; clamped into range.
pub open spec fn is_travel_goal(w: World, u: Unit, g: Vec2) -> bool {
    ||| exists|l: Loot| #![auto] g == spec_clamp_vec(l.position)
        && crate::loot::is_best_loot_of(w, u, false, l)
    ||| (crate::loot::no_loot_passes(w, u, false)
        && match crate::scoring::spec_closest_fellow(w.game, u) {
            Option::Some(o) => g == spec_clamp_vec(o.position)
                && spec_distance(u.position, o.position) > 10_000,
            Option::None => false,
        })
    ||| (crate::loot::no_loot_passes(w, u, false)
        && g == spec_clamp_vec(spec_zone_ring_point(w, u)))
}

impl MoveOrLoot {
    /// The fallback policy: always applicable.
    pub fn should_use(&self, unit: &Unit) -> (r: bool)
        ensures
            r == true,
    {
        true
    }

    /// Book and (in reach, when free) pick up the best loot, else head
    /// for the best approachable loot, an isolated fellow, or a ring
    /// inside the zone; scan sideways now and then.
    #[verifier::rlimit(100)]
    pub fn order(&self, unit: &Unit, world: &mut World) -> (r: UnitOrder)
        requires
            old(world).wf(),
            unit.valid(old(world).constants.weapons.len() as int),
        ensures
            final(world).wf(),
            final(world).constants == old(world).constants,
            final(world).game == old(world).game,
            final(world).units == old(world).units,
            final(world).sims == old(world).sims,
            // booking is kept and grows: nothing booked is ever unbooked
            forall|x: i64| old(world).booked_loot@.contains(x)
                ==> final(world).booked_loot@.contains(x),
            // the loot approached as the travel goal is booked at once,
            // so later units this tick can never be sent to it
            !crate::loot::no_loot_passes(*old(world), *unit, false)
                ==> exists|l: Loot| #![auto]
                    crate::loot::is_best_loot_of(*old(world), *unit, false, l)
                    && final(world).booked_loot@.contains(l.id),
            // a picked-up item leaves loot memory for good; without a
            // pickup the loot memory is untouched
            (match r.action {
                Option::Some(a) => match a {
                    crate::model::ActionOrder::Pickup { loot } => {
                        &&& crate::world::loot_lookup(final(world).loot_mem@, loot) is None
                        &&& final(world).loot_mem@ == old(world).loot_mem@.filter(
                            crate::world::loot_id_not_pred(loot))
                    },
                    _ => false,
                },
                Option::None => final(world).loot_mem == old(world).loot_mem
                    && final(world).loot == old(world).loot,
            }),
            // pickup happens exactly when the unit is free to act and a
            // candidate within reach passes the filter; what is picked
            // up passes the filter and is booked at once
            (r.action is Some) <==> (unit.aim == 0 && unit.action is None
                && exists|j: int| #![trigger old(world).loot@[j]]
                    0 <= j < old(world).loot@.len()
                    && crate::loot::spec_loot_passes(old(world).booked_loot@,
                        old(world).units@, old(world).game.zone, old(world).constants,
                        *unit, true, old(world).loot@[j])),
            (match r.action {
                Option::None => true,
                Option::Some(a) => match a {
                    crate::model::ActionOrder::Pickup { loot } => {
                        &&& unit.aim == 0
                        &&& unit.action is None
                        &&& final(world).booked_loot@.contains(loot)
                        &&& exists|l: Loot| #![auto] l.id == loot
                            && crate::loot::spec_loot_passes(old(world).booked_loot@,
                                old(world).units@, old(world).game.zone,
                                old(world).constants, *unit, true, l)
                    },
                    _ => false,
                },
            }),
            exists|g: Vec2, obs: Vec<Obstacle>|
                #![trigger is_travel_goal(*old(world), *unit, g), obs@]
                is_travel_goal(*old(world), *unit, g)
                && (match crate::world::cache_lookup(old(world).obstacle_cache@, unit.id) {
                    Option::Some(v) => obs@ == v@,
                    Option::None => obs@.len() == 0,
                })
                && ({
                    let cands = unit.spec_move_ring(old(world).constants).filter(
                        clear_pred(obs@, old(world).constants.unit_radius));
                    let traces = crate::util::spec_traces(old(world).projectiles@);
                    if cands.len() == 0 {
                        r.target_velocity == spec_steer(unit.position,
                            old(world).game.zone.current_center)
                    } else {
                        exists|i: int| 0 <= i < cands.len()
                            && r.target_velocity == spec_steer(unit.position, cands[i])
                            && forall|j: int| 0 <= j < cands.len()
                                ==> spec_move_score(traces, old(world).game,
                                    old(world).constants, *unit, old(world).game.zone, g,
                                    true, true, false, #[trigger] cands[j])
                                    >= spec_move_score(traces, old(world).game,
                                        old(world).constants, *unit,
                                        old(world).game.zone, g, true, true, false,
                                        cands[i])
                    }
                }),
    {
        let cons_n = world.constants.weapons.len();
        proof {
            assert forall|i: int| 0 <= i < world.loot@.len()
                implies (#[trigger] world.loot@[i]).valid(
                    world.constants.weapons.len() as int) by {
                assert(world.loot@ == world.loot_mem@.map_values(crate::world::snd_loot()));
                assert(world.loot@[i] == world.loot_mem@[i].1);
            }
        }
        let best_not = crate::loot::best_loot(unit, &world.loot, false, world);
        let best_int = crate::loot::best_loot(unit, &world.loot, true, world);
        let can_pickup = unit.aim == 0 && unit.action.is_none();
        match best_int {
            Option::Some(l) => {
                if can_pickup {
                    world.remove_loot(l.id);
                }
                let ghost pre = world.booked_loot@;
                world.book_loot(l.id);
                proof {
                    assert(world.booked_loot@[pre.len() as int] == l.id);
                    assert(world.booked_loot@.contains(l.id));
                    assert forall|x: i64| pre.contains(x)
                        implies world.booked_loot@.contains(x) by {
                        let j = choose|j: int| 0 <= j < pre.len() && pre[j] == x;
                        assert(world.booked_loot@[j] == x);
                    }
                }
            },
            Option::None => {},
        }
        match best_not {
            Option::Some(l) => {
                let ghost pre = world.booked_loot@;
                world.book_loot(l.id);
                proof {
                    assert(world.booked_loot@[pre.len() as int] == l.id);
                    assert forall|x: i64| pre.contains(x)
                        implies world.booked_loot@.contains(x) by {
                        let j = choose|j: int| 0 <= j < pre.len() && pre[j] == x;
                        assert(world.booked_loot@[j] == x);
                    }
                }
            },
            Option::None => {},
        }
        let ghost w0 = *old(world);
        let raw_goal = match best_not {
            Option::Some(l) => {
                proof {
                    let ghost booked = w0.booked_loot@;
                    let ghost enemies = w0.units@;
                    let ghost zone = w0.game.zone;
                    let ghost consg = w0.constants;
                    let i = choose|i: int| 0 <= i < w0.loot@.len() && w0.loot@[i] == l
                        && (forall|j: int| 0 <= j < i
                            && crate::loot::spec_loot_passes(booked, enemies, zone, consg,
                                *unit, false, #[trigger] w0.loot@[j])
                            ==> crate::loot::spec_loot_rank(w0.game, consg, *unit,
                                w0.loot@[j])
                                < crate::loot::spec_loot_rank(w0.game, consg, *unit, l));
                    assert(0 <= i < w0.loot@.len() && w0.loot@[i] == l);
                    assert(crate::loot::is_best_loot_of(w0, *unit, false, l));
                }
                l.position
            },
            Option::None => {
                let mut fallback = false;
                let mut fpos = Vec2 { x: 0, y: 0 };
                match crate::scoring::closest_fellow(unit, &world.game) {
                    Option::Some(o) => {
                        if unit.position.distance(&o.position) > 10_000 {
                            fallback = true;
                            fpos = o.position;
                        }
                    },
                    Option::None => {},
                }
                if fallback {
                    fpos
                } else {
                    let center = world.game.zone.current_center;
                    let from_center = Vec2 {
                        x: crate::geom::div_trunc(unit.position.x - center.x, 2),
                        y: crate::geom::div_trunc(unit.position.y - center.y, 2),
                    };
                    let turned = crate::geom::rot_step(from_center, crate::geom::SMALL_COS,
                        crate::geom::SMALL_SIN);
                    let ring = crate::geom::div_trunc(world.game.zone.current_radius * 85,
                        100);
                    let p = crate::geom::rotate(center, turned, ring);
                    proof {
                        assert(p == spec_zone_ring_point(w0, *unit));
                    }
                    p
                }
            },
        };
        let goal = Vec2 { x: clamp_coord(raw_goal.x), y: clamp_coord(raw_goal.y) };
        proof {
            assert(is_travel_goal(w0, *unit, goal));
        }
        proof {
            assert forall|i2: int| 0 <= i2 < world.projectiles@.len()
                implies (#[trigger] world.projectiles@[i2]).valid(
                    crate::model::AMMO_SLOTS as int) by {
                assert(world.projectiles@[i2].valid(world.constants.weapons.len() as int));
            }
        }
        let traces = crate::util::get_projectile_traces(&world.projectiles);
        proof {
            crate::util::lemma_traces_valid(world.projectiles@,
                world.constants.weapons.len() as int);
        }
        let obstacles = world.get_obstacles(unit.id);
        let mcands = unit.points_around_unit(&world.constants, &obstacles, true);
        let best = choose_move(&mcands, &traces, unit, &world.game, &world.game.zone, goal,
            true, true, false, &world.constants);
        let move_to = match best {
            Option::Some(p) => p,
            Option::None => world.game.zone.current_center,
        };
        let rotation = if world.game.current_tick % 100 >= 85 {
            Vec2 { x: -unit.direction.y, y: unit.direction.x }
        } else {
            Vec2 { x: goal.x - unit.position.x, y: goal.y - unit.position.y }
        };
        let action = if can_pickup {
            match best_int {
                Option::Some(l) => Option::Some(crate::model::ActionOrder::Pickup {
                    loot: l.id,
                }),
                Option::None => Option::None,
            }
        } else {
            Option::None
        };
        proof {
            assert(traces@ == crate::util::spec_traces(w0.projectiles@));
            assert(is_travel_goal(w0, *unit, goal));
        }
        UnitOrder {
            target_velocity: steer(unit.position, move_to),
            target_direction: rotation,
            action,
        }
    }
}

} // verus!

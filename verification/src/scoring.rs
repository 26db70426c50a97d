//! Scoring terms shared by several behaviours: the zone-safety penalty,
//! the ally-collision penalty and the ally-cohesion (magnet) pull.

use vstd::prelude::*;

use crate::geom::{spec_distance, Vec2};
use crate::model::{spawned_fellow_pred, Game, Unit, Zone};

verus! {

/// `x` is the closest-to-`from` candidate, the earliest on ties.
pub open spec fn is_first_min_fellow(cands: Seq<Unit>, from: Vec2, x: Unit) -> bool {
    exists|i: int| 0 <= i < cands.len() && cands[i] == x
        && (forall|j: int| 0 <= j < cands.len()
            ==> spec_distance(from, (#[trigger] cands[j]).position)
                >= spec_distance(from, x.position))
        && (forall|j: int| 0 <= j < i
            ==> spec_distance(from, (#[trigger] cands[j]).position)
                > spec_distance(from, x.position))
}

/// The closest-first-on-ties candidate is unique.
pub proof fn lemma_first_min_unique(cands: Seq<Unit>, from: Vec2, x1: Unit, x2: Unit)
    requires
        is_first_min_fellow(cands, from, x1),
        is_first_min_fellow(cands, from, x2),
    ensures
        x1 == x2,
{
    let i1 = choose|i: int| 0 <= i < cands.len() && cands[i] == x1
        && (forall|j: int| 0 <= j < cands.len()
            ==> spec_distance(from, (#[trigger] cands[j]).position)
                >= spec_distance(from, x1.position))
        && (forall|j: int| 0 <= j < i
            ==> spec_distance(from, (#[trigger] cands[j]).position)
                > spec_distance(from, x1.position));
    let i2 = choose|i: int| 0 <= i < cands.len() && cands[i] == x2
        && (forall|j: int| 0 <= j < cands.len()
            ==> spec_distance(from, (#[trigger] cands[j]).position)
                >= spec_distance(from, x2.position))
        && (forall|j: int| 0 <= j < i
            ==> spec_distance(from, (#[trigger] cands[j]).position)
                > spec_distance(from, x2.position));
    if i1 < i2 {
        assert(spec_distance(from, cands[i1].position) > spec_distance(from, x2.position));
        assert(spec_distance(from, cands[i2].position) >= spec_distance(from, x1.position));
    } else if i2 < i1 {
        assert(spec_distance(from, cands[i2].position) > spec_distance(from, x1.position));
        assert(spec_distance(from, cands[i1].position) >= spec_distance(from, x2.position));
    }
}

/// The other spawned unit of my team closest to `u`, if any.
pub open spec fn spec_closest_fellow(game: Game, u: Unit) -> Option<Unit> {
    let cands = game.units@.filter(spawned_fellow_pred(game.my_id, u.id));
    if cands.len() == 0 {
        Option::None
    } else {
        Option::Some(choose|x: Unit| is_first_min_fellow(cands, u.position, x))
    }
}

/// The executable closest-fellow search agrees with its specification.
pub fn closest_fellow(unit: &Unit, game: &Game) -> (r: Option<Unit>)
    requires
        unit.position.in_arena(),
        forall|i: int| 0 <= i < game.units.len()
            ==> (#[trigger] game.units[i]).position.in_arena(),
    ensures
        r == spec_closest_fellow(*game, *unit),
        (match r {
            Option::Some(o) => o.position.in_arena(),
            Option::None => true,
        }),
{
    let found = unit.my_closest_other_unit(game);
    let ghost cands = game.units@.filter(spawned_fellow_pred(game.my_id, unit.id));
    match found {
        Option::None => Option::None,
        Option::Some((d, u)) => {
            proof {
                assert(is_first_min_fellow(cands, unit.position, u));
                let x = choose|x: Unit| is_first_min_fellow(cands, unit.position, x);
                lemma_first_min_unique(cands, unit.position, u, x);
                let i = choose|i: int| 0 <= i < cands.len() && cands[i] == u;
                crate::fight_sim::lemma_filter_elem_of(game.units@,
                    spawned_fellow_pred(game.my_id, unit.id), i);
            }
            Option::Some(u)
        },
    }
}

/// Zone-safety penalty of a point: heavy once the point sits in the
/// outer tenth of the current safe circle.
pub open spec fn spec_zone_penalty(zone: Zone, p: Vec2) -> int {
    let d = spec_distance(p, zone.current_center);
    if 10 * d > 9 * zone.current_radius {
        d * 50
    } else {
        0
    }
}

pub fn zone_penalty(p: &Vec2, zone: &Zone) -> (r: i64)
    requires
        p.valid(),
        zone.valid(),
    ensures
        r == spec_zone_penalty(*zone, *p),
        0 <= r <= 50 * crate::geom::DIST_MAX,
{
    let d = p.distance(&zone.current_center);
    if 10 * d > 9 * zone.current_radius {
        d * 50
    } else {
        0
    }
}

/// Ally-collision penalty of a point: grows as the closest fellow's
/// distance to it falls under five units.
pub open spec fn spec_collision_score(game: Game, u: Unit, p: Vec2) -> int {
    match spec_closest_fellow(game, u) {
        Option::None => 0,
        Option::Some(o) => {
            let d = spec_distance(o.position, p);
            if d <= 5_000 {
                5_000 - d
            } else {
                0
            }
        },
    }
}

pub fn my_units_collision_score(p: &Vec2, unit: &Unit, game: &Game) -> (r: i64)
    requires
        p.valid(),
        unit.position.in_arena(),
        forall|i: int| 0 <= i < game.units.len()
            ==> (#[trigger] game.units[i]).position.in_arena(),
    ensures
        r == spec_collision_score(*game, *unit, *p),
        0 <= r <= 5_000,
{
    match closest_fellow(unit, game) {
        Option::None => 0,
        Option::Some(o) => {
            let d = o.position.distance(p);
            if d <= 5_000 {
                5_000 - d
            } else {
                0
            }
        },
    }
}

/// Ally-cohesion pull of a point: half the closest fellow's distance
/// to it (more is farther from support).
pub open spec fn spec_magnet_score(game: Game, u: Unit, p: Vec2) -> int {
    match spec_closest_fellow(game, u) {
        Option::None => 0,
        Option::Some(o) => spec_distance(o.position, p) / 2,
    }
}

pub fn my_units_magnet_score(p: &Vec2, unit: &Unit, game: &Game) -> (r: i64)
    requires
        p.valid(),
        unit.position.in_arena(),
        forall|i: int| 0 <= i < game.units.len()
            ==> (#[trigger] game.units[i]).position.in_arena(),
    ensures
        r == spec_magnet_score(*game, *unit, *p),
        0 <= r <= crate::geom::DIST_MAX,
{
    match closest_fellow(unit, game) {
        Option::None => 0,
        Option::Some(o) => {
            let d = o.position.distance(p);
            d / 2
        },
    }
}

} // verus!

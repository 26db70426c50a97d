//! Line-of-sight occlusion, projectile forward-simulation, and the
//! projected-bullet danger score.

use vstd::prelude::*;

use crate::geom::{spec_distance, sq_dist, Vec2, COORD_MAX, DIST_MAX};
use crate::model::{Constants, Obstacle, Projectile, Unit, AMMO_SLOTS, RADIUS_MAX};

verus! {

/// Whether the obstacle blocks the segment from `a` to `b`: the obstacle
/// must be solid, lie in the segment's bounding box grown by its radius,
/// and the line through `a` and `b` must pass its center closer than its
/// radius. Distance-to-line is compared exactly by squaring:
/// `|cross| / |b - a| < radius  <=>  cross^2 < radius^2 * |b - a|^2`.
pub open spec fn blocks(o: Obstacle, a: Vec2, b: Vec2) -> bool {
    let minx = if a.x < b.x { a.x as int } else { b.x as int };
    let maxx = if a.x >= b.x { a.x as int } else { b.x as int };
    let miny = if a.y < b.y { a.y as int } else { b.y as int };
    let maxy = if a.y >= b.y { a.y as int } else { b.y as int };
    let cross = (b.x - a.x) * (a.y - o.position.y) - (a.x - o.position.x) * (b.y - a.y);
    &&& !o.can_shoot_through
    &&& minx - o.radius <= o.position.x <= maxx + o.radius
    &&& miny - o.radius <= o.position.y <= maxy + o.radius
    &&& !(a == b)
    &&& cross * cross < o.radius * o.radius * sq_dist(a, b)
}

/// Whether any obstacle in the list blocks the segment.
pub open spec fn spec_does_intersect(a: Vec2, b: Vec2, obstacles: Seq<Obstacle>) -> bool {
    exists|i: int| 0 <= i < obstacles.len() && blocks(#[trigger] obstacles[i], a, b)
}

/// Whether `o` blocks the segment from `a` to `b`; exact mirror of `blocks`.
pub(crate) fn blocks_exec(o: &Obstacle, a: Vec2, b: Vec2) -> (r: bool)
    requires
        o.valid(),
        a.valid(),
        b.valid(),
    ensures
        r == blocks(*o, a, b),
{
    if o.can_shoot_through {
        return false;
    }
    let minx = if a.x < b.x { a.x } else { b.x };
    let maxx = if a.x >= b.x { a.x } else { b.x };
    let miny = if a.y < b.y { a.y } else { b.y };
    let maxy = if a.y >= b.y { a.y } else { b.y };
    if !(minx - o.radius <= o.position.x && o.position.x <= maxx + o.radius) {
        return false;
    }
    if !(miny - o.radius <= o.position.y && o.position.y <= maxy + o.radius) {
        return false;
    }
    if a.x == b.x && a.y == b.y {
        return false;
    }
    let dx = b.x - a.x;
    let dy = b.y - a.y;
    let ox = a.x - o.position.x;
    let oy = a.y - o.position.y;
    proof {
        assert(-64_000_000_000_000 <= dx * oy <= 64_000_000_000_000
            && -64_000_000_000_000 <= ox * dy <= 64_000_000_000_000
            && -128_000_000_000_000 <= dx * oy - ox * dy <= 128_000_000_000_000
            && 0 <= (dx * oy - ox * dy) * (dx * oy - ox * dy)
                <= 16_384_000_000_000_000_000_000_000_000) by (nonlinear_arith)
            requires
                -8_000_000 <= dx <= 8_000_000,
                -8_000_000 <= dy <= 8_000_000,
                -8_000_000 <= ox <= 8_000_000,
                -8_000_000 <= oy <= 8_000_000,
        {
        }
        assert(0 <= o.radius * o.radius <= 1_000_000_000_000
            && 0 <= dx * dx <= 64_000_000_000_000
            && 0 <= dy * dy <= 64_000_000_000_000
            && 0 <= dx * dx + dy * dy <= 128_000_000_000_000
            && 0 <= (o.radius * o.radius) * (dx * dx + dy * dy)
                <= 128_000_000_000_000_000_000_000_000) by (nonlinear_arith)
            requires
                0 <= o.radius <= RADIUS_MAX,
                -8_000_000 <= dx <= 8_000_000,
                -8_000_000 <= dy <= 8_000_000,
        {
        }
    }
    let cross: i128 = (dx as i128) * (oy as i128) - (ox as i128) * (dy as i128);
    let cross2: i128 = cross * cross;
    let len2: i128 = (dx as i128) * (dx as i128) + (dy as i128) * (dy as i128);
    let rad2: i128 = (o.radius as i128) * (o.radius as i128);
    let blocked = cross2 < rad2 * len2;
    proof {
        assert(sq_dist(a, b) == dx * dx + dy * dy) by (nonlinear_arith)
            requires
                dx == b.x - a.x,
                dy == b.y - a.y,
        {
        }
    }
    blocked
}

/// Whether the segment from `v1` to `v2` is blocked by any obstacle.
pub fn does_intersect_vec(v1: &Vec2, v2: &Vec2, obstacles: &Vec<Obstacle>) -> (r: bool)
    requires
        v1.valid(),
        v2.valid(),
        forall|i: int| 0 <= i < obstacles.len() ==> (#[trigger] obstacles[i]).valid(),
    ensures
        r == spec_does_intersect(*v1, *v2, obstacles@),
{
    does_intersect(v1.x, v1.y, v2.x, v2.y, obstacles)
}

/// Coordinate form of `does_intersect_vec`.
pub fn does_intersect(x1: i64, y1: i64, x2: i64, y2: i64, obstacles: &Vec<Obstacle>) -> (r: bool)
    requires
        (Vec2 { x: x1, y: y1 }).valid(),
        (Vec2 { x: x2, y: y2 }).valid(),
        forall|i: int| 0 <= i < obstacles.len() ==> (#[trigger] obstacles[i]).valid(),
    ensures
        r == spec_does_intersect(Vec2 { x: x1, y: y1 }, Vec2 { x: x2, y: y2 }, obstacles@),
{
    let a = Vec2 { x: x1, y: y1 };
    let b = Vec2 { x: x2, y: y2 };
    for i in 0..obstacles.len()
        invariant
            a == (Vec2 { x: x1, y: y1 }),
            b == (Vec2 { x: x2, y: y2 }),
            a.valid(),
            b.valid(),
            forall|k: int| 0 <= k < obstacles.len() ==> (#[trigger] obstacles[k]).valid(),
            forall|k: int| 0 <= k < i ==> !blocks(#[trigger] obstacles@[k], a, b),
    {
        if blocks_exec(&obstacles[i], a, b) {
            proof {
                assert(blocks(obstacles@[i as int], a, b));
                assert(spec_does_intersect(a, b, obstacles@));
            }
            return true;
        }
    }
    false
}

/// The projectile as it will stand `t` ticks from now.
pub open spec fn advanced(p: Projectile, t: int) -> Projectile {
    Projectile {
        position: Vec2 {
            x: (p.position.x + p.velocity.x * t) as i64,
            y: (p.position.y + p.velocity.y * t) as i64,
        },
        life_ticks: (p.life_ticks - t) as i64,
        ..p
    }
}

/// The forward trace of one projectile: its states after 1, 2, ...
/// `life_ticks` ticks.
pub open spec fn trace_of(p: Projectile) -> Seq<Projectile> {
    Seq::new(p.life_ticks as nat, |t: int| advanced(p, t + 1))
}

/// The traces of all projectiles, concatenated in order.
pub open spec fn spec_traces(ps: Seq<Projectile>) -> Seq<Projectile>
    decreases ps.len(),
{
    if ps.len() == 0 {
        Seq::empty()
    } else {
        spec_traces(ps.drop_last()) + trace_of(ps.last())
    }
}

/// Every future position of every projectile, used for danger scoring.
/// A projectile's total travel is bounded by its validity, so every
/// trace point stays in the working range.
pub fn get_projectile_traces(projectiles: &Vec<Projectile>) -> (r: Vec<Projectile>)
    requires
        forall|i: int| 0 <= i < projectiles.len()
            ==> (#[trigger] projectiles[i]).valid(AMMO_SLOTS as int),
    ensures
        r@ == spec_traces(projectiles@),
        forall|j: int| 0 <= j < r@.len() ==> (#[trigger] r@[j]).position.valid(),
        forall|j: int| 0 <= j < r@.len() ==> (#[trigger] r@[j]).weapon_type_index < AMMO_SLOTS,
{
    let mut r: Vec<Projectile> = Vec::new();
    for i in 0..projectiles.len()
        invariant
            forall|k: int| 0 <= k < projectiles.len()
                ==> (#[trigger] projectiles[k]).valid(AMMO_SLOTS as int),
            r@ == spec_traces(projectiles@.take(i as int)),
            forall|j: int| 0 <= j < r@.len() ==> (#[trigger] r@[j]).position.valid(),
            forall|j: int| 0 <= j < r@.len() ==> (#[trigger] r@[j]).weapon_type_index < AMMO_SLOTS,
    {
        let p = projectiles[i];
        let ghost before = r@;
        let mut t: i64 = 1;
        while t <= p.life_ticks
            invariant
                p.valid(AMMO_SLOTS as int),
                1 <= t <= p.life_ticks + 1,
                r@ == before + trace_of(p).take(t - 1),
                forall|j: int| 0 <= j < r@.len() ==> (#[trigger] r@[j]).position.valid(),
                forall|j: int| 0 <= j < r@.len()
                    ==> (#[trigger] r@[j]).weapon_type_index < AMMO_SLOTS,
            decreases p.life_ticks + 1 - t,
        {
            proof {
                assert(-1_000_000 <= p.velocity.x * t <= 1_000_000
                    && -1_000_000 <= p.velocity.y * t <= 1_000_000) by (nonlinear_arith)
                    requires
                        1 <= t <= p.life_ticks,
                        -1_000_000 <= p.velocity.x * p.life_ticks <= 1_000_000,
                        -1_000_000 <= p.velocity.y * p.life_ticks <= 1_000_000,
                        -10_000 <= p.velocity.x <= 10_000,
                        -10_000 <= p.velocity.y <= 10_000,
                {
                }
            }
            let q = Projectile {
                position: Vec2 {
                    x: p.position.x + p.velocity.x * t,
                    y: p.position.y + p.velocity.y * t,
                },
                life_ticks: p.life_ticks - t,
                ..p
            };
            r.push(q);
            proof {
                assert(q == trace_of(p)[t - 1]);
                assert(trace_of(p).take(t as int)
                    =~= trace_of(p).take(t - 1).push(trace_of(p)[t - 1]));
                assert(before + trace_of(p).take(t - 1).push(trace_of(p)[t - 1])
                    =~= (before + trace_of(p).take(t - 1)).push(trace_of(p)[t - 1]));
            }
            t = t + 1;
        }
        proof {
            assert(trace_of(p).take(p.life_ticks as int) =~= trace_of(p));
            assert(projectiles@.take(i + 1).drop_last() =~= projectiles@.take(i as int));
            assert(projectiles@.take(i + 1).last() == p);
            assert(r@ == spec_traces(projectiles@.take(i + 1)));
        }
    }
    proof {
        assert(projectiles@.take(projectiles@.len() as int) =~= projectiles@);
    }
    r
}

/// The danger score at `pos`: for each projectile whose trace passes
/// within a tenth of a unit of the unit's circle there, its weapon
/// damage counts once, and the sum is heavily weighted.
pub open spec fn spec_bullet_trace_score(bullets: Seq<Projectile>, seen: Set<i64>, pos: Vec2,
    cons: Constants) -> int
    decreases bullets.len(),
{
    if bullets.len() == 0 {
        0
    } else {
        let b = bullets[0];
        let rest = bullets.drop_first();
        if spec_distance(b.position, pos) <= cons.unit_radius + 100 && !seen.contains(b.id) {
            cons.weapons[b.weapon_type_index as int].projectile_damage * 10_000
                + spec_bullet_trace_score(rest, seen.insert(b.id), pos, cons)
        } else {
            spec_bullet_trace_score(rest, seen, pos, cons)
        }
    }
}

/// Whether the id list contains the given id.
pub fn contains_id(v: &Vec<i64>, id: i64) -> (r: bool)
    ensures
        r == v@.contains(id),
{
    for i in 0..v.len()
        invariant
            forall|k: int| 0 <= k < i ==> v@[k] != id,
    {
        if v[i] == id {
            return true;
        }
    }
    false
}

/// Executable twin of `spec_bullet_trace_score` (with no ids seen yet).
pub fn bullet_trace_score(bullets: &Vec<Projectile>, pos: &Vec2, cons: &Constants) -> (r: i128)
    requires
        cons.valid(),
        pos.valid(),
        forall|i: int| 0 <= i < bullets.len() ==> (#[trigger] bullets[i]).position.valid(),
        forall|i: int| 0 <= i < bullets.len()
            ==> (#[trigger] bullets[i]).weapon_type_index < cons.weapons.len(),
    ensures
        r == spec_bullet_trace_score(bullets@, Set::empty(), *pos, *cons),
        0 <= r <= bullets@.len() * 10_000_000_000,
{
    let mut seen: Vec<i64> = Vec::new();
    let ghost gseen = Set::<i64>::empty();
    let mut acc: i128 = 0;
    let mut i: usize = 0;
    proof {
        assert(bullets@.skip(0) =~= bullets@);
    }
    while i < bullets.len()
        invariant
            cons.valid(),
            pos.valid(),
            forall|k: int| 0 <= k < bullets.len()
                ==> (#[trigger] bullets[k]).position.valid(),
            forall|k: int| 0 <= k < bullets.len()
                ==> (#[trigger] bullets[k]).weapon_type_index < cons.weapons.len(),
            0 <= i <= bullets.len(),
            forall|x: i64| gseen.contains(x) == seen@.contains(x),
            0 <= acc <= (i as int) * 10_000_000_000,
            spec_bullet_trace_score(bullets@, Set::empty(), *pos, *cons)
                == acc + spec_bullet_trace_score(bullets@.skip(i as int), gseen, *pos, *cons),
        decreases bullets.len() - i,
    {
        let b = bullets[i];
        let ghost rest = bullets@.skip(i as int);
        proof {
            assert(rest[0] == bullets@[i as int]);
            assert(rest.drop_first() =~= bullets@.skip(i + 1));
        }
        let d = b.position.distance(pos);
        let near = d <= cons.unit_radius + 100;
        if near && !contains_id(&seen, b.id) {
            let dmg = cons.weapons[b.weapon_type_index].projectile_damage;
            acc = acc + (dmg as i128) * 10_000;
            let ghost old_seen = seen@;
            seen.push(b.id);
            proof {
                gseen = gseen.insert(b.id);
                assert forall|x: i64| gseen.contains(x) == seen@.contains(x) by {
                    if seen@.contains(x) {
                        let j = choose|j: int| 0 <= j < seen@.len() && seen@[j] == x;
                        if j < seen@.len() - 1 {
                            assert(old_seen[j] == x);
                            assert(old_seen.contains(x));
                        }
                    }
                    if gseen.contains(x) && x != b.id {
                        assert(old_seen.contains(x));
                        let j = choose|j: int| 0 <= j < old_seen.len() && old_seen[j] == x;
                        assert(seen@[j] == x);
                        assert(seen@.contains(x));
                    }
                    if x == b.id {
                        assert(seen@[seen@.len() - 1] == x);
                        assert(seen@.contains(x));
                    }
                }
            }
        }
        i = i + 1;
    }
    proof {
        assert(bullets@.skip(bullets@.len() as int) =~= Seq::<Projectile>::empty());
    }
    acc
}


/// A unit seen as a round solid obstacle of one unit radius.
pub open spec fn unit_obst(u: Unit, cons: Constants) -> Obstacle {
    Obstacle { id: u.id, position: u.position, radius: cons.unit_radius,
        can_shoot_through: false }
}

/// Whether the segment from `a` to `b` passes through one of the units.
pub open spec fn spec_intersects_units(a: Vec2, b: Vec2, units: Seq<Unit>, cons: Constants)
    -> bool {
    exists|i: int| 0 <= i < units.len() && blocks(unit_obst(#[trigger] units[i], cons), a, b)
}

pub fn intersects_with_units_vec(a: &Vec2, b: &Vec2, units: &Vec<Unit>, cons: &Constants)
    -> (r: bool)
    requires
        cons.valid(),
        a.valid(),
        b.valid(),
        forall|i: int| 0 <= i < units.len() ==> (#[trigger] units[i]).position.in_arena(),
    ensures
        r == spec_intersects_units(*a, *b, units@, *cons),
{
    let mut i: usize = 0;
    while i < units.len()
        invariant
            cons.valid(),
            a.valid(),
            b.valid(),
            forall|k: int| 0 <= k < units.len()
                ==> (#[trigger] units[k]).position.in_arena(),
            0 <= i <= units@.len(),
            forall|k: int| 0 <= k < i
                ==> !blocks(unit_obst(#[trigger] units@[k], *cons), *a, *b),
        decreases units@.len() - i,
    {
        let o = Obstacle {
            id: units[i].id,
            position: units[i].position,
            radius: cons.unit_radius,
            can_shoot_through: false,
        };
        if blocks_exec(&o, *a, *b) {
            proof {
                assert(o == unit_obst(units@[i as int], *cons));
                assert(spec_intersects_units(*a, *b, units@, *cons));
            }
            return true;
        }
        i = i + 1;
    }
    false
}


/// Trace entries keep their projectile's weapon type and a usable
/// position, for any weapon-table size the projectiles respect.
pub proof fn lemma_traces_valid(ps: Seq<Projectile>, n: int)
    requires
        forall|i: int| 0 <= i < ps.len() ==> (#[trigger] ps[i]).valid(n),
    ensures
        forall|j: int| 0 <= j < spec_traces(ps).len()
            ==> (#[trigger] spec_traces(ps)[j]).weapon_type_index < n
                && spec_traces(ps)[j].position.valid(),
    decreases ps.len(),
{
    if ps.len() > 0 {
        assert(forall|i: int| 0 <= i < ps.drop_last().len()
            ==> #[trigger] ps.drop_last()[i] == ps[i]);
        lemma_traces_valid(ps.drop_last(), n);
        let whole = spec_traces(ps);
        let front = spec_traces(ps.drop_last());
        let tail = trace_of(ps.last());
        assert forall|j: int| 0 <= j < whole.len()
            implies (#[trigger] whole[j]).weapon_type_index < n
                && whole[j].position.valid() by {
            if j < front.len() {
                assert(whole[j] == front[j]);
            } else {
                assert(whole[j] == tail[j - front.len()]);
                let t = j - front.len();
                let p = ps.last();
                assert(tail[t] == advanced(p, t + 1));
                assert(1 <= t + 1 <= p.life_ticks);
                assert(-1_000_000 <= p.velocity.x * (t + 1) <= 1_000_000
                    && -1_000_000 <= p.velocity.y * (t + 1) <= 1_000_000)
                    by (nonlinear_arith)
                    requires
                        1 <= t + 1 <= p.life_ticks,
                        -10_000 <= p.velocity.x <= 10_000,
                        -10_000 <= p.velocity.y <= 10_000,
                        -1_000_000 <= p.velocity.x * p.life_ticks <= 1_000_000,
                        -1_000_000 <= p.velocity.y * p.life_ticks <= 1_000_000,
                {
                }
            }
        }
    }
}

} // verus!

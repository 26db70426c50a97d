//! Geometry kernel: 2D fixed-point vectors, exact integer square root,
//! and truncating division helpers used by every component above it.
//!
//! Coordinates are in milli-units. A "unit vector" has length close to
//! `DIR_SCALE` (1000), so scaling by a unit vector divides by `DIR_SCALE`.

use vstd::prelude::*;

verus! {

/// Scale of fixed-point values: 1000 fixed-point steps per game unit.
pub const DIR_SCALE: i64 = 1_000;

/// Largest coordinate magnitude (in milli-units) the engine accepts.
pub const COORD_MAX: i64 = 4_000_000;

/// Largest distance between two in-range points, rounded up.
pub const DIST_MAX: i64 = 12_000_000;

/// Entities of the game stay within this coordinate magnitude; the
/// working range `COORD_MAX` leaves room for points derived from them.
pub const ARENA_MAX: i64 = 2_000_000;

/// Cosine scale: spec_cos results are in -COS_SCALE..=COS_SCALE.
pub const COS_SCALE: i64 = 1_000;

/// Milli-radians in a quarter turn.
pub const QUARTER_TURN: i64 = 1_571;

/// Milli-radians in a half turn.
pub const HALF_TURN: i64 = 3_142;

pub open spec fn in_coord(v: int) -> bool {
    -COORD_MAX <= v <= COORD_MAX
}

pub open spec fn in_arena_coord(v: int) -> bool {
    -ARENA_MAX <= v <= ARENA_MAX
}

/// A 2D vector in milli-units.
#[derive(Clone, Copy, PartialEq, Eq, Structural, Debug)]
pub struct Vec2 {
    pub x: i64,
    pub y: i64,
}

/// `r` is the integer square root of `n`.
pub open spec fn is_sqrt(n: int, r: int) -> bool {
    0 <= r && r * r <= n && n < (r + 1) * (r + 1)
}

/// The integer square root (rounded down) of a non-negative integer.
pub open spec fn sqrt_of(n: int) -> int {
    choose|r: int| is_sqrt(n, r)
}

/// Integer square roots are unique, so any witness equals `sqrt_of`.
pub proof fn lemma_sqrt_unique(n: int, r: int)
    requires
        is_sqrt(n, r),
    ensures
        sqrt_of(n) == r,
{
    assert(is_sqrt(n, sqrt_of(n))) by {
        assert(exists|q: int| is_sqrt(n, q));
    }
    let s = sqrt_of(n);
    assert(s == r) by (nonlinear_arith)
        requires
            is_sqrt(n, r),
            is_sqrt(n, s),
    {
    }
}

/// Truncating (round-toward-zero) division, the behaviour of `/` on
/// machine integers; spec-level `/` is Euclidean, hence this wrapper.
pub open spec fn tdiv(a: int, b: int) -> int {
    if a >= 0 {
        a / b
    } else {
        -((-a) / b)
    }
}

/// Binary-search integer square root.
pub fn isqrt(n: u64) -> (r: u64)
    ensures
        is_sqrt(n as int, r as int),
        r == sqrt_of(n as int),
{
    let mut lo: u64 = 0;
    let mut hi: u64 = 4_294_967_296;
    while lo + 1 < hi
        invariant
            lo < hi <= 4_294_967_296,
            (lo as int) * (lo as int) <= n as int,
            (n as int) < (hi as int) * (hi as int),
        decreases hi - lo,
    {
        let mid = lo + (hi - lo) / 2;
        proof {
            assert(0 <= mid * mid <= 4_294_967_296 * 4_294_967_296) by (nonlinear_arith)
                requires
                    0 <= mid <= 4_294_967_296,
            {
            }
        }
        if (mid as u128) * (mid as u128) <= n as u128 {
            lo = mid;
        } else {
            hi = mid;
        }
    }
    proof {
        lemma_sqrt_unique(n as int, lo as int);
    }
    lo
}

/// Truncating division of a possibly negative value by a positive one.
pub fn div_trunc(a: i64, b: i64) -> (r: i64)
    requires
        b > 0,
        a > i64::MIN,
    ensures
        r == tdiv(a as int, b as int),
        a >= 0 ==> 0 <= r <= a,
        a < 0 ==> a <= r <= 0,
{
    if a >= 0 {
        let q = (a as u64) / (b as u64);
        q as i64
    } else {
        let q = ((-a) as u64) / (b as u64);
        -(q as i64)
    }
}

/// `a * m / d`, truncated toward zero; the workhorse for rescaling vectors.
pub fn mul_div(a: i64, m: i64, d: i64) -> (r: i64)
    requires
        d > 0,
        -COORD_MAX <= a <= COORD_MAX,
        0 <= m <= DIST_MAX,
    ensures
        r == tdiv(a * m, d as int),
        -COORD_MAX * DIST_MAX <= r <= COORD_MAX * DIST_MAX,
{
    if a >= 0 {
        proof {
            assert(0 <= a * m <= COORD_MAX * DIST_MAX) by (nonlinear_arith)
                requires
                    0 <= a <= COORD_MAX,
                    0 <= m <= DIST_MAX,
            {
            }
        }
        let p = (a as u128) * (m as u128);
        let q = p / (d as u128);
        proof {
            assert(0 <= (a * m) / (d as int) <= a * m) by (nonlinear_arith)
                requires
                    d > 0,
                    0 <= a * m,
            {
            }
        }
        q as i64
    } else {
        proof {
            assert(0 <= (-a) * m <= COORD_MAX * DIST_MAX) by (nonlinear_arith)
                requires
                    0 < -a <= COORD_MAX,
                    0 <= m <= DIST_MAX,
            {
            }
        }
        let p = ((-a) as u128) * (m as u128);
        let q = p / (d as u128);
        proof {
            assert(0 <= ((-a) * m) / (d as int) <= (-a) * m) by (nonlinear_arith)
                requires
                    d > 0,
                    0 <= (-a) * m,
            {
            }
            assert((-a) * m == -(a * m)) by (nonlinear_arith);
        }
        -(q as i64)
    }
}

/// Squared distance between two points, as a mathematical integer.
pub open spec fn sq_dist(a: Vec2, b: Vec2) -> int {
    (a.x - b.x) * (a.x - b.x) + (a.y - b.y) * (a.y - b.y)
}

/// Distance between two in-range points: `sqrt_of` their squared distance.
pub open spec fn spec_distance(a: Vec2, b: Vec2) -> int {
    sqrt_of(sq_dist(a, b))
}

impl Vec2 {
    pub open spec fn valid(self) -> bool {
        in_coord(self.x as int) && in_coord(self.y as int)
    }

    /// The tighter range game entities must stay in.
    pub open spec fn in_arena(self) -> bool {
        in_arena_coord(self.x as int) && in_arena_coord(self.y as int)
    }

    /// Distance to another point; exactly the rounded-down real distance.
    pub fn distance(&self, other: &Vec2) -> (r: i64)
        requires
            self.valid(),
            other.valid(),
        ensures
            r == spec_distance(*self, *other),
            is_sqrt(sq_dist(*self, *other), r as int),
            0 <= r <= DIST_MAX,
    {
        let dx = self.x - other.x;
        let dy = self.y - other.y;
        proof {
            assert(dx * dx + dy * dy <= 2 * (2 * COORD_MAX) * (2 * COORD_MAX)
                && dx * dx >= 0 && dy * dy >= 0) by (nonlinear_arith)
                requires
                    -2 * COORD_MAX <= dx <= 2 * COORD_MAX,
                    -2 * COORD_MAX <= dy <= 2 * COORD_MAX,
            {
            }
        }
        let sq = (dx as i128) * (dx as i128) + (dy as i128) * (dy as i128);
        let r = isqrt(sq as u64);
        proof {
            assert(r <= DIST_MAX) by (nonlinear_arith)
                requires
                    is_sqrt(sq as int, r as int),
                    sq as int <= 2 * (2 * COORD_MAX) * (2 * COORD_MAX),
            {
            }
        }
        r as i64
    }

    /// Length of the vector, seen as an offset from the origin.
    pub fn len(&self) -> (r: i64)
        requires
            self.valid(),
        ensures
            r == spec_distance(*self, Vec2 { x: 0, y: 0 }),
            is_sqrt(sq_dist(*self, Vec2 { x: 0, y: 0 }), r as int),
            0 <= r <= DIST_MAX,
    {
        self.distance(&Vec2 { x: 0, y: 0 })
    }
}

} // verus!

verus! {

/// Quadratic fixed-point approximation of cosine on milli-radians,
/// scaled by `COS_SCALE`; exact mirror of the executable `cos_mrad`.
/// It is monotonically decreasing on a half turn, which is all the
/// vision test needs.
pub open spec fn spec_cos_mrad(x: int) -> int {
    let a = if x >= 0 { x } else { -x };
    if a <= QUARTER_TURN {
        COS_SCALE - (a * a) / 2467
    } else if a <= HALF_TURN {
        -(COS_SCALE - ((HALF_TURN - a) * (HALF_TURN - a)) / 2467)
    } else {
        -COS_SCALE
    }
}

/// Fixed-point cosine of an angle in milli-radians.
pub fn cos_mrad(x: i64) -> (r: i64)
    requires
        -100_000 <= x <= 100_000,
    ensures
        r == spec_cos_mrad(x as int),
        -COS_SCALE <= r <= COS_SCALE,
{
    let a = if x >= 0 { x } else { -x };
    if a <= QUARTER_TURN {
        proof {
            assert(0 <= a * a <= QUARTER_TURN * QUARTER_TURN) by (nonlinear_arith)
                requires
                    0 <= a <= QUARTER_TURN,
            {
            }
            assert((a * a) / 2467 <= QUARTER_TURN * QUARTER_TURN / 2467) by (nonlinear_arith)
                requires
                    0 <= a * a <= QUARTER_TURN * QUARTER_TURN,
            {
            }
        }
        COS_SCALE - (a * a) / 2467
    } else if a <= HALF_TURN {
        let b = HALF_TURN - a;
        proof {
            assert(0 <= b * b <= QUARTER_TURN * QUARTER_TURN) by (nonlinear_arith)
                requires
                    0 <= b <= QUARTER_TURN,
            {
            }
            assert((b * b) / 2467 <= QUARTER_TURN * QUARTER_TURN / 2467) by (nonlinear_arith)
                requires
                    0 <= b * b <= QUARTER_TURN * QUARTER_TURN,
            {
            }
        }
        -(COS_SCALE - (b * b) / 2467)
    } else {
        -COS_SCALE
    }
}

/// Dot product of two offsets.
pub open spec fn spec_dot(a: Vec2, b: Vec2) -> int {
    a.x * b.x + a.y * b.y
}

/// Dot product of two in-range offsets.
pub fn dot(a: Vec2, b: Vec2) -> (r: i64)
    requires
        -2 * COORD_MAX <= a.x <= 2 * COORD_MAX,
        -2 * COORD_MAX <= a.y <= 2 * COORD_MAX,
        -2 * COORD_MAX <= b.x <= 2 * COORD_MAX,
        -2 * COORD_MAX <= b.y <= 2 * COORD_MAX,
    ensures
        r == spec_dot(a, b),
        -8 * COORD_MAX * COORD_MAX <= r <= 8 * COORD_MAX * COORD_MAX,
{
    proof {
        assert(-4 * COORD_MAX * COORD_MAX <= a.x * b.x <= 4 * COORD_MAX * COORD_MAX
            && -4 * COORD_MAX * COORD_MAX <= a.y * b.y <= 4 * COORD_MAX * COORD_MAX)
            by (nonlinear_arith)
            requires
                -2 * COORD_MAX <= a.x <= 2 * COORD_MAX,
                -2 * COORD_MAX <= a.y <= 2 * COORD_MAX,
                -2 * COORD_MAX <= b.x <= 2 * COORD_MAX,
                -2 * COORD_MAX <= b.y <= 2 * COORD_MAX,
        {
        }
    }
    a.x * b.x + a.y * b.y
}

/// What `rotate` returns: a point at `dist` from `center` in the
/// direction of `toward`, or `center` itself when `toward` is zero.
pub open spec fn spec_rotate(center: Vec2, toward: Vec2, dist: i64) -> Vec2 {
    let n = spec_distance(toward, Vec2 { x: 0, y: 0 });
    if n == 0 {
        center
    } else {
        Vec2 {
            x: (center.x + tdiv(toward.x * dist, n)) as i64,
            y: (center.y + tdiv(toward.y * dist, n)) as i64,
        }
    }
}

/// A point at `dist` from `center` in the direction of `toward`;
/// `center` itself when `toward` is zero-length.
pub fn rotate(center: Vec2, toward: Vec2, dist: i64) -> (r: Vec2)
    requires
        center.valid(),
        toward.valid(),
        0 <= dist <= DIST_MAX,
        -COORD_MAX <= center.x - dist,
        center.x + dist <= COORD_MAX,
        -COORD_MAX <= center.y - dist,
        center.y + dist <= COORD_MAX,
    ensures
        r == spec_rotate(center, toward, dist),
        r.valid(),
{
    let n = toward.len();
    if n == 0 {
        center
    } else {
        let ox = mul_div(toward.x, dist, n);
        let oy = mul_div(toward.y, dist, n);
        proof {
            assert(sq_dist(toward, Vec2 { x: 0, y: 0 })
                == toward.x * toward.x + toward.y * toward.y) by (nonlinear_arith);
            lemma_component_le_norm(toward.x as int, toward.y as int, n as int);
            lemma_tdiv_scale_bound(toward.x as int, dist as int, n as int);
            lemma_tdiv_scale_bound(toward.y as int, dist as int, n as int);
        }
        Vec2 { x: center.x + ox, y: center.y + oy }
    }
}

/// A component of a vector is no longer than the vector itself.
pub proof fn lemma_component_le_norm(x: int, y: int, n: int)
    requires
        is_sqrt(x * x + y * y, n),
    ensures
        x * x <= n * n,
        y * y <= n * n,
{
    assert(x * x <= n * n && y * y <= n * n) by (nonlinear_arith)
        requires
            0 <= n,
            x * x + y * y < (n + 1) * (n + 1),
    {
        assert(-(n + 1) < x < n + 1);
        assert(-n <= x <= n);
        assert(-(n + 1) < y < n + 1);
        assert(-n <= y <= n);
    }
}

/// Scaling a coordinate of a vector by `dist` and dividing by the
/// vector's length keeps it within `dist` of zero.
pub proof fn lemma_tdiv_scale_bound(c: int, dist: int, n: int)
    requires
        n > 0,
        c * c <= n * n,
        0 <= dist,
    ensures
        -dist <= tdiv(c * dist, n) <= dist,
{
    assert(-n <= c <= n) by (nonlinear_arith)
        requires
            c * c <= n * n,
            n > 0,
    {
    }
    if c >= 0 {
        assert(c * dist <= n * dist) by (nonlinear_arith)
            requires
                0 <= c <= n,
                0 <= dist,
        {
        }
        assert(0 <= (c * dist) / n && (c * dist) / n <= dist) by (nonlinear_arith)
            requires
                0 <= c * dist <= n * dist,
                n > 0,
        {
        }
    } else {
        assert((-c) * dist <= n * dist) by (nonlinear_arith)
            requires
                0 <= -c <= n,
                0 <= dist,
        {
        }
        assert(0 <= ((-c) * dist) / n && ((-c) * dist) / n <= dist) by (nonlinear_arith)
            requires
                0 <= (-c) * dist <= n * dist,
                n > 0,
        {
        }
        assert((-c) * dist == -(c * dist)) by (nonlinear_arith);
    }
}

/// Milli-scale cosine/sine pair of one ring step (36 degrees).
pub const RING_COS: i64 = 809;

/// See `RING_COS`.
pub const RING_SIN: i64 = 588;

/// Milli-scale cosine/sine pair of a small scanning turn (0.1 rad).
pub const SMALL_COS: i64 = 995;

/// See `SMALL_COS`.
pub const SMALL_SIN: i64 = 100;

/// The vector rotated by the fixed-point angle whose cosine and sine
/// (at milli scale) are `c` and `s`.
pub open spec fn spec_rot_step(v: Vec2, c: i64, s: i64) -> (int, int) {
    (tdiv(v.x * c - v.y * s, DIR_SCALE as int), tdiv(v.x * s + v.y * c, DIR_SCALE as int))
}

/// Rotate a direction vector by a fixed small angle given as a
/// milli-scale cosine/sine pair.
pub fn rot_step(v: Vec2, c: i64, s: i64) -> (r: Vec2)
    requires
        -COORD_MAX / 2 <= v.x <= COORD_MAX / 2,
        -COORD_MAX / 2 <= v.y <= COORD_MAX / 2,
        -DIR_SCALE <= c <= DIR_SCALE,
        -DIR_SCALE <= s <= DIR_SCALE,
    ensures
        r.x == spec_rot_step(v, c, s).0,
        r.y == spec_rot_step(v, c, s).1,
        r.valid(),
{
    proof {
        assert(-(COORD_MAX / 2) * DIR_SCALE <= v.x * c <= (COORD_MAX / 2) * DIR_SCALE
            && -(COORD_MAX / 2) * DIR_SCALE <= v.y * s <= (COORD_MAX / 2) * DIR_SCALE
            && -(COORD_MAX / 2) * DIR_SCALE <= v.x * s <= (COORD_MAX / 2) * DIR_SCALE
            && -(COORD_MAX / 2) * DIR_SCALE <= v.y * c <= (COORD_MAX / 2) * DIR_SCALE)
            by (nonlinear_arith)
            requires
                -COORD_MAX / 2 <= v.x <= COORD_MAX / 2,
                -COORD_MAX / 2 <= v.y <= COORD_MAX / 2,
                -DIR_SCALE <= c <= DIR_SCALE,
                -DIR_SCALE <= s <= DIR_SCALE,
        {
        }
    }
    let nx = div_trunc(v.x * c - v.y * s, DIR_SCALE);
    let ny = div_trunc(v.x * s + v.y * c, DIR_SCALE);
    proof {
        lemma_tdiv_keeps_range(v.x * c - v.y * s, COORD_MAX * DIR_SCALE as int);
        lemma_tdiv_keeps_range(v.x * s + v.y * c, COORD_MAX * DIR_SCALE as int);
    }
    Vec2 { x: nx, y: ny }
}

/// Dividing by `DIR_SCALE` brings a value of magnitude at most
/// `DIR_SCALE * bound` down to magnitude at most `bound`.
pub proof fn lemma_tdiv_keeps_range(a: int, bound: int)
    requires
        0 <= bound,
        -bound <= a <= bound,
    ensures
        -(bound / (DIR_SCALE as int)) <= tdiv(a, DIR_SCALE as int) <= bound / (DIR_SCALE as int),
{
    if a >= 0 {
        assert(a / (DIR_SCALE as int) <= bound / (DIR_SCALE as int)) by (nonlinear_arith)
            requires
                0 <= a <= bound,
        {
        }
    } else {
        assert((-a) / (DIR_SCALE as int) <= bound / (DIR_SCALE as int)) by (nonlinear_arith)
            requires
                0 <= -a <= bound,
        {
        }
    }
}


/// Every non-negative integer has an integer square root.
pub proof fn lemma_sqrt_exists(n: int)
    requires
        n >= 0,
    ensures
        is_sqrt(n, sqrt_of(n)),
    decreases n,
{
    if n == 0 {
        assert(is_sqrt(0, 0));
        assert(exists|q: int| is_sqrt(n, q));
    } else {
        lemma_sqrt_exists(n - 1);
        let r = sqrt_of(n - 1);
        if (r + 1) * (r + 1) <= n {
            assert(is_sqrt(n, r + 1)) by (nonlinear_arith)
                requires
                    is_sqrt(n - 1, r),
                    (r + 1) * (r + 1) <= n,
            {
            }
            assert(exists|q: int| is_sqrt(n, q));
        } else {
            assert(is_sqrt(n, r));
            assert(exists|q: int| is_sqrt(n, q));
        }
    }
}

/// `spec_rotate` lands within an axis-aligned box of half-width `dist`
/// around the center.
pub proof fn lemma_rotate_close(center: Vec2, toward: Vec2, dist: i64)
    requires
        center.valid(),
        0 <= dist <= DIST_MAX,
    ensures
        -dist <= spec_rotate(center, toward, dist).x - center.x <= dist,
        -dist <= spec_rotate(center, toward, dist).y - center.y <= dist,
{
    let sq = sq_dist(toward, Vec2 { x: 0, y: 0 });
    let x = toward.x as int;
    let y = toward.y as int;
    assert(sq == x * x + y * y);
    assert(x * x >= 0 && y * y >= 0) by (nonlinear_arith);
    lemma_sqrt_exists(sq);
    let n = spec_distance(toward, Vec2 { x: 0, y: 0 });
    if n != 0 {
        lemma_component_le_norm(toward.x as int, toward.y as int, n);
        lemma_tdiv_scale_bound(toward.x as int, dist as int, n);
        lemma_tdiv_scale_bound(toward.y as int, dist as int, n);
    }
}

/// Component-wise midpoint (rounded toward zero).
pub open spec fn spec_mid(a: Vec2, b: Vec2) -> Vec2 {
    Vec2 { x: tdiv(a.x + b.x, 2) as i64, y: tdiv(a.y + b.y, 2) as i64 }
}

pub fn mid(a: Vec2, b: Vec2) -> (r: Vec2)
    requires
        a.valid(),
        b.valid(),
    ensures
        r == spec_mid(a, b),
        r.valid(),
{
    Vec2 { x: div_trunc(a.x + b.x, 2), y: div_trunc(a.y + b.y, 2) }
}

} // verus!

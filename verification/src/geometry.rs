//! World coordinates. A world unit is abstract; the rules count in fixed point,
//! `SCALE` steps to the unit, so distances compare exactly.
use vstd::prelude::*;

verus! {

/// Fixed-point steps per world unit.
pub const SCALE: i64 = 1_000_000_000;
/// The largest coordinate magnitude the rules take: about a billion world units.
pub const COORD_LIMIT: i64 = 0x1000_0000_0000_0000;
/// The map is 3,000 × 2,000 world units.
pub const WORLD_WIDTH: i64 = 3_000_000_000_000;
pub const WORLD_HEIGHT: i64 = 2_000_000_000_000;

#[derive(Clone, Copy, Debug, PartialEq, Eq, Structural)]
pub struct Point {
    pub x: i64,
    pub y: i64,
}

/// Both coordinates within `COORD_LIMIT`.
pub open spec fn bounded(p: Point) -> bool {
    -COORD_LIMIT <= p.x <= COORD_LIMIT && -COORD_LIMIT <= p.y <= COORD_LIMIT
}

/// On the map, its border included.
pub open spec fn on_map(p: Point) -> bool {
    0 <= p.x <= WORLD_WIDTH && 0 <= p.y <= WORLD_HEIGHT
}

pub open spec fn dist_sq(a: Point, b: Point) -> int {
    (a.x - b.x) * (a.x - b.x) + (a.y - b.y) * (a.y - b.y)
}

/// `a` lies within `radius` of `b`, the circle included. Nothing lies within
/// a negative radius.
pub open spec fn within_spec(a: Point, b: Point, radius: int) -> bool {
    radius >= 0 && dist_sq(a, b) <= radius * radius
}

pub open spec fn is_floor_sqrt(r: int, n: int) -> bool {
    0 <= r && r * r <= n && n < (r + 1) * (r + 1)
}

/// The largest integer whose square does not exceed `n`.
pub open spec fn floor_sqrt(n: nat) -> nat {
    choose|r: nat| is_floor_sqrt(r as int, n as int)
}

/// Squares grow with magnitude.
pub proof fn lemma_square_le(a: int, b: int)
    by (nonlinear_arith)
    requires
        -b <= a <= b,
    ensures
        0 <= a * a <= b * b,
{
}

pub proof fn lemma_floor_sqrt_unique(r: int, s: int, n: int)
    requires
        is_floor_sqrt(r, n),
        is_floor_sqrt(s, n),
    ensures
        r == s,
{
    if r < s {
        assert((r + 1) * (r + 1) <= s * s) by (nonlinear_arith)
            requires
                0 <= r + 1 <= s,
        ;
    } else if s < r {
        assert((s + 1) * (s + 1) <= r * r) by (nonlinear_arith)
            requires
                0 <= s + 1 <= r,
        ;
    }
}

pub proof fn lemma_floor_sqrt_is(r: int, n: int)
    requires
        is_floor_sqrt(r, n),
    ensures
        floor_sqrt(n as nat) == r,
{
    let rn = r as nat;
    assert(is_floor_sqrt(rn as int, n));
    let c = floor_sqrt(n as nat);
    assert(is_floor_sqrt(c as int, n));
    lemma_floor_sqrt_unique(r, c as int, n);
}

/// `delta * k / steps`, rounded toward zero.
pub open spec fn along(delta: int, k: int, steps: int) -> int {
    if delta >= 0 {
        delta * k / steps
    } else {
        -((-delta) * k / steps)
    }
}

/// `delta * k / steps` for `k` of `steps`, rounded toward zero: it never
/// overshoots `delta`.
pub fn part_along(delta: i128, k: i128, steps: i128) -> (offset: i128)
    requires
        -0x2000_0000_0000_0000 <= delta <= 0x2000_0000_0000_0000,
        0 <= k <= steps,
        0 < steps <= 0x4000_0000_0000_0000,
    ensures
        offset == along(delta as int, k as int, steps as int),
        delta >= 0 ==> 0 <= offset <= delta,
        delta < 0 ==> delta <= offset <= 0,
{
    let magnitude = if delta >= 0 { delta } else { -delta };
    proof {
        assert(magnitude * k <= magnitude * steps) by (nonlinear_arith)
            requires
                k <= steps,
                magnitude >= 0,
        ;
        assert(0 <= magnitude * k) by (nonlinear_arith)
            requires
                k >= 0,
                magnitude >= 0,
        ;
        assert(magnitude * k <= 0x2000_0000_0000_0000 * 0x4000_0000_0000_0000) by (nonlinear_arith)
            requires
                0 <= magnitude <= 0x2000_0000_0000_0000,
                0 <= k <= 0x4000_0000_0000_0000,
        ;
        vstd::arithmetic::div_mod::lemma_div_is_ordered(magnitude * k, magnitude * steps, steps as int);
        vstd::arithmetic::div_mod::lemma_div_multiples_vanish(magnitude as int, steps as int);
        assert(magnitude * steps == steps * magnitude) by (nonlinear_arith);
        vstd::arithmetic::div_mod::lemma_div_pos_is_pos(magnitude * k, steps as int);
    }
    let part = magnitude * k / steps;
    if delta >= 0 {
        part
    } else {
        -part
    }
}

impl Point {
    pub fn new(x: i64, y: i64) -> (p: Point)
        ensures
            p.x == x,
            p.y == y,
    {
        Point { x, y }
    }

    /// A point given in whole world units.
    pub fn units(x: i64, y: i64) -> (p: Point)
        requires
            -1_000_000_000 <= x <= 1_000_000_000,
            -1_000_000_000 <= y <= 1_000_000_000,
        ensures
            p.x == x * SCALE,
            p.y == y * SCALE,
            bounded(p),
    {
        Point { x: x * SCALE, y: y * SCALE }
    }
}

/// Whether `a` lies within `radius` of `b`, the circle included.
pub fn within(a: Point, b: Point, radius: i64) -> (inside: bool)
    requires
        bounded(a),
        bounded(b),
    ensures
        inside == within_spec(a, b, radius as int),
{
    if radius < 0 {
        return false;
    }
    let dx: i128 = a.x as i128 - b.x as i128;
    let dy: i128 = a.y as i128 - b.y as i128;
    let r: i128 = radius as i128;
    proof {
        lemma_square_le(dx as int, 0x2000_0000_0000_0000);
        lemma_square_le(dy as int, 0x2000_0000_0000_0000);
        lemma_square_le(r as int, 0x8000_0000_0000_0000);
    }
    dx * dx + dy * dy <= r * r
}

/// The squared distance between two bounded points.
pub fn squared_distance(a: Point, b: Point) -> (d: i128)
    requires
        bounded(a),
        bounded(b),
    ensures
        d == dist_sq(a, b),
        0 <= d,
{
    let dx: i128 = a.x as i128 - b.x as i128;
    let dy: i128 = a.y as i128 - b.y as i128;
    proof {
        lemma_square_le(dx as int, 0x2000_0000_0000_0000);
        lemma_square_le(dy as int, 0x2000_0000_0000_0000);
    }
    dx * dx + dy * dy
}

/// The largest integer whose square does not exceed `n`.
pub fn isqrt(n: u128) -> (root: u128)
    requires
        n < 0x1000_0000_0000_0000_0000_0000_0000_0000,
    ensures
        is_floor_sqrt(root as int, n as int),
        root == floor_sqrt(n as nat),
        root < 0x4000_0000_0000_0000,
{
    let mut low: u128 = 0;
    let mut high: u128 = 0x4000_0000_0000_0000;
    assert(high * high == 0x1000_0000_0000_0000_0000_0000_0000_0000);
    while high - low > 1
        invariant
            low < high <= 0x4000_0000_0000_0000,
            low * low <= n,
            n < high * high,
        decreases high - low,
    {
        let middle = low + (high - low) / 2;
        proof {
            lemma_square_le(middle as int, 0x4000_0000_0000_0000);
        }
        assert(0x4000_0000_0000_0000int * 0x4000_0000_0000_0000int
            == 0x1000_0000_0000_0000_0000_0000_0000_0000int);
        if middle * middle <= n {
            low = middle;
        } else {
            high = middle;
        }
    }
    assert(high == low + 1);
    proof {
        lemma_floor_sqrt_is(low as int, n as int);
    }
    low
}

/// The distance between two bounded points, rounded down to a fixed-point step.
pub fn distance(a: Point, b: Point) -> (d: u128)
    requires
        bounded(a),
        bounded(b),
    ensures
        d == floor_sqrt(dist_sq(a, b) as nat),
        is_floor_sqrt(d as int, dist_sq(a, b)),
        d < 0x4000_0000_0000_0000,
{
    let dx: i128 = a.x as i128 - b.x as i128;
    let dy: i128 = a.y as i128 - b.y as i128;
    proof {
        lemma_square_le(dx as int, 0x2000_0000_0000_0000);
        lemma_square_le(dy as int, 0x2000_0000_0000_0000);
    }
    let sum = dx * dx + dy * dy;
    isqrt(sum as u128)
}

} // verus!

use vstd::prelude::*;

verus! {

/// Positions are kept within this many thousandths of a world unit of the origin
/// on each axis (a million world units, far beyond the play field).
pub const WORLD_LIMIT: i64 = 1_000_000_000;

/// Largest squared length that `floor_sqrt_u128` accepts.
pub const SQRT_INPUT_LIMIT: u128 = 1_000_000_000_000_000_000_000_000_000_000;

/// A point or displacement in the plane, in thousandths of a world unit.
#[derive(Clone, Copy, Debug, PartialEq, Eq, Structural)]
pub struct Vec2 {
    pub x: i64,
    pub y: i64,
}

/// Squared Euclidean norm of a vector given by its components.
pub open spec fn norm_sq(x: int, y: int) -> int {
    x * x + y * y
}

/// Squared distance between two points.
pub open spec fn dist_sq(a: Vec2, b: Vec2) -> int {
    norm_sq(a.x - b.x, a.y - b.y)
}

pub open spec fn in_world(p: Vec2) -> bool {
    -WORLD_LIMIT <= p.x <= WORLD_LIMIT && -WORLD_LIMIT <= p.y <= WORLD_LIMIT
}

pub open spec fn clamp(v: int, lo: int, hi: int) -> int {
    if v < lo {
        lo
    } else if v > hi {
        hi
    } else {
        v
    }
}

/// Division rounding toward zero, as integer division does on machine integers.
pub open spec fn trunc_div(a: int, b: int) -> int {
    if a >= 0 {
        a / b
    } else {
        -((-a) / b)
    }
}

pub open spec fn abs(a: int) -> int {
    if a >= 0 {
        a
    } else {
        -a
    }
}

/// `r` is the integer square root of `n`, rounded down.
pub open spec fn is_floor_sqrt(n: int, r: int) -> bool {
    0 <= r && r * r <= n < (r + 1) * (r + 1)
}

/// The integer square root of `n`, rounded down.
pub open spec fn floor_sqrt(n: int) -> int {
    choose|r: int| is_floor_sqrt(n, r)
}

/// The integer square root of `n`, rounded up.
pub open spec fn ceil_sqrt(n: int) -> int {
    if floor_sqrt(n) * floor_sqrt(n) == n {
        floor_sqrt(n)
    } else {
        floor_sqrt(n) + 1
    }
}

pub proof fn lemma_floor_sqrt_unique(n: int, r: int)
    requires
        is_floor_sqrt(n, r),
    ensures
        floor_sqrt(n) == r,
{
    let s = floor_sqrt(n);
    assert(is_floor_sqrt(n, s));
    if s < r {
        assert((s + 1) * (s + 1) <= r * r) by (nonlinear_arith)
            requires
                0 <= s < r,
        ;
    } else if r < s {
        assert((r + 1) * (r + 1) <= s * s) by (nonlinear_arith)
            requires
                0 <= r < s,
        ;
    }
}

/// Every natural number has an integer square root.
pub proof fn lemma_floor_sqrt_exists(n: int)
    requires
        n >= 0,
    ensures
        is_floor_sqrt(n, floor_sqrt(n)),
    decreases n,
{
    if n == 0 {
        assert(is_floor_sqrt(0, 0));
    } else {
        lemma_floor_sqrt_exists(n - 1);
        let r = floor_sqrt(n - 1);
        if (r + 1) * (r + 1) <= n {
            assert(n < (r + 2) * (r + 2)) by (nonlinear_arith)
                requires
                    (r + 1) * (r + 1) <= n,
                    n - 1 < (r + 1) * (r + 1),
                    r >= 0,
            ;
            assert(is_floor_sqrt(n, r + 1));
        } else {
            assert(is_floor_sqrt(n, r));
        }
    }
}

/// A rounded-toward-zero quotient is no larger in magnitude than the exact one.
pub proof fn lemma_trunc_div_bound(a: int, b: int)
    requires
        b > 0,
    ensures
        abs(trunc_div(a, b)) * b <= abs(a),
        abs(trunc_div(a, b)) == abs(a) / b,
        trunc_div(a, b) * a >= 0,
        a == 0 ==> trunc_div(a, b) == 0,
{
    let m = abs(a);
    assert(m / b >= 0) by (nonlinear_arith)
        requires
            m >= 0,
            b > 0,
    ;
    assert((m / b) * b <= m) by (nonlinear_arith)
        requires
            m >= 0,
            b > 0,
    ;
    if a == 0 {
        assert(0int / b == 0) by (nonlinear_arith)
            requires
                b > 0,
        ;
    }
    assert(trunc_div(a, b) * a >= 0) by (nonlinear_arith)
        requires
            a >= 0 ==> trunc_div(a, b) >= 0,
            a < 0 ==> trunc_div(a, b) <= 0,
    ;
}

pub proof fn lemma_abs_sq(a: int)
    ensures
        abs(a) * abs(a) == a * a,
{
    if a < 0 {
        assert((-a) * (-a) == a * a) by (nonlinear_arith);
    }
}

/// Componentwise absolute bound on a product.
pub proof fn lemma_square_le(a: int, bound: int)
    requires
        -bound <= a <= bound,
    ensures
        a * a <= bound * bound,
        0 <= a * a,
{
    assert(a * a <= bound * bound) by (nonlinear_arith)
        requires
            -bound <= a <= bound,
    ;
    assert(0 <= a * a) by (nonlinear_arith);
}

impl Vec2 {
    pub fn new(x: i64, y: i64) -> (r: Vec2)
        ensures
            r.x == x,
            r.y == y,
    {
        Vec2 { x, y }
    }
}

/// Division of a wide integer by a positive one, rounding toward zero.
pub fn trunc_div_i128(a: i128, b: i128) -> (r: i128)
    requires
        b > 0,
        a > i128::MIN,
    ensures
        r == trunc_div(a as int, b as int),
{
    if a >= 0 {
        a / b
    } else {
        let m: i128 = -a;
        -(m / b)
    }
}

/// Squared distance between two points of the world.
pub fn distance_sq(a: Vec2, b: Vec2) -> (r: u128)
    requires
        in_world(a),
        in_world(b),
    ensures
        r == dist_sq(a, b),
        r <= 8_000_000_000_000_000_000,
{
    let dx: i128 = a.x as i128 - b.x as i128;
    let dy: i128 = a.y as i128 - b.y as i128;
    proof {
        lemma_square_le(dx as int, 2_000_000_000);
        lemma_square_le(dy as int, 2_000_000_000);
    }
    (dx * dx + dy * dy) as u128
}

/// Integer square root of `n`, rounded down.
pub fn floor_sqrt_u128(n: u128) -> (r: u64)
    requires
        n <= SQRT_INPUT_LIMIT,
    ensures
        is_floor_sqrt(n as int, r as int),
        r as int == floor_sqrt(n as int),
        r <= 1_000_000_000_000_000,
{
    let mut lo: u64 = 0;
    let mut hi: u64 = 1_000_000_000_000_001;
    assert(1_000_000_000_000_001 * 1_000_000_000_000_001 > SQRT_INPUT_LIMIT) by (nonlinear_arith);
    while hi - lo > 1
        invariant
            lo < hi <= 1_000_000_000_000_001,
            lo as int * lo as int <= n as int,
            n < hi as int * hi as int,
        decreases hi - lo,
    {
        let mid: u64 = lo + (hi - lo) / 2;
        proof {
            lemma_square_le(mid as int, 1_000_000_000_000_001);
        }
        if (mid as u128) * (mid as u128) <= n {
            lo = mid;
        } else {
            hi = mid;
        }
    }
    proof {
        assert(hi == lo + 1);
        lemma_floor_sqrt_unique(n as int, lo as int);
        if lo > 1_000_000_000_000_000 {
            lemma_square_le(1_000_000_000_000_001, lo as int);
        }
    }
    lo
}

/// Largest magnitude of a velocity component that `clamp_norm` accepts.
pub const VELOCITY_INPUT_LIMIT: i64 = 2_000_000_000;

/// Largest speed bound that `clamp_norm` accepts.
pub const SPEED_LIMIT: i64 = 1_000_000_000;

/// `v` scaled down so that its length does not exceed `max`; `v` itself when it
/// is already short enough. Components are rounded toward zero.
pub open spec fn clamped_to_norm(v: Vec2, max: int) -> Vec2 {
    if norm_sq(v.x as int, v.y as int) <= max * max {
        v
    } else {
        let l = ceil_sqrt(norm_sq(v.x as int, v.y as int));
        Vec2 { x: trunc_div(v.x * max, l) as i64, y: trunc_div(v.y * max, l) as i64 }
    }
}

proof fn lemma_scaled_component(v: int, max: int, l: int)
    requires
        l > 0,
        max >= 0,
        v * v <= l * l,
    ensures
        abs(trunc_div(v * max, l)) <= max,
        trunc_div(v * max, l) * trunc_div(v * max, l) * (l * l) <= v * v * (max * max),
{
    let q = trunc_div(v * max, l);
    lemma_trunc_div_bound(v * max, l);
    lemma_abs_sq(q);
    lemma_abs_sq(v);
    assert(abs(v * max) == abs(v) * max) by (nonlinear_arith)
        requires
            max >= 0,
    ;
    assert(abs(v) <= l) by (nonlinear_arith)
        requires
            v * v <= l * l,
            l > 0,
    ;
    assert(abs(q) <= max) by (nonlinear_arith)
        requires
            abs(q) * l <= abs(v) * max,
            abs(v) <= l,
            l > 0,
            max >= 0,
    ;
    assert(q * q * (l * l) <= v * v * (max * max)) by (nonlinear_arith)
        requires
            0 <= abs(q) * l <= abs(v) * max,
            abs(q) * abs(q) == q * q,
            abs(v) * abs(v) == v * v,
    ;
}

/// Limits the length of `v` to `max`, keeping its direction.
pub fn clamp_norm(v: Vec2, max: i64) -> (r: Vec2)
    requires
        0 <= max <= SPEED_LIMIT,
        -VELOCITY_INPUT_LIMIT <= v.x <= VELOCITY_INPUT_LIMIT,
        -VELOCITY_INPUT_LIMIT <= v.y <= VELOCITY_INPUT_LIMIT,
    ensures
        r == clamped_to_norm(v, max as int),
        norm_sq(r.x as int, r.y as int) <= max * max,
        -max <= r.x <= max,
        -max <= r.y <= max,
{
    let vx: i128 = v.x as i128;
    let vy: i128 = v.y as i128;
    let m: i128 = max as i128;
    proof {
        lemma_square_le(vx as int, VELOCITY_INPUT_LIMIT as int);
        lemma_square_le(vy as int, VELOCITY_INPUT_LIMIT as int);
        lemma_square_le(m as int, SPEED_LIMIT as int);
    }
    let n: u128 = (vx * vx + vy * vy) as u128;
    if n <= (m * m) as u128 {
        proof {
            assert(-max <= v.x <= max) by (nonlinear_arith)
                requires
                    v.x * v.x + v.y * v.y <= max * max,
                    max >= 0,
            ;
            assert(-max <= v.y <= max) by (nonlinear_arith)
                requires
                    v.x * v.x + v.y * v.y <= max * max,
                    max >= 0,
            ;
        }
        return v;
    }
    let s: u64 = floor_sqrt_u128(n);
    let l: i128 = if (s as u128) * (s as u128) == n {
        s as i128
    } else {
        s as i128 + 1
    };
    proof {
        let ni = n as int;
        let li = l as int;
        assert(li == ceil_sqrt(ni));
        if s * s != ni {
            assert(li == s + 1);
        }
        assert(li > 0) by (nonlinear_arith)
            requires
                ni <= li * li,
                ni > 0,
                li >= 0,
        ;
        lemma_square_le(vx as int, VELOCITY_INPUT_LIMIT as int);
        assert(vx * vx <= li * li);
        assert(vy * vy <= li * li);
        lemma_scaled_component(vx as int, max as int, li);
        lemma_scaled_component(vy as int, max as int, li);
        assert(-(VELOCITY_INPUT_LIMIT as int) * SPEED_LIMIT <= vx * m <= (VELOCITY_INPUT_LIMIT as int) * SPEED_LIMIT) by (nonlinear_arith)
            requires
                -VELOCITY_INPUT_LIMIT <= vx <= VELOCITY_INPUT_LIMIT,
                0 <= m <= SPEED_LIMIT,
        ;
        assert(-(VELOCITY_INPUT_LIMIT as int) * SPEED_LIMIT <= vy * m <= (VELOCITY_INPUT_LIMIT as int) * SPEED_LIMIT) by (nonlinear_arith)
            requires
                -VELOCITY_INPUT_LIMIT <= vy <= VELOCITY_INPUT_LIMIT,
                0 <= m <= SPEED_LIMIT,
        ;
    }
    let qx: i128 = trunc_div_i128(vx * m, l);
    let qy: i128 = trunc_div_i128(vy * m, l);
    let r = Vec2 { x: qx as i64, y: qy as i64 };
    proof {
        let li = l as int;
        let mm = max as int * max as int;
        assert((qx * qx + qy * qy) * (li * li) <= (vx * vx + vy * vy) * mm) by (nonlinear_arith)
            requires
                qx * qx * (li * li) <= vx * vx * mm,
                qy * qy * (li * li) <= vy * vy * mm,
        ;
        assert(qx * qx + qy * qy <= mm) by (nonlinear_arith)
            requires
                (qx * qx + qy * qy) * (li * li) <= (vx * vx + vy * vy) * mm,
                vx * vx + vy * vy <= li * li,
                li > 0,
                mm >= 0,
        ;
    }
    r
}

} // verus!

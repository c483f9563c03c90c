use vstd::prelude::*;

use crate::geometry::{
    abs, floor_sqrt, floor_sqrt_u128, in_world, is_floor_sqrt, lemma_abs_sq, lemma_floor_sqrt_exists, lemma_square_le,
    lemma_trunc_div_bound, norm_sq, trunc_div, trunc_div_i128, Vec2,
};

verus! {

/// Strength of the central attractor: acceleration at distance `d` is `GRAVITY / d^2`,
/// in thousandths of a world unit per second squared, with `d` in thousandths of a
/// world unit.
pub const GRAVITY: i128 = 125_000_000_000_000_000;

/// Below this distance from the origin the attractor exerts no pull.
pub const MINIMUM_INFLUENCE_RADIUS: i64 = 65_000;

/// Every component of a gravitational acceleration is smaller than this.
pub const ACCEL_LIMIT: i64 = 30_000_000;

pub open spec fn gravity_component(c: int, d2: int) -> int {
    trunc_div(-c * GRAVITY, d2 * floor_sqrt(d2))
}

/// Acceleration that the central body imparts on a point at `p`: zero inside the
/// minimum influence radius, else the inverse-square pull toward the origin.
pub open spec fn gravity_at(p: Vec2) -> Vec2 {
    let d2 = norm_sq(p.x as int, p.y as int);
    if d2 < MINIMUM_INFLUENCE_RADIUS * MINIMUM_INFLUENCE_RADIUS {
        Vec2 { x: 0, y: 0 }
    } else {
        Vec2 { x: gravity_component(p.x as int, d2) as i64, y: gravity_component(p.y as int, d2) as i64 }
    }
}

proof fn lemma_gravity_component(c: int, d2: int, s: int)
    requires
        c * c <= d2,
        d2 >= MINIMUM_INFLUENCE_RADIUS * MINIMUM_INFLUENCE_RADIUS,
        is_floor_sqrt(d2, s),
    ensures
        abs(trunc_div(-c * GRAVITY, d2 * s)) < ACCEL_LIMIT,
        trunc_div(-c * GRAVITY, d2 * s) * c <= 0,
{
    let g = GRAVITY as int;
    let num = -c * g;
    assert(s >= 1) by (nonlinear_arith)
        requires
            d2 >= 1,
            d2 < (s + 1) * (s + 1),
            s >= 0,
    ;
    assert(d2 * s > 0) by (nonlinear_arith)
        requires
            d2 >= 1,
            s >= 1,
    ;
    lemma_trunc_div_bound(num, d2 * s);
    let q = trunc_div(num, d2 * s);
    lemma_abs_sq(c);
    assert(abs(c) <= s) by (nonlinear_arith)
        requires
            abs(c) * abs(c) <= d2,
            d2 < (s + 1) * (s + 1),
            s >= 0,
            abs(c) >= 0,
    ;
    assert(abs(num) == abs(c) * g) by (nonlinear_arith)
        requires
            num == -c * g,
            g > 0,
    ;
    assert(abs(q) * d2 <= g) by (nonlinear_arith)
        requires
            abs(q) * (d2 * s) <= abs(c) * g,
            abs(c) <= s,
            s >= 1,
            g > 0,
            abs(q) >= 0,
    ;
    assert(abs(q) < ACCEL_LIMIT) by (nonlinear_arith)
        requires
            abs(q) * d2 <= g,
            d2 >= MINIMUM_INFLUENCE_RADIUS * MINIMUM_INFLUENCE_RADIUS,
            g == GRAVITY,
            abs(q) >= 0,
    ;
    assert(q * c <= 0) by (nonlinear_arith)
        requires
            q * num >= 0,
            num == -c * g,
            g > 0,
    ;
}

/// Gravitational acceleration at `p`.
pub fn gravity_acceleration(p: Vec2) -> (r: Vec2)
    requires
        in_world(p),
    ensures
        r == gravity_at(p),
        -ACCEL_LIMIT < r.x < ACCEL_LIMIT,
        -ACCEL_LIMIT < r.y < ACCEL_LIMIT,
{
    let x: i128 = p.x as i128;
    let y: i128 = p.y as i128;
    proof {
        lemma_square_le(x as int, 1_000_000_000);
        lemma_square_le(y as int, 1_000_000_000);
    }
    let d2: i128 = x * x + y * y;
    if d2 < 4_225_000_000 {
        return Vec2 { x: 0, y: 0 };
    }
    let s: u64 = floor_sqrt_u128(d2 as u128);
    assert(d2 * s <= 2_000_000_000_000_000_000 * 1_000_000_000_000_000) by (nonlinear_arith)
        requires
            0 <= d2 <= 2_000_000_000_000_000_000,
            0 <= s <= 1_000_000_000_000_000,
    ;
    let denom: i128 = d2 * (s as i128);
    proof {
        lemma_gravity_component(x as int, d2 as int, s as int);
        lemma_gravity_component(y as int, d2 as int, s as int);
        assert(s >= 1) by (nonlinear_arith)
            requires
                d2 >= 1,
                d2 < (s + 1) * (s + 1),
                s >= 0,
        ;
        assert(0 < denom) by (nonlinear_arith)
            requires
                denom == d2 * s,
                d2 >= 1,
                s >= 1,
        ;
        assert(-x * GRAVITY >= -1_000_000_000 * GRAVITY) by (nonlinear_arith)
            requires
                x <= 1_000_000_000,
        ;
        assert(-x * GRAVITY <= 1_000_000_000 * GRAVITY) by (nonlinear_arith)
            requires
                x >= -1_000_000_000,
        ;
        assert(-y * GRAVITY >= -1_000_000_000 * GRAVITY) by (nonlinear_arith)
            requires
                y <= 1_000_000_000,
        ;
        assert(-y * GRAVITY <= 1_000_000_000 * GRAVITY) by (nonlinear_arith)
            requires
                y >= -1_000_000_000,
        ;
    }
    let ax: i128 = trunc_div_i128(-x * GRAVITY, denom);
    let ay: i128 = trunc_div_i128(-y * GRAVITY, denom);
    Vec2 { x: ax as i64, y: ay as i64 }
}

/// The pull vanishes inside the minimum influence radius; outside it each
/// component is finite (bounded) and points toward the origin.
pub proof fn lemma_gravity_points_to_origin(p: Vec2)
    requires
        in_world(p),
    ensures
        norm_sq(p.x as int, p.y as int) < MINIMUM_INFLUENCE_RADIUS * MINIMUM_INFLUENCE_RADIUS
            ==> gravity_at(p).x == 0 && gravity_at(p).y == 0,
        norm_sq(p.x as int, p.y as int) >= MINIMUM_INFLUENCE_RADIUS * MINIMUM_INFLUENCE_RADIUS
            ==> gravity_at(p).x * p.x <= 0 && gravity_at(p).y * p.y <= 0,
        -ACCEL_LIMIT < gravity_at(p).x < ACCEL_LIMIT,
        -ACCEL_LIMIT < gravity_at(p).y < ACCEL_LIMIT,
{
    let d2 = norm_sq(p.x as int, p.y as int);
    if d2 >= MINIMUM_INFLUENCE_RADIUS * MINIMUM_INFLUENCE_RADIUS {
        lemma_square_le(p.x as int, 1_000_000_000);
        lemma_square_le(p.y as int, 1_000_000_000);
        lemma_floor_sqrt_exists(d2);
        lemma_gravity_component(p.x as int, d2, floor_sqrt(d2));
        lemma_gravity_component(p.y as int, d2, floor_sqrt(d2));
    }
}

} // verus!

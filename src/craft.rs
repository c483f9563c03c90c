use vstd::prelude::*;

use vstd::arithmetic::div_mod::lemma_fundamental_div_mod_converse_mod;

use crate::geometry::{
    abs, clamp, clamp_norm, clamped_to_norm, in_world, lemma_trunc_div_bound, norm_sq,
    trunc_div, trunc_div_i128, Vec2, SPEED_LIMIT, WORLD_LIMIT,
};
use crate::gravity::{gravity_acceleration, gravity_at, ACCEL_LIMIT};

verus! {

/// One full turn, in thousandths of a degree.
pub const FULL_TURN: i64 = 360_000;

/// Fastest spin of a craft, in thousandths of a degree per second (70 degrees/s).
pub const MAX_ROTATION_SPEED: i64 = 70_000;

/// Change of spin per millisecond while one rotate key is held
/// (200 degrees per second squared).
pub const ROTATION_ACCEL: i64 = 200;

/// Change of speed per millisecond while thrusting or coasting
/// (50 world units per second squared).
pub const THRUST_ACCEL: i64 = 50;

/// Longest frame the simulation steps over, in milliseconds.
pub const MAX_FRAME_MS: i64 = 1000;

/// Fixed-point scale of heading vectors: a unit vector has length `UNIT`.
pub const UNIT: i64 = 1_000_000;

/// Delay between two shots of one craft, in milliseconds.
pub const FIRE_COOLDOWN_MS: i64 = 250;

/// The buttons of one craft as polled this frame.
#[derive(Clone, Copy, Debug, PartialEq, Eq, Structural)]
pub struct CraftInput {
    pub accelerate: bool,
    pub rotate_left: bool,
    pub rotate_right: bool,
    pub fire: bool,
}

/// A player-controlled craft. Lengths are in thousandths of a world unit, angles
/// in thousandths of a degree, times in milliseconds and rates per second.
#[derive(Clone, Copy, Debug, PartialEq, Eq, Structural)]
pub struct Craft {
    pub id: u64,
    pub position: Vec2,
    /// Orientation, counter-clockwise from the +y axis, in `[0, FULL_TURN)`.
    pub rotation: i64,
    /// Forward speed, in `[0, max_speed]`.
    pub speed: i64,
    pub velocity: Vec2,
    pub rotation_speed: i64,
    pub max_speed: i64,
    pub radius_collision: i64,
    /// Whether the fire button was down in the previous frame.
    pub fire_held: bool,
    /// Milliseconds until the craft may fire again.
    pub fire_cooldown: i64,
}

impl Craft {
    pub open spec fn wf(self) -> bool {
        &&& in_world(self.position)
        &&& 0 <= self.rotation < FULL_TURN
        &&& 0 < self.max_speed <= SPEED_LIMIT
        &&& 0 <= self.speed <= self.max_speed
        &&& norm_sq(self.velocity.x as int, self.velocity.y as int) <= self.max_speed * self.max_speed
        &&& -MAX_ROTATION_SPEED <= self.rotation_speed <= MAX_ROTATION_SPEED
        &&& 0 <= self.radius_collision <= WORLD_LIMIT
        &&& 0 <= self.fire_cooldown <= FIRE_COOLDOWN_MS
    }

    /// A craft at rest at `position`, facing `rotation`.
    pub fn new(id: u64, position: Vec2, rotation: i64, max_speed: i64, radius_collision: i64) -> (r: Craft)
        requires
            in_world(position),
            0 <= rotation < FULL_TURN,
            0 < max_speed <= SPEED_LIMIT,
            0 <= radius_collision <= WORLD_LIMIT,
        ensures
            r.wf(),
            r.id == id,
            r.position == position,
            r.rotation == rotation,
            r.max_speed == max_speed,
            r.radius_collision == radius_collision,
            r.speed == 0,
            r.rotation_speed == 0,
            r.velocity == (Vec2 { x: 0, y: 0 }),
            !r.fire_held,
            r.fire_cooldown == 0,
    {
        Craft {
            id,
            position,
            rotation,
            speed: 0,
            velocity: Vec2 { x: 0, y: 0 },
            rotation_speed: 0,
            max_speed,
            radius_collision,
            fire_held: false,
            fire_cooldown: 0,
        }
    }
}

/// Sine on `[0, FULL_TURN / 2]` by Bhaskara's rational approximation, scaled by `UNIT`.
pub open spec fn half_sine(m: int) -> int {
    (4 * m * (180_000 - m) * UNIT) / (40_500_000_000 - m * (180_000 - m))
}

/// Sine of an angle in `[0, FULL_TURN)`, scaled by `UNIT`.
pub open spec fn sine(m: int) -> int {
    if m <= 180_000 {
        half_sine(m)
    } else {
        -half_sine(m - 180_000)
    }
}

/// Unit vector (scaled by `UNIT`) that a craft turned by `rotation` points along:
/// the +y axis turned counter-clockwise.
pub open spec fn heading(rotation: int) -> Vec2 {
    Vec2 { x: (-sine(rotation)) as i64, y: sine((rotation + 90_000) % (FULL_TURN as int)) as i64 }
}

proof fn lemma_half_sine(m: int)
    requires
        0 <= m <= 180_000,
    ensures
        0 <= half_sine(m) <= UNIT,
{
    let t = m * (180_000 - m);
    assert(0 <= t <= 8_100_000_000) by (nonlinear_arith)
        requires
            t == m * (180_000 - m),
            0 <= m <= 180_000,
    ;
    let den = 40_500_000_000 - t;
    let num = 4 * m * (180_000 - m) * UNIT;
    assert(num == 4 * t * UNIT) by (nonlinear_arith)
        requires
            t == m * (180_000 - m),
            num == 4 * m * (180_000 - m) * UNIT,
    ;
    assert(0 <= num / den <= UNIT) by (nonlinear_arith)
        requires
            num == 4 * t * UNIT,
            den == 40_500_000_000 - t,
            0 <= t <= 8_100_000_000,
    ;
}

/// Bhaskara's approximation of the sine on `[0, FULL_TURN / 2]`, scaled by `UNIT`.
fn half_sine_exec(m: i64) -> (r: i64)
    requires
        0 <= m <= 180_000,
    ensures
        r == half_sine(m as int),
        0 <= r <= UNIT,
{
    proof {
        lemma_half_sine(m as int);
        assert(0 <= m * (180_000 - m) <= 8_100_000_000) by (nonlinear_arith)
            requires
                0 <= m <= 180_000,
        ;
    }
    let t: i64 = m * (180_000 - m);
    let num: i64 = 4 * t * UNIT;
    assert(num == 4 * m * (180_000 - m) * UNIT) by (nonlinear_arith)
        requires
            t == m * (180_000 - m),
            num == 4 * t * UNIT,
    ;
    num / (40_500_000_000 - t)
}

fn sine_exec(m: i64) -> (r: i64)
    requires
        0 <= m < FULL_TURN,
    ensures
        r == sine(m as int),
        -UNIT <= r <= UNIT,
{
    if m <= 180_000 {
        half_sine_exec(m)
    } else {
        -half_sine_exec(m - 180_000)
    }
}

/// The heading vector of a craft turned by `rotation`.
pub fn heading_vector(rotation: i64) -> (r: Vec2)
    requires
        0 <= rotation < FULL_TURN,
    ensures
        r == heading(rotation as int),
        -UNIT <= r.x <= UNIT,
        -UNIT <= r.y <= UNIT,
{
    let shifted: i64 = if rotation + 90_000 >= FULL_TURN {
        rotation + 90_000 - FULL_TURN
    } else {
        rotation + 90_000
    };
    proof {
        if rotation + 90_000 >= FULL_TURN {
            lemma_fundamental_div_mod_converse_mod(rotation + 90_000, FULL_TURN as int, 1, shifted as int);
        } else {
            lemma_fundamental_div_mod_converse_mod(rotation + 90_000, FULL_TURN as int, 0, shifted as int);
        }
    }
    let s: i64 = sine_exec(rotation);
    Vec2 { x: -s, y: sine_exec(shifted) }
}

pub open spec fn next_speed(c: Craft, accelerate: bool, dt: int) -> int {
    if accelerate {
        if c.speed + THRUST_ACCEL * dt > c.max_speed {
            c.max_speed as int
        } else {
            c.speed + THRUST_ACCEL * dt
        }
    } else {
        if c.speed - THRUST_ACCEL * dt < 0 {
            0
        } else {
            c.speed - THRUST_ACCEL * dt
        }
    }
}

/// +1 for a left turn, -1 for a right turn, 0 for both or neither.
pub open spec fn rotation_input(i: CraftInput) -> int {
    (if i.rotate_left { 1int } else { 0int }) - (if i.rotate_right { 1int } else { 0int })
}

/// Spin after one frame; with no rotate key held it is kept as it is.
pub open spec fn next_rotation_speed(c: Craft, i: CraftInput, dt: int) -> int {
    clamp(
        c.rotation_speed + rotation_input(i) * ROTATION_ACCEL * dt,
        -MAX_ROTATION_SPEED,
        MAX_ROTATION_SPEED as int,
    )
}

pub open spec fn next_rotation(rotation: int, rotation_speed: int, dt: int) -> int {
    (rotation + trunc_div(dt * rotation_speed, 1000)) % (FULL_TURN as int)
}

/// `h` (scaled by `UNIT`) times `len`.
pub open spec fn scaled(h: Vec2, len: int) -> Vec2 {
    Vec2 { x: trunc_div(h.x * len, UNIT as int) as i64, y: trunc_div(h.y * len, UNIT as int) as i64 }
}

/// `v + a * dt`, with `a` per second and `dt` in milliseconds.
pub open spec fn accelerated(v: Vec2, a: Vec2, dt: int) -> Vec2 {
    Vec2 { x: (v.x + trunc_div(dt * a.x, 1000)) as i64, y: (v.y + trunc_div(dt * a.y, 1000)) as i64 }
}

/// `p + v * dt`, kept inside the world bounds.
pub open spec fn moved(p: Vec2, v: Vec2, dt: int) -> Vec2 {
    Vec2 {
        x: clamp(p.x + trunc_div(dt * v.x, 1000), -WORLD_LIMIT, WORLD_LIMIT as int) as i64,
        y: clamp(p.y + trunc_div(dt * v.y, 1000), -WORLD_LIMIT, WORLD_LIMIT as int) as i64,
    }
}

/// The craft after one frame of `dt` milliseconds: thrust and spin are updated,
/// the velocity is set along the new heading, the pull of the central body is
/// added, the velocity is limited to `max_speed` and the craft moves by it.
pub open spec fn integrated(c: Craft, i: CraftInput, dt: int) -> Craft {
    let speed = next_speed(c, i.accelerate, dt);
    let rotation_speed = next_rotation_speed(c, i, dt);
    let rotation = next_rotation(c.rotation as int, rotation_speed, dt);
    let pulled = accelerated(scaled(heading(rotation), speed), gravity_at(c.position), dt);
    let velocity = clamped_to_norm(pulled, c.max_speed as int);
    Craft {
        position: moved(c.position, velocity, dt),
        rotation: rotation as i64,
        speed: speed as i64,
        velocity,
        rotation_speed: rotation_speed as i64,
        ..c
    }
}

proof fn lemma_scaled_bound(a: int, b: int, d: int, bound: int)
    requires
        -d <= a <= d,
        -bound <= b <= bound,
        d > 0,
    ensures
        -bound <= trunc_div(a * b, d) <= bound,
{
    lemma_trunc_div_bound(a * b, d);
    assert(abs(a * b) <= d * bound) by (nonlinear_arith)
        requires
            -d <= a <= d,
            -bound <= b <= bound,
    ;
    assert(abs(trunc_div(a * b, d)) <= bound) by (nonlinear_arith)
        requires
            abs(trunc_div(a * b, d)) * d <= abs(a * b),
            abs(a * b) <= d * bound,
            d > 0,
    ;
}

/// `a * b / d` rounded toward zero, for `|a| <= d`.
fn scale_component(a: i64, b: i64, d: i64) -> (r: i64)
    requires
        -d <= a <= d,
        -SPEED_LIMIT <= b <= SPEED_LIMIT,
        0 < d <= SPEED_LIMIT,
    ensures
        r == trunc_div(a * b, d as int),
        -SPEED_LIMIT <= r <= SPEED_LIMIT,
{
    proof {
        lemma_scaled_bound(a as int, b as int, d as int, SPEED_LIMIT as int);
        assert(-1_000_000_000_000_000_000 <= a * b <= 1_000_000_000_000_000_000) by (nonlinear_arith)
            requires
                -d <= a <= d,
                -SPEED_LIMIT <= b <= SPEED_LIMIT,
                d <= SPEED_LIMIT,
        ;
    }
    trunc_div_i128(a as i128 * b as i128, d as i128) as i64
}

/// The heading of a craft turned by `rotation`, stretched to length `len`.
pub fn heading_scaled(rotation: i64, len: i64) -> (r: Vec2)
    requires
        0 <= rotation < FULL_TURN,
        0 <= len <= SPEED_LIMIT,
    ensures
        r == scaled(heading(rotation as int), len as int),
        -len <= r.x <= len,
        -len <= r.y <= len,
{
    let h = heading_vector(rotation);
    proof {
        lemma_scaled_bound(h.x as int, len as int, UNIT as int, len as int);
        lemma_scaled_bound(h.y as int, len as int, UNIT as int, len as int);
    }
    Vec2 { x: scale_component(h.x, len, UNIT), y: scale_component(h.y, len, UNIT) }
}

impl Craft {
    /// Advances the craft by one frame of `dt_ms` milliseconds under `input`.
    pub fn integrate(&mut self, input: &CraftInput, dt_ms: i64)
        requires
            old(self).wf(),
            0 <= dt_ms <= MAX_FRAME_MS,
        ensures
            final(self).wf(),
            *final(self) == integrated(*old(self), *input, dt_ms as int),
            norm_sq(final(self).velocity.x as int, final(self).velocity.y as int)
                <= final(self).max_speed * final(self).max_speed,
            -MAX_ROTATION_SPEED <= final(self).rotation_speed <= MAX_ROTATION_SPEED,
    {
        let c = *self;
        let speed: i64 = if input.accelerate {
            if c.speed + THRUST_ACCEL * dt_ms > c.max_speed {
                c.max_speed
            } else {
                c.speed + THRUST_ACCEL * dt_ms
            }
        } else {
            if c.speed - THRUST_ACCEL * dt_ms < 0 {
                0
            } else {
                c.speed - THRUST_ACCEL * dt_ms
            }
        };
        let delta: i64 = ROTATION_ACCEL * dt_ms;
        let mut spin: i64 = if input.rotate_left && !input.rotate_right {
            c.rotation_speed + delta
        } else if input.rotate_right && !input.rotate_left {
            c.rotation_speed - delta
        } else {
            c.rotation_speed
        };
        proof {
            let k = rotation_input(*input);
            let dt = dt_ms as int;
            if k == 1 {
                assert(k * ROTATION_ACCEL * dt == delta);
            } else if k == -1 {
                assert(k * ROTATION_ACCEL * dt == -delta) by (nonlinear_arith)
                    requires
                        k == -1,
                        delta == ROTATION_ACCEL * dt,
                ;
            } else {
                assert(k * ROTATION_ACCEL * dt == 0) by (nonlinear_arith)
                    requires
                        k == 0,
                ;
            }
        }
        if spin < -MAX_ROTATION_SPEED {
            spin = -MAX_ROTATION_SPEED;
        } else if spin > MAX_ROTATION_SPEED {
            spin = MAX_ROTATION_SPEED;
        }
        proof {
            lemma_scaled_bound(dt_ms as int, spin as int, 1000, MAX_ROTATION_SPEED as int);
        }
        let turn: i64 = scale_component(dt_ms, spin, 1000);
        let raw: i64 = c.rotation + turn;
        let rotation: i64 = if raw < 0 {
            raw + FULL_TURN
        } else if raw >= FULL_TURN {
            raw - FULL_TURN
        } else {
            raw
        };
        proof {
            let q: int = if raw < 0 { -1 } else if raw >= FULL_TURN { 1 } else { 0 };
            lemma_fundamental_div_mod_converse_mod(raw as int, FULL_TURN as int, q, rotation as int);
        }
        let base = heading_scaled(rotation, speed);
        let g = gravity_acceleration(c.position);
        proof {
            lemma_scaled_bound(dt_ms as int, g.x as int, 1000, ACCEL_LIMIT as int);
            lemma_scaled_bound(dt_ms as int, g.y as int, 1000, ACCEL_LIMIT as int);
            
        }
        let pulled = Vec2 {
            x: base.x + scale_component(dt_ms, g.x, 1000),
            y: base.y + scale_component(dt_ms, g.y, 1000),
        };
        let velocity = clamp_norm(pulled, c.max_speed);
        proof {
            lemma_scaled_bound(dt_ms as int, velocity.x as int, 1000, SPEED_LIMIT as int);
            lemma_scaled_bound(dt_ms as int, velocity.y as int, 1000, SPEED_LIMIT as int);
        }
        let position = step_position(c.position, velocity, dt_ms);
        self.speed = speed;
        self.rotation_speed = spin;
        self.rotation = rotation;
        self.velocity = velocity;
        self.position = position;
    }
}

/// Moves `p` by `v` over `dt_ms` milliseconds, staying within the world bounds.
pub fn step_position(p: Vec2, v: Vec2, dt_ms: i64) -> (r: Vec2)
    requires
        in_world(p),
        -SPEED_LIMIT <= v.x <= SPEED_LIMIT,
        -SPEED_LIMIT <= v.y <= SPEED_LIMIT,
        0 <= dt_ms <= MAX_FRAME_MS,
    ensures
        r == moved(p, v, dt_ms as int),
        in_world(r),
{
    proof {
        lemma_scaled_bound(dt_ms as int, v.x as int, 1000, SPEED_LIMIT as int);
        lemma_scaled_bound(dt_ms as int, v.y as int, 1000, SPEED_LIMIT as int);
    }
    let x: i64 = p.x + scale_component(dt_ms, v.x, 1000);
    let y: i64 = p.y + scale_component(dt_ms, v.y, 1000);
    Vec2 {
        x: if x < -WORLD_LIMIT { -WORLD_LIMIT } else if x > WORLD_LIMIT { WORLD_LIMIT } else { x },
        y: if y < -WORLD_LIMIT { -WORLD_LIMIT } else if y > WORLD_LIMIT { WORLD_LIMIT } else { y },
    }
}

} // verus!

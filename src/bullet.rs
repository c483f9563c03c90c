use vstd::prelude::*;

use crate::collision::CollisionEvent;
use crate::craft::{
    heading, heading_scaled, moved, scaled, step_position, Craft, FIRE_COOLDOWN_MS, MAX_FRAME_MS,
};
use crate::geometry::{dist_sq, distance_sq, in_world, lemma_square_le, Vec2};

verus! {

/// Speed of a bullet, in thousandths of a world unit per second.
pub const BULLET_SPEED: i64 = 400_000;

/// Lifetime of a bullet, in milliseconds.
pub const BULLET_LIFETIME_MS: i64 = 2_000;

/// Distance ahead of a craft's centre at which its bullets appear.
pub const NOSE_DISTANCE: i64 = 20_000;

/// A projectile fired by the craft whose id is `owner`.
#[derive(Clone, Copy, Debug, PartialEq, Eq, Structural)]
pub struct Bullet {
    pub position: Vec2,
    pub velocity: Vec2,
    pub owner: u64,
    /// Milliseconds left before the bullet expires.
    pub time_to_live: i64,
}

impl Bullet {
    pub open spec fn wf(self) -> bool {
        &&& in_world(self.position)
        &&& -BULLET_SPEED <= self.velocity.x <= BULLET_SPEED
        &&& -BULLET_SPEED <= self.velocity.y <= BULLET_SPEED
        &&& 0 < self.time_to_live <= BULLET_LIFETIME_MS
    }
}

pub open spec fn all_wf(bs: Seq<Bullet>) -> bool {
    forall|i: int| 0 <= i < bs.len() ==> (#[trigger] bs[i]).wf()
}

/// Cooldown left after a frame of `dt` milliseconds, before any shot.
pub open spec fn cooled(c: Craft, dt: int) -> int {
    if c.fire_cooldown - dt < 0 {
        0
    } else {
        c.fire_cooldown - dt
    }
}

/// The craft shoots this frame: fire was just pressed and the cooldown is over.
pub open spec fn shoots(c: Craft, fire: bool, dt: int) -> bool {
    fire && !c.fire_held && cooled(c, dt) == 0
}

/// The bullet that a craft fires: at its nose, along its heading.
pub open spec fn fired_bullet(c: Craft) -> Bullet {
    Bullet {
        position: moved(c.position, scaled(heading(c.rotation as int), NOSE_DISTANCE as int), 1000),
        velocity: scaled(heading(c.rotation as int), BULLET_SPEED as int),
        owner: c.id,
        time_to_live: BULLET_LIFETIME_MS,
    }
}

impl Craft {
    /// Updates the fire button state and cooldown for one frame and tells whether
    /// the craft shoots: only on the frame the button goes down, and only once
    /// the cooldown has run out.
    pub fn fire_control(&mut self, fire: bool, dt_ms: i64) -> (r: bool)
        requires
            old(self).wf(),
            0 <= dt_ms <= MAX_FRAME_MS,
        ensures
            final(self).wf(),
            r == shoots(*old(self), fire, dt_ms as int),
            final(self).fire_held == fire,
            final(self).fire_cooldown == (if r { FIRE_COOLDOWN_MS as int } else { cooled(*old(self), dt_ms as int) }),
            final(self).id == old(self).id,
            final(self).position == old(self).position,
            final(self).rotation == old(self).rotation,
            final(self).speed == old(self).speed,
            final(self).velocity == old(self).velocity,
            final(self).rotation_speed == old(self).rotation_speed,
            final(self).max_speed == old(self).max_speed,
            final(self).radius_collision == old(self).radius_collision,
    {
        let cooldown: i64 = if self.fire_cooldown - dt_ms < 0 {
            0
        } else {
            self.fire_cooldown - dt_ms
        };
        let shot = fire && !self.fire_held && cooldown == 0;
        self.fire_cooldown = if shot {
            FIRE_COOLDOWN_MS
        } else {
            cooldown
        };
        self.fire_held = fire;
        shot
    }
}

/// A new bullet fired by `c`.
pub fn spawn_bullet(c: &Craft) -> (r: Bullet)
    requires
        c.wf(),
    ensures
        r == fired_bullet(*c),
        r.wf(),
{
    let nose = heading_scaled(c.rotation, NOSE_DISTANCE);
    let velocity = heading_scaled(c.rotation, BULLET_SPEED);
    Bullet {
        position: step_position(c.position, nose, 1000),
        velocity,
        owner: c.id,
        time_to_live: BULLET_LIFETIME_MS,
    }
}

/// The bullet after a frame of `dt` milliseconds: moved and aged.
pub open spec fn advanced(b: Bullet, dt: int) -> Bullet {
    Bullet {
        position: moved(b.position, b.velocity, dt),
        time_to_live: (b.time_to_live - dt) as i64,
        ..b
    }
}

/// The first `n` bullets advanced by `dt`, without those whose time ran out.
pub open spec fn live_after(bs: Seq<Bullet>, dt: int, n: int) -> Seq<Bullet>
    decreases n,
{
    if n <= 0 {
        Seq::empty()
    } else if advanced(bs[n - 1], dt).time_to_live > 0 {
        live_after(bs, dt, n - 1).push(advanced(bs[n - 1], dt))
    } else {
        live_after(bs, dt, n - 1)
    }
}

/// Moves and ages every bullet by one frame and removes those whose time to
/// live has reached zero.
pub fn advance_bullets(bullets: &mut Vec<Bullet>, dt_ms: i64)
    requires
        all_wf(old(bullets)@),
        0 <= dt_ms <= MAX_FRAME_MS,
    ensures
        final(bullets)@ == live_after(old(bullets)@, dt_ms as int, old(bullets)@.len() as int),
        all_wf(final(bullets)@),
{
    let ghost bs = bullets@;
    let mut kept: Vec<Bullet> = Vec::new();
    let mut i: usize = 0;
    while i < bullets.len()
        invariant
            bullets@ == bs,
            all_wf(bs),
            0 <= dt_ms <= MAX_FRAME_MS,
            i <= bs.len(),
            kept@ == live_after(bs, dt_ms as int, i as int),
            all_wf(kept@),
        decreases bs.len() - i,
    {
        let b = bullets[i];
        assert(b.wf());
        let next = Bullet {
            position: step_position(b.position, b.velocity, dt_ms),
            velocity: b.velocity,
            owner: b.owner,
            time_to_live: b.time_to_live - dt_ms,
        };
        if next.time_to_live > 0 {
            kept.push(next);
        }
        i = i + 1;
    }
    *bullets = kept;
}

/// The bullet strikes a craft other than the one that fired it.
pub open spec fn bullet_hits(b: Bullet, c: Craft) -> bool {
    b.owner != c.id && dist_sq(b.position, c.position) < c.radius_collision * c.radius_collision
}

/// Index of the first craft from `k` on that the bullet strikes.
pub open spec fn target_from(b: Bullet, cs: Seq<Craft>, k: int) -> Option<int>
    decreases cs.len() - k,
{
    if k < 0 || k >= cs.len() {
        None
    } else if bullet_hits(b, cs[k]) {
        Some(k)
    } else {
        target_from(b, cs, k + 1)
    }
}

pub open spec fn hit_event(c: Craft) -> CollisionEvent {
    CollisionEvent::CraftBullet { craft: c.id, position: c.position }
}

/// The first `n` bullets without those that strike a craft.
pub open spec fn missed(bs: Seq<Bullet>, cs: Seq<Craft>, n: int) -> Seq<Bullet>
    decreases n,
{
    if n <= 0 {
        Seq::empty()
    } else if target_from(bs[n - 1], cs, 0) is Some {
        missed(bs, cs, n - 1)
    } else {
        missed(bs, cs, n - 1).push(bs[n - 1])
    }
}

/// One hit for each of the first `n` bullets that strikes a craft, against the
/// first craft it strikes.
pub open spec fn hits(bs: Seq<Bullet>, cs: Seq<Craft>, n: int) -> Seq<CollisionEvent>
    decreases n,
{
    if n <= 0 {
        Seq::empty()
    } else {
        match target_from(bs[n - 1], cs, 0) {
            Some(k) => hits(bs, cs, n - 1).push(hit_event(cs[k])),
            None => hits(bs, cs, n - 1),
        }
    }
}

/// The first craft that the bullet strikes, if any.
pub fn find_target(b: &Bullet, crafts: &Vec<Craft>) -> (r: Option<usize>)
    requires
        b.wf(),
        forall|i: int| 0 <= i < crafts@.len() ==> (#[trigger] crafts@[i]).wf(),
    ensures
        r matches Some(k) ==> k < crafts@.len() && target_from(*b, crafts@, 0) == Some(k as int),
        r is None ==> target_from(*b, crafts@, 0) is None,
{
    let mut k: usize = 0;
    while k < crafts.len()
        invariant
            b.wf(),
            forall|i: int| 0 <= i < crafts@.len() ==> (#[trigger] crafts@[i]).wf(),
            k <= crafts@.len(),
            target_from(*b, crafts@, 0) == target_from(*b, crafts@, k as int),
        decreases crafts@.len() - k,
    {
        let c = &crafts[k];
        let d2: u128 = distance_sq(b.position, c.position);
        proof {
            lemma_square_le(c.radius_collision as int, 1_000_000_000);
        }
        let r: u128 = c.radius_collision as u128;
        if b.owner != c.id && d2 < r * r {
            return Some(k);
        }
        k = k + 1;
    }
    None
}

/// Removes every bullet that strikes a craft other than its owner and returns
/// one hit event for each, against the first craft it strikes.
pub fn resolve_bullet_hits(bullets: &mut Vec<Bullet>, crafts: &Vec<Craft>) -> (r: Vec<CollisionEvent>)
    requires
        all_wf(old(bullets)@),
        forall|i: int| 0 <= i < crafts@.len() ==> (#[trigger] crafts@[i]).wf(),
    ensures
        final(bullets)@ == missed(old(bullets)@, crafts@, old(bullets)@.len() as int),
        r@ == hits(old(bullets)@, crafts@, old(bullets)@.len() as int),
        all_wf(final(bullets)@),
{
    let ghost bs = bullets@;
    let mut kept: Vec<Bullet> = Vec::new();
    let mut events: Vec<CollisionEvent> = Vec::new();
    let mut i: usize = 0;
    while i < bullets.len()
        invariant
            bullets@ == bs,
            all_wf(bs),
            forall|j: int| 0 <= j < crafts@.len() ==> (#[trigger] crafts@[j]).wf(),
            i <= bs.len(),
            kept@ == missed(bs, crafts@, i as int),
            events@ == hits(bs, crafts@, i as int),
            all_wf(kept@),
        decreases bs.len() - i,
    {
        let b = bullets[i];
        assert(b.wf());
        match find_target(&b, crafts) {
            Some(k) => {
                events.push(CollisionEvent::CraftBullet { craft: crafts[k].id, position: crafts[k].position });
            },
            None => {
                kept.push(b);
            },
        }
        i = i + 1;
    }
    *bullets = kept;
    events
}

/// A bullet's time to live never grows: after every frame each bullet still in
/// flight is an advanced copy of one before it, with a positive and no larger time
/// to live; a bullet stays in flight exactly when its time to live is still
/// positive, so it is removed in the first frame that brings it to zero or below.
pub proof fn lemma_bullet_lifetime(bs: Seq<Bullet>, dt: int, n: int)
    requires
        all_wf(bs),
        0 <= dt <= MAX_FRAME_MS,
        0 <= n <= bs.len(),
    ensures
        forall|j: int| 0 <= j < live_after(bs, dt, n).len() ==> {
            &&& (#[trigger] live_after(bs, dt, n)[j]).time_to_live > 0
            &&& exists|k: int| 0 <= k < n && live_after(bs, dt, n)[j] == advanced(bs[k], dt)
                && live_after(bs, dt, n)[j].time_to_live <= bs[k].time_to_live
        },
        forall|k: int| 0 <= k < n ==> (advanced(bs[k], dt).time_to_live > 0
            <==> live_after(bs, dt, n).contains(#[trigger] advanced(bs[k], dt))),
    decreases n,
{
    if n > 0 {
        lemma_bullet_lifetime(bs, dt, n - 1);
        let prev = live_after(bs, dt, n - 1);
        let cur = live_after(bs, dt, n);
        assert forall|j: int| 0 <= j < cur.len() implies {
            &&& (#[trigger] cur[j]).time_to_live > 0
            &&& exists|k: int| 0 <= k < n && cur[j] == advanced(bs[k], dt)
                && cur[j].time_to_live <= bs[k].time_to_live
        } by {
            if j < prev.len() {
                assert(cur[j] == prev[j]);
                let k = choose|k: int| 0 <= k < n - 1 && prev[j] == advanced(bs[k], dt)
                    && prev[j].time_to_live <= bs[k].time_to_live;
                assert(0 <= k < n && cur[j] == advanced(bs[k], dt));
            } else {
                assert(cur[j] == advanced(bs[n - 1], dt));
                assert(bs[n - 1].wf());
                assert(0 <= n - 1 < n && cur[j] == advanced(bs[n - 1], dt)
                    && cur[j].time_to_live <= bs[n - 1].time_to_live);
            }
        }
        assert forall|k: int| 0 <= k < n implies (advanced(bs[k], dt).time_to_live > 0
            <==> cur.contains(#[trigger] advanced(bs[k], dt))) by {
            let a = advanced(bs[k], dt);
            if a.time_to_live > 0 {
                if k < n - 1 {
                    let j = choose|j: int| 0 <= j < prev.len() && prev[j] == a;
                    assert(cur[j] == a);
                } else {
                    assert(cur[cur.len() - 1] == a);
                }
            } else {
                if cur.contains(a) {
                    let j = choose|j: int| 0 <= j < cur.len() && cur[j] == a;
                    assert(cur[j].time_to_live > 0);
                }
            }
        }
    }
}

} // verus!

use vstd::prelude::*;

use crate::bullet::{
    advance_bullets, all_wf, fired_bullet, hits, live_after, missed, resolve_bullet_hits, shoots,
    spawn_bullet, Bullet,
};
use crate::collision::{
    event_triggers, collision_events, despawn_destroyed, detect_collisions, effect_triggers,
    survivors, CollisionEvent, EffectTrigger,
};
use crate::craft::{integrated, Craft, CraftInput, FIRE_COOLDOWN_MS, MAX_FRAME_MS};
use crate::bullet::cooled;

verus! {

/// The buttons of a craft that nobody steers.
pub open spec fn idle_input() -> CraftInput {
    CraftInput { accelerate: false, rotate_left: false, rotate_right: false, fire: false }
}

/// The input of the `i`-th craft: idle where none was given.
pub open spec fn input_for(inputs: Seq<CraftInput>, i: int) -> CraftInput {
    if 0 <= i < inputs.len() {
        inputs[i]
    } else {
        idle_input()
    }
}

/// A craft after its motion and its fire control for one frame.
pub open spec fn craft_after(c: Craft, i: CraftInput, dt: int) -> Craft {
    let m = integrated(c, i, dt);
    Craft {
        fire_held: i.fire,
        fire_cooldown: (if shoots(m, i.fire, dt) { FIRE_COOLDOWN_MS as int } else { cooled(m, dt) }) as i64,
        ..m
    }
}

/// Every craft after its motion and fire control.
pub open spec fn crafts_after(cs: Seq<Craft>, inputs: Seq<CraftInput>, dt: int) -> Seq<Craft> {
    Seq::new(cs.len(), |i: int| craft_after(cs[i], input_for(inputs, i), dt))
}

/// Bullets fired by the first `n` crafts this frame, in craft order.
pub open spec fn fired(cs: Seq<Craft>, inputs: Seq<CraftInput>, dt: int, n: int) -> Seq<Bullet>
    decreases n,
{
    if n <= 0 {
        Seq::empty()
    } else if shoots(integrated(cs[n - 1], input_for(inputs, n - 1), dt), input_for(inputs, n - 1).fire, dt) {
        fired(cs, inputs, dt, n - 1).push(fired_bullet(integrated(cs[n - 1], input_for(inputs, n - 1), dt)))
    } else {
        fired(cs, inputs, dt, n - 1)
    }
}

/// All crafts and bullets in play.
pub struct World {
    pub crafts: Vec<Craft>,
    pub bullets: Vec<Bullet>,
}

impl World {
    pub open spec fn wf(&self) -> bool {
        &&& forall|i: int| 0 <= i < self.crafts@.len() ==> (#[trigger] self.crafts@[i]).wf()
        &&& all_wf(self.bullets@)
    }

    /// A world holding `crafts` and no bullets.
    pub fn new(crafts: Vec<Craft>) -> (r: World)
        requires
            forall|i: int| 0 <= i < crafts@.len() ==> (#[trigger] crafts@[i]).wf(),
        ensures
            r.wf(),
            r.crafts@ == crafts@,
            r.bullets@.len() == 0,
    {
        World { crafts, bullets: Vec::new() }
    }

    /// Runs one frame of `dt_ms` milliseconds: moves every craft under its input
    /// and the central pull, fires new bullets, advances and expires bullets,
    /// resolves bullet hits, detects craft collisions, removes every craft that a
    /// collision involves and returns one explosion per craft involved, in the
    /// order of the events.
    pub fn step(&mut self, inputs: &Vec<CraftInput>, dt_ms: i64) -> (r: Vec<EffectTrigger>)
        requires
            old(self).wf(),
            0 <= dt_ms <= MAX_FRAME_MS,
        ensures
            final(self).wf(),
            ({
                let dt = dt_ms as int;
                let moved = crafts_after(old(self).crafts@, inputs@, dt);
                let shot = old(self).bullets@ + fired(old(self).crafts@, inputs@, dt, moved.len() as int);
                let flying = live_after(shot, dt, shot.len() as int);
                let events = hits(flying, moved, flying.len() as int) + collision_events(moved);
                &&& final(self).bullets@ == missed(flying, moved, flying.len() as int)
                &&& final(self).crafts@ == survivors(moved, events, moved.len() as int)
                &&& r@ == event_triggers(events, events.len() as int)
            }),
    {
        let ghost cs = self.crafts@;
        let ghost bs = self.bullets@;
        let dt = Ghost(dt_ms as int);
        let mut moved: Vec<Craft> = Vec::new();
        let mut i: usize = 0;
        while i < self.crafts.len()
            invariant
                self.crafts@ == cs,
                self.bullets@ == bs + fired(cs, inputs@, dt@, i as int),
                dt@ == dt_ms,
                0 <= dt_ms <= MAX_FRAME_MS,
                forall|k: int| 0 <= k < cs.len() ==> (#[trigger] cs[k]).wf(),
                all_wf(self.bullets@),
                i <= cs.len(),
                moved@.len() == i,
                forall|k: int| 0 <= k < i ==> moved@[k] == craft_after(cs[k], input_for(inputs@, k), dt@),
                forall|k: int| 0 <= k < i ==> (#[trigger] moved@[k]).wf(),
            decreases cs.len() - i,
        {
            let input: CraftInput = if i < inputs.len() {
                inputs[i]
            } else {
                CraftInput { accelerate: false, rotate_left: false, rotate_right: false, fire: false }
            };
            assert(input == input_for(inputs@, i as int));
            let mut c = self.crafts[i];
            assert(c.wf());
            c.integrate(&input, dt_ms);
            let ghost m = c;
            if c.fire_control(input.fire, dt_ms) {
                let b = spawn_bullet(&c);
                assert(b == fired_bullet(m));
                proof {
                    assert((bs + fired(cs, inputs@, dt@, i as int)).push(b)
                        =~= bs + fired(cs, inputs@, dt@, i + 1));
                }
                self.bullets.push(b);
            } else {
                assert(fired(cs, inputs@, dt@, i + 1) == fired(cs, inputs@, dt@, i as int));
            }
            assert(c == craft_after(cs[i as int], input, dt@));
            moved.push(c);
            i = i + 1;
        }
        assert(moved@ =~= crafts_after(cs, inputs@, dt@));
        advance_bullets(&mut self.bullets, dt_ms);
        let mut events = resolve_bullet_hits(&mut self.bullets, &moved);
        let mut crashes = detect_collisions(&moved);
        events.append(&mut crashes);
        let triggers = effect_triggers(&events);
        despawn_destroyed(&mut moved, &events);
        proof {
            let es = events@;
            assert forall|k: int| 0 <= k < moved@.len() implies (#[trigger] moved@[k]).wf() by {
                lemma_survivors_wf(crafts_after(cs, inputs@, dt@), es, crafts_after(cs, inputs@, dt@).len() as int, k);
            }
        }
        self.crafts = moved;
        triggers
    }
}

proof fn lemma_survivors_wf(cs: Seq<Craft>, es: Seq<CollisionEvent>, n: int, k: int)
    requires
        0 <= n <= cs.len(),
        forall|i: int| 0 <= i < cs.len() ==> (#[trigger] cs[i]).wf(),
        0 <= k < survivors(cs, es, n).len(),
    ensures
        survivors(cs, es, n)[k].wf(),
    decreases n,
{
    if n > 0 {
        let prev = survivors(cs, es, n - 1);
        if k < prev.len() {
            lemma_survivors_wf(cs, es, n - 1, k);
        }
    }
}

} // verus!

use vstd::prelude::*;

use crate::craft::Craft;
use crate::geometry::{distance_sq, dist_sq, lemma_square_le, norm_sq, Vec2};

verus! {

/// Extra distance around a craft's own radius within which the central body
/// destroys it.
pub const SUN_RADIUS_MARGIN: i64 = 30_000;

/// Colour of an explosion, as `0xAABBGGRR`: opaque orange.
pub const EXPLOSION_COLOR: u32 = 0xFF00_A5FF;

/// A collision found in one frame. Crafts are named by their ids.
#[derive(Clone, Copy, Debug, PartialEq, Eq, Structural)]
pub enum CollisionEvent {
    CraftSun { craft: u64, position: Vec2 },
    CraftCraft { first: u64, second: u64, first_position: Vec2, second_position: Vec2 },
    CraftBullet { craft: u64, position: Vec2 },
}

/// A request to the visual-effects collaborator to play an explosion.
#[derive(Clone, Copy, Debug, PartialEq, Eq, Structural)]
pub struct EffectTrigger {
    pub position: Vec2,
    pub color: u32,
}

/// The craft is too close to the central body.
pub open spec fn hits_sun(c: Craft) -> bool {
    norm_sq(c.position.x as int, c.position.y as int)
        < (c.radius_collision + SUN_RADIUS_MARGIN) * (c.radius_collision + SUN_RADIUS_MARGIN)
}

/// Two crafts are closer than the mean of their collision radii.
pub open spec fn crafts_collide(a: Craft, b: Craft) -> bool {
    4 * dist_sq(a.position, b.position)
        < (a.radius_collision + b.radius_collision) * (a.radius_collision + b.radius_collision)
}

pub open spec fn sun_event(c: Craft) -> CollisionEvent {
    CollisionEvent::CraftSun { craft: c.id, position: c.position }
}

pub open spec fn pair_event(a: Craft, b: Craft) -> CollisionEvent {
    CollisionEvent::CraftCraft {
        first: a.id,
        second: b.id,
        first_position: a.position,
        second_position: b.position,
    }
}

/// Sun collisions of the first `n` crafts, in order.
pub open spec fn sun_events(cs: Seq<Craft>, n: int) -> Seq<CollisionEvent>
    decreases n,
{
    if n <= 0 {
        Seq::empty()
    } else if hits_sun(cs[n - 1]) {
        sun_events(cs, n - 1).push(sun_event(cs[n - 1]))
    } else {
        sun_events(cs, n - 1)
    }
}

/// Collisions of craft `j` with each of the first `n` crafts, in order.
pub open spec fn pair_row(cs: Seq<Craft>, j: int, n: int) -> Seq<CollisionEvent>
    decreases n,
{
    if n <= 0 {
        Seq::empty()
    } else if crafts_collide(cs[n - 1], cs[j]) {
        pair_row(cs, j, n - 1).push(pair_event(cs[n - 1], cs[j]))
    } else {
        pair_row(cs, j, n - 1)
    }
}

/// Collisions between pairs of the first `n` crafts, ordered by the later craft
/// of each pair, then by the earlier one.
pub open spec fn pair_events(cs: Seq<Craft>, n: int) -> Seq<CollisionEvent>
    decreases n,
{
    if n <= 0 {
        Seq::empty()
    } else {
        pair_events(cs, n - 1) + pair_row(cs, n - 1, n - 1)
    }
}

/// Every collision among `cs` and with the central body: sun collisions first,
/// then craft pairs.
pub open spec fn collision_events(cs: Seq<Craft>) -> Seq<CollisionEvent> {
    sun_events(cs, cs.len() as int) + pair_events(cs, cs.len() as int)
}

/// Whether the craft touches the central body.
pub fn check_sun_collision(c: &Craft) -> (r: bool)
    requires
        c.wf(),
    ensures
        r == hits_sun(*c),
{
    let d2: u128 = distance_sq(c.position, Vec2 { x: 0, y: 0 });
    let reach: u128 = (c.radius_collision + SUN_RADIUS_MARGIN) as u128;
    proof {
        lemma_square_le(reach as int, 2_000_000_000);
    }
    d2 < reach * reach
}

/// Whether two crafts touch.
pub fn check_collision(a: &Craft, b: &Craft) -> (r: bool)
    requires
        a.wf(),
        b.wf(),
    ensures
        r == crafts_collide(*a, *b),
{
    let d2: u128 = distance_sq(a.position, b.position);
    let reach: u128 = (a.radius_collision + b.radius_collision) as u128;
    proof {
        lemma_square_le(reach as int, 2_000_000_000);
    }
    4 * d2 < reach * reach
}

/// All collisions in the current frame. Reads the crafts only, so calling it
/// again on the same crafts gives the same events.
pub fn detect_collisions(crafts: &Vec<Craft>) -> (r: Vec<CollisionEvent>)
    requires
        forall|i: int| 0 <= i < crafts@.len() ==> (#[trigger] crafts@[i]).wf(),
    ensures
        r@ == collision_events(crafts@),
{
    let cs = Ghost(crafts@);
    let n: usize = crafts.len();
    let mut out: Vec<CollisionEvent> = Vec::new();
    let mut i: usize = 0;
    while i < n
        invariant
            n == crafts@.len(),
            cs@ == crafts@,
            i <= n,
            forall|k: int| 0 <= k < crafts@.len() ==> (#[trigger] crafts@[k]).wf(),
            out@ == sun_events(cs@, i as int),
        decreases n - i,
    {
        if check_sun_collision(&crafts[i]) {
            out.push(CollisionEvent::CraftSun { craft: crafts[i].id, position: crafts[i].position });
        }
        i = i + 1;
    }
    let ghost suns = out@;
    let mut j: usize = 0;
    while j < n
        invariant
            n == crafts@.len(),
            cs@ == crafts@,
            j <= n,
            forall|k: int| 0 <= k < crafts@.len() ==> (#[trigger] crafts@[k]).wf(),
            suns == sun_events(cs@, n as int),
            out@ == suns + pair_events(cs@, j as int),
        decreases n - j,
    {
        let mut k: usize = 0;
        while k < j
            invariant
                n == crafts@.len(),
                cs@ == crafts@,
                k <= j < n,
                forall|m: int| 0 <= m < crafts@.len() ==> (#[trigger] crafts@[m]).wf(),
                out@ == suns + pair_events(cs@, j as int) + pair_row(cs@, j as int, k as int),
            decreases j - k,
        {
            if check_collision(&crafts[k], &crafts[j]) {
                let e = CollisionEvent::CraftCraft {
                    first: crafts[k].id,
                    second: crafts[j].id,
                    first_position: crafts[k].position,
                    second_position: crafts[j].position,
                };
                proof {
                    let pre = suns + pair_events(cs@, j as int);
                    assert((pre + pair_row(cs@, j as int, k as int)).push(e)
                        =~= pre + pair_row(cs@, j as int, k as int).push(e));
                }
                out.push(e);
            }
            k = k + 1;
        }
        proof {
            assert(suns + pair_events(cs@, j as int) + pair_row(cs@, j as int, j as int)
                =~= suns + pair_events(cs@, j + 1));
        }
        j = j + 1;
    }
    out
}

/// The explosions that one collision sets off: one at each craft involved.
pub open spec fn triggers_of(e: CollisionEvent) -> Seq<EffectTrigger> {
    match e {
        CollisionEvent::CraftSun { position, .. } => seq![EffectTrigger { position, color: EXPLOSION_COLOR }],
        CollisionEvent::CraftCraft { first_position, second_position, .. } => seq![
            EffectTrigger { position: first_position, color: EXPLOSION_COLOR },
            EffectTrigger { position: second_position, color: EXPLOSION_COLOR },
        ],
        CollisionEvent::CraftBullet { position, .. } => seq![EffectTrigger { position, color: EXPLOSION_COLOR }],
    }
}

/// The explosions of the first `n` events, in order.
pub open spec fn event_triggers(es: Seq<CollisionEvent>, n: int) -> Seq<EffectTrigger>
    decreases n,
{
    if n <= 0 {
        Seq::empty()
    } else {
        event_triggers(es, n - 1) + triggers_of(es[n - 1])
    }
}

/// The effect notifications for a frame's collisions.
pub fn effect_triggers(events: &Vec<CollisionEvent>) -> (r: Vec<EffectTrigger>)
    ensures
        r@ == event_triggers(events@, events@.len() as int),
{
    let mut out: Vec<EffectTrigger> = Vec::new();
    let mut i: usize = 0;
    while i < events.len()
        invariant
            i <= events@.len(),
            out@ == event_triggers(events@, i as int),
        decreases events@.len() - i,
    {
        let ghost before = out@;
        match events[i] {
            CollisionEvent::CraftSun { position, .. } => {
                out.push(EffectTrigger { position, color: EXPLOSION_COLOR });
            },
            CollisionEvent::CraftCraft { first_position, second_position, .. } => {
                out.push(EffectTrigger { position: first_position, color: EXPLOSION_COLOR });
                out.push(EffectTrigger { position: second_position, color: EXPLOSION_COLOR });
            },
            CollisionEvent::CraftBullet { position, .. } => {
                out.push(EffectTrigger { position, color: EXPLOSION_COLOR });
            },
        }
        assert(out@ =~= before + triggers_of(events@[i as int]));
        i = i + 1;
    }
    out
}

/// The collision involves the craft with this id.
pub open spec fn involves(e: CollisionEvent, id: u64) -> bool {
    match e {
        CollisionEvent::CraftSun { craft, .. } => craft == id,
        CollisionEvent::CraftCraft { first, second, .. } => first == id || second == id,
        CollisionEvent::CraftBullet { craft, .. } => craft == id,
    }
}

/// Some collision of the list involves the craft with this id.
pub open spec fn destroyed(es: Seq<CollisionEvent>, id: u64) -> bool {
    exists|k: int| 0 <= k < es.len() && involves(#[trigger] es[k], id)
}

/// The first `n` crafts that no collision involves, in order.
pub open spec fn survivors(cs: Seq<Craft>, es: Seq<CollisionEvent>, n: int) -> Seq<Craft>
    decreases n,
{
    if n <= 0 {
        Seq::empty()
    } else if destroyed(es, cs[n - 1].id) {
        survivors(cs, es, n - 1)
    } else {
        survivors(cs, es, n - 1).push(cs[n - 1])
    }
}

fn event_involves(e: &CollisionEvent, id: u64) -> (r: bool)
    ensures
        r == involves(*e, id),
{
    match e {
        CollisionEvent::CraftSun { craft, .. } => *craft == id,
        CollisionEvent::CraftCraft { first, second, .. } => *first == id || *second == id,
        CollisionEvent::CraftBullet { craft, .. } => *craft == id,
    }
}

/// Whether some collision of the list involves the craft with this id.
pub fn is_destroyed(events: &Vec<CollisionEvent>, id: u64) -> (r: bool)
    ensures
        r == destroyed(events@, id),
{
    let mut i: usize = 0;
    while i < events.len()
        invariant
            i <= events@.len(),
            forall|k: int| 0 <= k < i ==> !involves(#[trigger] events@[k], id),
        decreases events@.len() - i,
    {
        if event_involves(&events[i], id) {
            return true;
        }
        i = i + 1;
    }
    false
}

/// Removes every craft that a collision involves, keeping the others in order.
pub fn despawn_destroyed(crafts: &mut Vec<Craft>, events: &Vec<CollisionEvent>)
    ensures
        final(crafts)@ == survivors(old(crafts)@, events@, old(crafts)@.len() as int),
{
    let ghost cs = crafts@;
    let mut kept: Vec<Craft> = Vec::new();
    let mut i: usize = 0;
    while i < crafts.len()
        invariant
            crafts@ == cs,
            i <= cs.len(),
            kept@ == survivors(cs, events@, i as int),
        decreases cs.len() - i,
    {
        if !is_destroyed(events, crafts[i].id) {
            kept.push(crafts[i]);
        }
        i = i + 1;
    }
    *crafts = kept;
}

/// The crafts agree on everything that collision detection reads.
pub open spec fn same_layout(a: Seq<Craft>, b: Seq<Craft>) -> bool {
    &&& a.len() == b.len()
    &&& forall|i: int| 0 <= i < a.len() ==> {
        &&& (#[trigger] a[i]).id == b[i].id
        &&& a[i].position == b[i].position
        &&& a[i].radius_collision == b[i].radius_collision
    }
}

proof fn lemma_sun_events_layout(a: Seq<Craft>, b: Seq<Craft>, n: int)
    requires
        same_layout(a, b),
        n <= a.len(),
    ensures
        sun_events(a, n) == sun_events(b, n),
    decreases n,
{
    if n > 0 {
        lemma_sun_events_layout(a, b, n - 1);
        assert(a[n - 1].id == b[n - 1].id);
    }
}

proof fn lemma_pair_row_layout(a: Seq<Craft>, b: Seq<Craft>, j: int, n: int)
    requires
        same_layout(a, b),
        0 <= j < a.len(),
        n <= j,
    ensures
        pair_row(a, j, n) == pair_row(b, j, n),
    decreases n,
{
    if n > 0 {
        lemma_pair_row_layout(a, b, j, n - 1);
        assert(a[n - 1].id == b[n - 1].id);
        assert(a[j].id == b[j].id);
    }
}

proof fn lemma_pair_events_layout(a: Seq<Craft>, b: Seq<Craft>, n: int)
    requires
        same_layout(a, b),
        n <= a.len(),
    ensures
        pair_events(a, n) == pair_events(b, n),
    decreases n,
{
    if n > 0 {
        lemma_pair_events_layout(a, b, n - 1);
        lemma_pair_row_layout(a, b, n - 1, n - 1);
    }
}

/// Collision detection is a pure function of the crafts' ids, positions and
/// radii: on the same frame state (or any state that agrees on those) it finds
/// the same events, however often it runs.
pub proof fn lemma_detection_is_pure(a: Seq<Craft>, b: Seq<Craft>)
    requires
        same_layout(a, b),
    ensures
        collision_events(a) == collision_events(b),
{
    lemma_sun_events_layout(a, b, a.len() as int);
    lemma_pair_events_layout(a, b, a.len() as int);
}

} // verus!

use space_wars::bullet::{advance_bullets, resolve_bullet_hits, spawn_bullet, Bullet, BULLET_LIFETIME_MS};
use space_wars::collision::{
    check_collision, check_sun_collision, detect_collisions, effect_triggers, CollisionEvent,
    EffectTrigger, EXPLOSION_COLOR,
};
use space_wars::craft::{heading_scaled, heading_vector, Craft, CraftInput, MAX_ROTATION_SPEED};
use space_wars::geometry::{clamp_norm, floor_sqrt_u128, Vec2};
use space_wars::gravity::gravity_acceleration;
use space_wars::simulation::World;

fn idle() -> CraftInput {
    CraftInput { accelerate: false, rotate_left: false, rotate_right: false, fire: false }
}

fn craft_at(id: u64, x: i64, y: i64) -> Craft {
    Craft::new(id, Vec2::new(x, y), 0, 200_000, 20_000)
}

fn norm_sq(v: Vec2) -> i128 {
    (v.x as i128) * (v.x as i128) + (v.y as i128) * (v.y as i128)
}

#[test]
fn gravity_is_zero_inside_cutoff() {
    assert_eq!(gravity_acceleration(Vec2::new(40_000, 0)), Vec2::new(0, 0));
    assert_eq!(gravity_acceleration(Vec2::new(0, -40_000)), Vec2::new(0, 0));
    assert_eq!(gravity_acceleration(Vec2::new(0, 0)), Vec2::new(0, 0));
}

#[test]
fn gravity_inverse_square_toward_origin() {
    // 1.25e8 / 100^2 = 12500 world units per second squared.
    assert_eq!(gravity_acceleration(Vec2::new(100_000, 0)), Vec2::new(-12_500_000, 0));
    assert_eq!(gravity_acceleration(Vec2::new(0, -200_000)), Vec2::new(0, 3_125_000));
    let a = gravity_acceleration(Vec2::new(-300_000, 400_000));
    assert!(a.x > 0 && a.y < 0);
    assert_eq!(a, Vec2::new(300_000, -400_000));
}

#[test]
fn gravity_just_outside_cutoff_is_finite() {
    let a = gravity_acceleration(Vec2::new(65_000, 0));
    assert!(a.x < 0 && a.x > -30_000_000);
    assert_eq!(a.y, 0);
}

#[test]
fn integer_square_roots() {
    assert_eq!(floor_sqrt_u128(0), 0);
    assert_eq!(floor_sqrt_u128(99), 9);
    assert_eq!(floor_sqrt_u128(100), 10);
    assert_eq!(floor_sqrt_u128(1_000_000_000_000), 1_000_000);
}

#[test]
fn velocity_clamp() {
    assert_eq!(clamp_norm(Vec2::new(300, 400), 250), Vec2::new(150, 200));
    assert_eq!(clamp_norm(Vec2::new(-3, -4), 10), Vec2::new(-3, -4));
    assert_eq!(clamp_norm(Vec2::new(-300, 400), 500), Vec2::new(-300, 400));
    assert_eq!(clamp_norm(Vec2::new(1000, 0), 1), Vec2::new(1, 0));
}

#[test]
fn heading_follows_rotation() {
    assert_eq!(heading_vector(0), Vec2::new(0, 1_000_000));
    assert_eq!(heading_vector(90_000), Vec2::new(-1_000_000, 0));
    assert_eq!(heading_vector(180_000), Vec2::new(0, -1_000_000));
    assert_eq!(heading_vector(270_000), Vec2::new(1_000_000, 0));
    assert_eq!(heading_scaled(0, 400_000), Vec2::new(0, 400_000));
}

#[test]
fn integrate_one_frame_exactly() {
    let mut c = Craft::new(1, Vec2::new(300_000, 0), 0, 1_000_000, 20_000);
    let input = CraftInput { accelerate: true, ..idle() };
    c.integrate(&input, 100);
    assert_eq!(c.speed, 5_000);
    assert_eq!(c.rotation, 0);
    assert_eq!(c.velocity, Vec2::new(-138_888, 5_000));
    assert_eq!(c.position, Vec2::new(286_112, 500));
}

#[test]
fn thrust_decays_without_input_and_spin_is_kept() {
    let mut c = Craft::new(1, Vec2::new(500_000, 500_000), 0, 1_000_000, 20_000);
    c.integrate(&CraftInput { accelerate: true, rotate_left: true, ..idle() }, 100);
    assert_eq!(c.speed, 5_000);
    assert_eq!(c.rotation_speed, 20_000);
    assert_eq!(c.rotation, 2_000);
    c.integrate(&idle(), 60);
    assert_eq!(c.speed, 2_000);
    assert_eq!(c.rotation_speed, 20_000);
    c.integrate(&idle(), 100);
    assert_eq!(c.speed, 0);
    c.integrate(&CraftInput { rotate_left: true, rotate_right: true, ..idle() }, 100);
    assert_eq!(c.rotation_speed, 20_000);
}

#[test]
fn speed_and_spin_stay_bounded_every_frame() {
    let mut c = Craft::new(1, Vec2::new(300_000, 0), 0, 100_000, 20_000);
    let input = CraftInput { accelerate: true, rotate_left: true, ..idle() };
    for _ in 0..500 {
        c.integrate(&input, 16);
        assert!(norm_sq(c.velocity) <= (c.max_speed as i128) * (c.max_speed as i128));
        assert!(c.rotation_speed.abs() <= MAX_ROTATION_SPEED);
        assert!(c.speed <= c.max_speed && c.speed >= 0);
        assert!(c.rotation >= 0 && c.rotation < 360_000);
    }
    assert_eq!(c.rotation_speed, MAX_ROTATION_SPEED);
    assert_eq!(c.speed, c.max_speed);
}

#[test]
fn rotation_wraps_backwards() {
    let mut c = Craft::new(1, Vec2::new(500_000, 0), 0, 100_000, 20_000);
    c.integrate(&CraftInput { rotate_right: true, ..idle() }, 100);
    assert_eq!(c.rotation_speed, -20_000);
    assert_eq!(c.rotation, 358_000);
}

#[test]
fn fire_needs_a_fresh_press_and_a_cooldown() {
    let mut c = craft_at(1, 300_000, 0);
    assert!(c.fire_control(true, 16));
    assert!(!c.fire_control(true, 16));
    assert!(!c.fire_control(false, 16));
    assert!(!c.fire_control(true, 16));
    assert!(!c.fire_control(false, 100));
    assert!(!c.fire_control(true, 100));
    assert!(!c.fire_control(false, 1));
    assert!(c.fire_control(true, 1));
    assert_eq!(c.fire_cooldown, 250);
}

#[test]
fn bullet_spawns_at_nose_along_heading() {
    let c = Craft::new(7, Vec2::new(100_000, 50_000), 90_000, 200_000, 20_000);
    let b = spawn_bullet(&c);
    assert_eq!(b.owner, 7);
    assert_eq!(b.position, Vec2::new(80_000, 50_000));
    assert_eq!(b.velocity, Vec2::new(-400_000, 0));
    assert_eq!(b.time_to_live, BULLET_LIFETIME_MS);
}

#[test]
fn bullet_expires_exactly_when_time_runs_out() {
    let mut bullets = vec![Bullet {
        position: Vec2::new(0, 0),
        velocity: Vec2::new(1_000, 0),
        owner: 1,
        time_to_live: 2_000,
    }];
    let mut last = 2_000;
    for frame in 1..=125 {
        advance_bullets(&mut bullets, 16);
        if frame < 125 {
            assert_eq!(bullets.len(), 1);
            assert!(bullets[0].time_to_live <= last);
            assert!(bullets[0].time_to_live > 0);
            last = bullets[0].time_to_live;
        } else {
            assert!(bullets.is_empty());
        }
    }
    advance_bullets(&mut bullets, 16);
    assert!(bullets.is_empty());
}

#[test]
fn bullet_moves_with_its_velocity() {
    let mut bullets = vec![Bullet {
        position: Vec2::new(10, -10),
        velocity: Vec2::new(400_000, -1_000),
        owner: 1,
        time_to_live: 500,
    }];
    advance_bullets(&mut bullets, 50);
    assert_eq!(bullets[0].position, Vec2::new(20_010, -60));
    assert_eq!(bullets[0].time_to_live, 450);
}

#[test]
fn bullet_hits_other_craft_not_owner() {
    let crafts = vec![craft_at(1, -300_000, 0), craft_at(2, 300_000, 0)];
    let mut bullets = vec![
        Bullet { position: Vec2::new(295_000, 0), velocity: Vec2::new(0, 0), owner: 1, time_to_live: 1_000 },
        Bullet { position: Vec2::new(-300_000, 0), velocity: Vec2::new(0, 0), owner: 1, time_to_live: 1_000 },
    ];
    let events = resolve_bullet_hits(&mut bullets, &crafts);
    assert_eq!(events, vec![CollisionEvent::CraftBullet { craft: 2, position: Vec2::new(300_000, 0) }]);
    assert_eq!(bullets.len(), 1);
    assert_eq!(bullets[0].position, Vec2::new(-300_000, 0));
}

#[test]
fn bullet_hit_in_a_frame_removes_target_only() {
    let mut world = World::new(vec![craft_at(1, -300_000, 0), craft_at(2, 300_000, 0)]);
    world.bullets.push(Bullet {
        position: Vec2::new(295_000, 0),
        velocity: Vec2::new(0, 0),
        owner: 1,
        time_to_live: 1_000,
    });
    let triggers = world.step(&vec![idle(), idle()], 0);
    assert_eq!(triggers, vec![EffectTrigger { position: Vec2::new(300_000, 0), color: EXPLOSION_COLOR }]);
    assert!(world.bullets.is_empty());
    assert_eq!(world.crafts.len(), 1);
    assert_eq!(world.crafts[0].id, 1);
}

#[test]
fn crafts_at_same_place_both_explode() {
    let a = craft_at(1, 200_000, 0);
    let b = craft_at(2, 200_000, 0);
    assert!(check_collision(&a, &b));
    let events = detect_collisions(&vec![a, b]);
    assert_eq!(
        events,
        vec![CollisionEvent::CraftCraft {
            first: 1,
            second: 2,
            first_position: Vec2::new(200_000, 0),
            second_position: Vec2::new(200_000, 0),
        }]
    );
    let mut world = World::new(vec![a, b]);
    let triggers = world.step(&vec![idle(), idle()], 0);
    assert_eq!(triggers.len(), 2);
    assert!(triggers.iter().all(|t| t.position == Vec2::new(200_000, 0) && t.color == 0xFF00_A5FF));
    assert!(world.crafts.is_empty());
}

#[test]
fn crafts_apart_do_not_collide() {
    let a = craft_at(1, 200_000, 0);
    let b = craft_at(2, 200_000, 20_000);
    assert!(!check_collision(&a, &b));
    let c = craft_at(3, 200_000, 19_999);
    assert!(check_collision(&a, &c));
}

#[test]
fn craft_near_sun_is_destroyed() {
    let c = craft_at(1, 20_000, 0);
    assert!(check_sun_collision(&c));
    assert!(!check_sun_collision(&craft_at(2, 50_000, 0)));
    assert!(check_sun_collision(&craft_at(3, 49_999, 0)));
    let mut world = World::new(vec![c, craft_at(2, -400_000, 0)]);
    let triggers = world.step(&vec![idle(), idle()], 0);
    assert_eq!(triggers, vec![EffectTrigger { position: Vec2::new(20_000, 0), color: EXPLOSION_COLOR }]);
    assert_eq!(world.crafts.len(), 1);
    assert_eq!(world.crafts[0].id, 2);
}

#[test]
fn sun_and_pair_collisions_all_reported() {
    let crafts = vec![craft_at(1, 10_000, 0), craft_at(2, 10_000, 0), craft_at(3, 400_000, 0)];
    let events = detect_collisions(&crafts);
    assert_eq!(events.len(), 3);
    assert_eq!(events[0], CollisionEvent::CraftSun { craft: 1, position: Vec2::new(10_000, 0) });
    assert_eq!(events[1], CollisionEvent::CraftSun { craft: 2, position: Vec2::new(10_000, 0) });
    assert!(matches!(events[2], CollisionEvent::CraftCraft { first: 1, second: 2, .. }));
    assert_eq!(effect_triggers(&events).len(), 4);
}

#[test]
fn detection_twice_gives_same_events() {
    let crafts = vec![craft_at(1, 10_000, 0), craft_at(2, 200_000, 0), craft_at(3, 205_000, 0)];
    let first = detect_collisions(&crafts);
    let second = detect_collisions(&crafts);
    assert_eq!(first, second);
    assert_eq!(first.len(), 2);
}

#[test]
fn empty_frame_is_a_no_op() {
    let mut world = World::new(vec![]);
    let triggers = world.step(&vec![], 16);
    assert!(triggers.is_empty());
    assert!(world.crafts.is_empty());
    assert!(world.bullets.is_empty());
    assert!(detect_collisions(&vec![]).is_empty());
}

#[test]
fn single_craft_cannot_collide_with_another() {
    let mut world = World::new(vec![craft_at(1, 300_000, 0)]);
    let triggers = world.step(&vec![], 16);
    assert!(triggers.is_empty());
    assert_eq!(world.crafts.len(), 1);
}

#[test]
fn firing_in_a_frame_adds_a_bullet() {
    let mut world = World::new(vec![craft_at(1, 300_000, 0), craft_at(2, -300_000, 0)]);
    let fire = CraftInput { fire: true, ..idle() };
    world.step(&vec![fire, idle()], 16);
    assert_eq!(world.bullets.len(), 1);
    assert_eq!(world.bullets[0].owner, 1);
    assert_eq!(world.bullets[0].time_to_live, BULLET_LIFETIME_MS - 16);
    world.step(&vec![fire, idle()], 16);
    assert_eq!(world.bullets.len(), 1);
    assert_eq!(world.crafts.len(), 2);
}

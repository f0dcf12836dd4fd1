use tower_defense::components::{Bullet, Hitable, Transform, Velocity};
use tower_defense::math::{Point2, Vector2};
use tower_defense::systems::BulletSystem;
use tower_defense::world::{Slot, World};

fn enemy_at(x: i32, y: i32, health: i32) -> Slot {
    let mut s = Slot::bare();
    s.transform = Some(Transform::new(x, y, 0));
    s.hitable = Some(Hitable { health });
    s
}

fn bullet(from: Option<(i32, i32)>, at: (i32, i32), v: (i64, i64), hitpoints: i32) -> Slot {
    let mut s = Slot::bare();
    s.transform = Some(Transform::new(at.0, at.1, 200));
    s.velocity = Some(Velocity { v: Vector2::new(v.0, v.1) });
    s.bullet = Some(Bullet {
        speed: 300_000,
        hitpoints,
        last_position: from.map(|p| Point2::new(p.0, p.1)),
    });
    s
}

#[test]
fn a_bullet_that_enters_a_target_hurts_it_and_goes() {
    let mut world = World::new();
    let enemy = world.create_entity(enemy_at(10_000, 0, 100_000));
    let shot = world.create_entity(bullet(Some((-20_000, 0)), (0, 0), (1000, 0), 25_000));
    BulletSystem.run(&mut world);
    assert_eq!(world.slots[enemy.id].hitable, Some(Hitable { health: 75_000 }));
    assert!(!world.slots[enemy.id].doomed);
    assert!(world.slots[shot.id].doomed);
    assert_eq!(world.slots[shot.id].velocity, Some(Velocity { v: Vector2::new(1000, 0) }));
    assert_eq!(world.slots[shot.id].bullet.unwrap().last_position, Some(Point2::new(-20_000, 0)));
    world.maintain();
    assert!(world.is_alive(enemy));
    assert!(!world.is_alive(shot));
    assert!(world.slots[shot.id].bullet.is_none());
}

#[test]
fn a_bullet_that_moves_inside_a_target_does_not_hit_it() {
    let mut world = World::new();
    let enemy = world.create_entity(enemy_at(10_000, 0, 100_000));
    let shot = world.create_entity(bullet(Some((0, 0)), (20_000, 0), (1000, 0), 25_000));
    BulletSystem.run(&mut world);
    assert_eq!(world.slots[enemy.id].hitable, Some(Hitable { health: 100_000 }));
    assert!(!world.slots[shot.id].doomed);
}

#[test]
fn a_far_target_is_not_hit() {
    let mut world = World::new();
    let enemy = world.create_entity(enemy_at(500_000, 500_000, 100_000));
    let shot = world.create_entity(bullet(Some((0, 0)), (20_000, 0), (1000, 0), 25_000));
    BulletSystem.run(&mut world);
    assert_eq!(world.slots[enemy.id].hitable, Some(Hitable { health: 100_000 }));
    assert!(!world.slots[shot.id].doomed);
    assert_eq!(world.slots[shot.id].velocity, Some(Velocity { v: Vector2::new(300_000, 0) }));
    assert_eq!(world.slots[shot.id].bullet.unwrap().last_position, Some(Point2::new(20_000, 0)));
}

#[test]
fn a_target_without_health_left_goes_with_the_bullet() {
    let mut world = World::new();
    let enemy = world.create_entity(enemy_at(10_000, 0, 25_000));
    let shot = world.create_entity(bullet(Some((-20_000, 0)), (0, 0), (1000, 0), 25_000));
    BulletSystem.run(&mut world);
    assert_eq!(world.slots[enemy.id].hitable, Some(Hitable { health: 0 }));
    assert!(world.slots[enemy.id].doomed);
    assert!(world.slots[shot.id].doomed);
    world.maintain();
    assert!(!world.is_alive(enemy));
    assert!(world.slots[enemy.id].hitable.is_none());
    assert!(world.slots[enemy.id].transform.is_none());
}

#[test]
fn the_first_target_in_the_store_is_hit_not_the_nearest() {
    let mut world = World::new();
    let later_on_the_way = world.create_entity(enemy_at(40_000, 0, 100_000));
    let sooner_on_the_way = world.create_entity(enemy_at(0, 0, 100_000));
    world.create_entity(bullet(Some((-30_000, 0)), (60_000, 0), (1000, 0), 25_000));
    BulletSystem.run(&mut world);
    assert_eq!(world.slots[later_on_the_way.id].hitable, Some(Hitable { health: 75_000 }));
    assert_eq!(world.slots[sooner_on_the_way.id].hitable, Some(Hitable { health: 100_000 }));
}

#[test]
fn two_bullets_hit_the_same_target_in_one_tick() {
    let mut world = World::new();
    let a = world.create_entity(bullet(Some((-20_000, 0)), (0, 0), (1000, 0), 60_000));
    let enemy = world.create_entity(enemy_at(10_000, 0, 100_000));
    let b = world.create_entity(bullet(Some((10_000, 30_000)), (10_000, 10_000), (0, -1), 60_000));
    BulletSystem.run(&mut world);
    assert_eq!(world.slots[enemy.id].hitable, Some(Hitable { health: -20_000 }));
    assert!(world.slots[enemy.id].doomed);
    assert!(world.slots[a.id].doomed && world.slots[b.id].doomed);
}

#[test]
fn a_new_bullet_hits_nothing_in_its_first_tick() {
    let mut world = World::new();
    let enemy = world.create_entity(enemy_at(10_000, 0, 100_000));
    let shot = world.create_entity(bullet(None, (-6000, 0), (3, 4), 25_000));
    BulletSystem.run(&mut world);
    assert_eq!(world.slots[enemy.id].hitable, Some(Hitable { health: 100_000 }));
    assert!(!world.slots[shot.id].doomed);
    assert_eq!(world.slots[shot.id].velocity, Some(Velocity { v: Vector2::new(180_000, 240_000) }));
    assert_eq!(world.slots[shot.id].bullet.unwrap().last_position, Some(Point2::new(-6000, 0)));
}

#[test]
fn a_bullet_at_rest_hits_nothing_and_stays_at_rest() {
    let mut world = World::new();
    let enemy = world.create_entity(enemy_at(10_000, 0, 100_000));
    let shot = world.create_entity(bullet(Some((-20_000, 0)), (0, 0), (0, 0), 25_000));
    BulletSystem.run(&mut world);
    assert_eq!(world.slots[enemy.id].hitable, Some(Hitable { health: 100_000 }));
    assert!(!world.slots[shot.id].doomed);
    assert_eq!(world.slots[shot.id].velocity, Some(Velocity { v: Vector2::new(0, 0) }));
    assert_eq!(world.slots[shot.id].bullet.unwrap().last_position, Some(Point2::new(0, 0)));
}

#[test]
fn a_bullet_that_has_left_the_world_goes() {
    let mut world = World::new();
    let at_the_edge = world.create_entity(bullet(None, (1_000_000, 0), (1, 0), 1));
    let beyond = world.create_entity(bullet(None, (600_000, -800_001), (1, 0), 1));
    BulletSystem.run(&mut world);
    assert!(!world.slots[at_the_edge.id].doomed);
    assert!(world.slots[beyond.id].doomed);
    assert_eq!(
        world.slots[beyond.id].bullet.unwrap().last_position,
        Some(Point2::new(600_000, -800_001))
    );
}

#[test]
fn health_does_not_wrap() {
    let mut world = World::new();
    let enemy = world.create_entity(enemy_at(10_000, 0, i32::MIN + 5));
    world.create_entity(bullet(Some((-20_000, 0)), (0, 0), (1000, 0), 25_000));
    BulletSystem.run(&mut world);
    assert_eq!(world.slots[enemy.id].hitable, Some(Hitable { health: i32::MIN }));
    assert!(world.slots[enemy.id].doomed);
}

#[test]
fn what_is_gone_is_not_hit() {
    let mut world = World::new();
    let enemy = world.create_entity(enemy_at(10_000, 0, 100_000));
    world.delete(enemy);
    world.maintain();
    let shot = world.create_entity(bullet(Some((-20_000, 0)), (0, 0), (1000, 0), 25_000));
    BulletSystem.run(&mut world);
    assert!(!world.slots[shot.id].doomed);
    assert!(world.slots[enemy.id].hitable.is_none());
}

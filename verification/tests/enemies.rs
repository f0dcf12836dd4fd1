use tower_defense::components::{Guided, Hitable, SpriteRender, Transform, Velocity};
use tower_defense::math::{Point2, Vector2};
use tower_defense::prefabs::{EnemyPrefab, PrefabError};
use tower_defense::resources::{EnemyPrefabSet, EnemySpawning, EnemyType};
use tower_defense::systems::{EnemyMovementSystem, EnemySpawnSystem};
use tower_defense::world::{Slot, World};

fn walker(at: (i32, i32), speed: i32, waypoints: Vec<Point2>) -> Slot {
    let mut s = Slot::bare();
    s.transform = Some(Transform::new(at.0, at.1, 0));
    s.velocity = Some(Velocity { v: Vector2::new(7, 7) });
    s.guided = Some(Guided::new(speed, waypoints));
    s
}

fn template() -> EnemyPrefab {
    EnemyPrefab {
        sprite: SpriteRender { sprite_number: 4 },
        transform: Transform::new(-100_000, 50_000, 400),
        velocity: Velocity { v: Vector2::new(0, 0) },
        guided: Guided::new(50_000, vec![Point2::new(0, 50_000), Point2::new(0, 0)]),
        hitable: Hitable { health: 100_000 },
    }
}

#[test]
fn a_walker_heads_for_its_waypoint_at_its_speed() {
    let mut world = World::new();
    let e = world.create_entity(walker((0, 0), 50_000, vec![Point2::new(30_000, 40_000)]));
    EnemyMovementSystem.run(&mut world);
    assert_eq!(world.slots[e.id].velocity, Some(Velocity { v: Vector2::new(30_000, 40_000) }));
    assert_eq!(world.slots[e.id].guided.as_ref().unwrap().curr_waypoint, 0);
    assert!(!world.slots[e.id].doomed);
}

#[test]
fn a_walker_goes_on_when_it_is_nearer_than_a_tenth_of_its_speed() {
    let path = vec![Point2::new(0, 0), Point2::new(0, 90_000)];
    let mut world = World::new();
    let near = world.create_entity(walker((4_999, 0), 50_000, path.clone()));
    let not_yet = world.create_entity(walker((5_000, 0), 50_000, path));
    EnemyMovementSystem.run(&mut world);
    assert_eq!(world.slots[near.id].guided.as_ref().unwrap().curr_waypoint, 1);
    assert_eq!(world.slots[not_yet.id].guided.as_ref().unwrap().curr_waypoint, 0);
    assert_eq!(
        world.slots[not_yet.id].velocity,
        Some(Velocity { v: Vector2::new(-50_000, 0) })
    );
    let v = world.slots[near.id].velocity.unwrap().v;
    assert_eq!(v, Vector2::new(-2772, 49_923));
}

#[test]
fn a_walker_that_reaches_its_last_waypoint_goes_in_that_tick() {
    let mut world = World::new();
    let e = world.create_entity(walker((100, 0), 50_000, vec![Point2::new(0, 0)]));
    EnemyMovementSystem.run(&mut world);
    assert_eq!(world.slots[e.id].guided.as_ref().unwrap().curr_waypoint, 1);
    assert!(world.slots[e.id].doomed);
    assert_eq!(world.slots[e.id].velocity, Some(Velocity { v: Vector2::new(7, 7) }));
    world.maintain();
    assert!(!world.is_alive(e));
    assert!(world.slots[e.id].guided.is_none());
}

#[test]
fn a_walker_never_goes_back_and_lives_until_its_path_is_done() {
    let path = vec![Point2::new(0, 0), Point2::new(10_000, 0), Point2::new(10_000, 10_000)];
    let mut world = World::new();
    let e = world.create_entity(walker((0, 0), 50_000, path));
    let stops = [(0, 0), (3000, 0), (9000, 0), (10_000, 4000), (10_000, 9000)];
    let expected = [1, 1, 2, 2, 3];
    let mut last = 0;
    for (stop, want) in stops.iter().zip(expected.iter()) {
        assert!(world.is_alive(e));
        world.slots[e.id].transform = Some(Transform::new(stop.0, stop.1, 0));
        EnemyMovementSystem.run(&mut world);
        let now = world.slots[e.id].guided.as_ref().unwrap().curr_waypoint;
        assert!(now >= last && now <= last + 1);
        assert_eq!(now, *want);
        assert_eq!(world.slots[e.id].doomed, now == 3);
        last = now;
        world.maintain();
    }
    assert!(!world.is_alive(e));
}

#[test]
fn a_walker_on_its_waypoint_keeps_its_velocity() {
    let mut world = World::new();
    let e = world.create_entity(walker((10_000, 0), 0, vec![Point2::new(10_000, 0)]));
    EnemyMovementSystem.run(&mut world);
    assert_eq!(world.slots[e.id].guided.as_ref().unwrap().curr_waypoint, 0);
    assert_eq!(world.slots[e.id].velocity, Some(Velocity { v: Vector2::new(7, 7) }));
    assert!(!world.slots[e.id].doomed);
}

#[test]
fn a_walker_without_a_path_goes_at_once() {
    let mut world = World::new();
    let e = world.create_entity(walker((0, 0), 50_000, vec![]));
    let mut past = walker((0, 0), 50_000, vec![Point2::new(1, 1)]);
    past.guided.as_mut().unwrap().curr_waypoint = 5;
    let past = world.create_entity(past);
    EnemyMovementSystem.run(&mut world);
    assert!(world.slots[e.id].doomed);
    assert!(world.slots[past.id].doomed);
    assert_eq!(world.slots[past.id].guided.as_ref().unwrap().curr_waypoint, 5);
}

#[test]
fn what_lacks_a_velocity_does_not_walk() {
    let mut world = World::new();
    let mut s = walker((0, 0), 50_000, vec![Point2::new(0, 0)]);
    s.velocity = None;
    let e = world.create_entity(s);
    EnemyMovementSystem.run(&mut world);
    assert_eq!(world.slots[e.id].guided.as_ref().unwrap().curr_waypoint, 0);
    assert!(!world.slots[e.id].doomed);
}

#[test]
fn the_first_enemy_comes_at_once_and_the_next_after_two_seconds() {
    let mut world = World::new();
    let set = EnemyPrefabSet::new(template());
    let on = Some(EnemySpawning);
    let mut system = EnemySpawnSystem::new();
    system.run(&mut world, &set, &on, 5_000_000);
    assert_eq!(world.len(), 1);
    assert_eq!(system.last_enemy_spawn, Some(5_000_000));
    system.run(&mut world, &set, &on, 6_000_000);
    system.run(&mut world, &set, &on, 7_000_000);
    assert_eq!(world.len(), 1);
    assert_eq!(system.last_enemy_spawn, Some(5_000_000));
    system.run(&mut world, &set, &on, 7_000_001);
    assert_eq!(world.len(), 2);
    assert_eq!(system.last_enemy_spawn, Some(7_000_001));
    system.run(&mut world, &set, &on, 3);
    assert_eq!(world.len(), 2);
}

#[test]
fn an_enemy_enters_as_the_template_says() {
    let mut world = World::new();
    let set = EnemyPrefabSet::new(template());
    assert_eq!(set.add_enemy(EnemyType::Standard, &mut world), Ok(()));
    let e = &world.slots[0];
    assert!(e.alive && !e.doomed);
    assert_eq!(e.transform, Some(Transform::new(-100_000, 50_000, 400)));
    assert_eq!(e.velocity, Some(Velocity { v: Vector2::new(0, 0) }));
    assert_eq!(e.hitable, Some(Hitable { health: 100_000 }));
    assert_eq!(e.sprite, Some(SpriteRender { sprite_number: 4 }));
    let g = e.guided.as_ref().unwrap();
    assert_eq!(g.speed, 50_000);
    assert_eq!(g.curr_waypoint, 0);
    assert_eq!(g.waypoints, vec![Point2::new(0, 50_000), Point2::new(0, 0)]);
    assert!(e.tower.is_none() && e.bullet.is_none() && e.character.is_none());
    let copy = set.get_handle(EnemyType::Standard).unwrap();
    assert_eq!(copy.guided.waypoints, template().guided.waypoints);
    assert_eq!(copy.hitable, template().hitable);
}

#[test]
fn no_enemy_comes_while_spawning_is_off() {
    let mut world = World::new();
    let set = EnemyPrefabSet::new(template());
    let mut system = EnemySpawnSystem::new();
    system.run(&mut world, &set, &None, 5_000_000);
    assert_eq!(world.len(), 0);
    assert_eq!(system.last_enemy_spawn, None);
}

#[test]
fn without_a_template_no_enemy_is_made() {
    let mut world = World::new();
    let set = EnemyPrefabSet::empty();
    let mut system = EnemySpawnSystem::new();
    system.run(&mut world, &set, &Some(EnemySpawning), 9);
    assert_eq!(world.len(), 0);
    assert_eq!(system.last_enemy_spawn, Some(9));
    assert_eq!(set.add_enemy(EnemyType::Standard, &mut world), Err(PrefabError::EnemyNotLoaded));
    assert!(set.get_handle(EnemyType::Standard).is_err());
    assert_eq!(
        PrefabError::EnemyNotLoaded.message(),
        "Prefab for enemy type Standard was not loaded."
    );
}

use tower_defense::components::{
    Bullet, Camera, SpriteRender, Tower, TowerDirection, Transform, Velocity,
};
use tower_defense::input::{get_mouse_projection, InputHandler};
use tower_defense::math::{Point2, Vector2};
use tower_defense::prefabs::{BulletPrefab, PrefabError};
use tower_defense::resources::{ActiveCamera, BulletPrefabSet, BulletType};
use tower_defense::systems::{ShooterControlSystem, TowerDirectionSystem};
use tower_defense::world::{Entity, Slot, World};

fn tower_at(x: i32, y: i32, active: bool) -> Slot {
    let mut s = Slot::bare();
    s.transform = Some(Transform::new(x, y, 300));
    s.tower = Some(Tower { dir: Vector2::new(0, 1000), sprite_dir: TowerDirection::N, active });
    s.sprite = Some(SpriteRender { sprite_number: 2 });
    s
}

fn camera_at(x: i32, y: i32) -> Slot {
    let mut s = Slot::bare();
    s.transform = Some(Transform::new(x, y, 1000));
    s.camera = Some(Camera {});
    s
}

fn bullets() -> BulletPrefabSet {
    BulletPrefabSet::new(BulletPrefab {
        sprite: SpriteRender { sprite_number: 7 },
        bullet: Bullet { speed: 300_000, hitpoints: 25_000, last_position: None },
    })
}

fn input(fire: bool, x: i32, y: i32) -> InputHandler {
    let mut i = InputHandler::idle();
    i.fire = fire;
    i.pointer = Point2::new(x, y);
    i
}

fn count_bullets(world: &World) -> usize {
    world.slots.iter().filter(|s| s.bullet.is_some()).count()
}

#[test]
fn one_bullet_for_each_release_however_long_fire_is_held() {
    let mut world = World::new();
    world.create_entity(camera_at(0, 0));
    world.create_entity(tower_at(0, 0, true));
    let set = bullets();
    let active = ActiveCamera { entity: None };
    let mut system = ShooterControlSystem::new();
    for _ in 0..10 {
        system.run(&mut world, &input(true, 50_000, 0), &set, &active);
        assert_eq!(count_bullets(&world), 0);
    }
    system.run(&mut world, &input(false, 50_000, 0), &set, &active);
    assert_eq!(count_bullets(&world), 1);
    for _ in 0..3 {
        system.run(&mut world, &input(false, 50_000, 0), &set, &active);
        assert_eq!(count_bullets(&world), 1);
    }
    system.run(&mut world, &input(true, 50_000, 0), &set, &active);
    system.run(&mut world, &input(false, 50_000, 0), &set, &active);
    assert_eq!(count_bullets(&world), 2);
}

#[test]
fn the_bullet_starts_above_the_tower_along_its_aim() {
    let mut world = World::new();
    world.create_entity(camera_at(0, 0));
    world.create_entity(tower_at(2000, -3000, true));
    let set = bullets();
    let active = ActiveCamera { entity: None };
    let mut system = ShooterControlSystem::new();
    system.run(&mut world, &input(true, 5000, 1000), &set, &active);
    system.run(&mut world, &input(false, 5000, 1000), &set, &active);
    assert_eq!(world.len(), 3);
    let bullet = &world.slots[2];
    assert!(bullet.alive && !bullet.doomed);
    assert_eq!(bullet.transform, Some(Transform::new(2000, 7000, 200)));
    assert_eq!(bullet.velocity, Some(Velocity { v: Vector2::new(600, 800) }));
    assert_eq!(
        bullet.bullet,
        Some(Bullet { speed: 300_000, hitpoints: 25_000, last_position: None })
    );
    assert_eq!(bullet.sprite, Some(SpriteRender { sprite_number: 7 }));
    assert!(bullet.tower.is_none() && bullet.hitable.is_none() && bullet.guided.is_none());
}

#[test]
fn only_active_towers_fire_and_in_their_order() {
    let mut world = World::new();
    world.create_entity(camera_at(0, 0));
    world.create_entity(tower_at(1000, 0, true));
    world.create_entity(tower_at(2000, 0, false));
    world.create_entity(tower_at(3000, 0, true));
    let set = bullets();
    let active = ActiveCamera { entity: None };
    let mut system = ShooterControlSystem::new();
    system.run(&mut world, &input(true, 0, 0), &set, &active);
    system.run(&mut world, &input(false, 0, 0), &set, &active);
    assert_eq!(world.len(), 6);
    assert_eq!(world.slots[4].transform, Some(Transform::new(1000, 10_000, 200)));
    assert_eq!(world.slots[5].transform, Some(Transform::new(3000, 10_000, 200)));
}

#[test]
fn without_a_template_no_bullet_is_made() {
    let mut world = World::new();
    world.create_entity(camera_at(0, 0));
    world.create_entity(tower_at(0, 0, true));
    let set = BulletPrefabSet::empty();
    let active = ActiveCamera { entity: None };
    let mut system = ShooterControlSystem::new();
    system.run(&mut world, &input(true, 0, 0), &set, &active);
    system.run(&mut world, &input(false, 0, 0), &set, &active);
    assert_eq!(world.len(), 2);
    assert!(!system.fire_was_pressed);
    let r = set.add_bullet(BulletType::Standard, Vector2::new(1, 0), Point2::new(0, 0), &mut world);
    assert_eq!(r, Err(PrefabError::BulletNotLoaded));
    assert_eq!(set.get_handle(BulletType::Standard), Err(PrefabError::BulletNotLoaded));
    assert_eq!(world.len(), 2);
}

#[test]
fn a_bullet_near_the_edge_of_the_world_stays_in_it() {
    let mut world = World::new();
    let set = bullets();
    let r = set.add_bullet(
        BulletType::Standard,
        Vector2::new(0, 1000),
        Point2::new(5, i32::MAX - 3),
        &mut world,
    );
    assert_eq!(r, Ok(()));
    assert_eq!(world.slots[0].transform, Some(Transform::new(5, i32::MAX, 200)));
}

#[test]
fn active_towers_aim_at_the_cursor_and_others_rest() {
    let mut world = World::new();
    world.create_entity(camera_at(0, 0));
    let a = world.create_entity(tower_at(0, 0, true));
    let b = world.create_entity(tower_at(0, 0, false));
    let set = bullets();
    let active = ActiveCamera { entity: None };
    let mut system = ShooterControlSystem::new();
    system.run(&mut world, &input(false, -3000, -4000), &set, &active);
    assert_eq!(
        world.slots[a.id].tower,
        Some(Tower { dir: Vector2::new(-600, -800), sprite_dir: TowerDirection::S, active: true })
    );
    assert_eq!(
        world.slots[b.id].tower,
        Some(Tower { dir: Vector2::new(-1000, 0), sprite_dir: TowerDirection::W, active: false })
    );
}

#[test]
fn a_tower_under_the_cursor_faces_east() {
    let mut world = World::new();
    world.create_entity(camera_at(0, 0));
    let a = world.create_entity(tower_at(700, 700, true));
    let set = bullets();
    let active = ActiveCamera { entity: None };
    ShooterControlSystem::new().run(&mut world, &input(false, 700, 700), &set, &active);
    assert_eq!(
        world.slots[a.id].tower,
        Some(Tower { dir: Vector2::new(0, 0), sprite_dir: TowerDirection::E, active: true })
    );
}

#[test]
fn without_a_camera_towers_keep_their_aim_and_still_fire() {
    let mut world = World::new();
    let a = world.create_entity(tower_at(0, 0, true));
    let b = world.create_entity(tower_at(0, 0, false));
    let set = bullets();
    let active = ActiveCamera { entity: None };
    let mut system = ShooterControlSystem::new();
    system.run(&mut world, &input(true, 5000, 0), &set, &active);
    system.run(&mut world, &input(false, 5000, 0), &set, &active);
    assert_eq!(world.slots[a.id].tower.unwrap().dir, Vector2::new(0, 1000));
    assert_eq!(world.slots[b.id].tower.unwrap().dir, Vector2::new(0, 1000));
    assert_eq!(world.len(), 3);
    assert_eq!(world.slots[2].velocity, Some(Velocity { v: Vector2::new(0, 1000) }));
}

#[test]
fn the_cursor_is_seen_through_the_active_camera_or_any_other() {
    let mut world = World::new();
    let i = input(false, 123, 456);
    assert_eq!(get_mouse_projection(&world, &i, &ActiveCamera { entity: None }), None);
    let mut unplaced = Slot::bare();
    unplaced.camera = Some(Camera {});
    let unplaced = world.create_entity(unplaced);
    assert_eq!(get_mouse_projection(&world, &i, &ActiveCamera { entity: Some(unplaced) }), None);
    let cam = world.create_entity(camera_at(0, 0));
    let p = Some(Point2::new(123, 456));
    assert_eq!(get_mouse_projection(&world, &i, &ActiveCamera { entity: None }), p);
    assert_eq!(get_mouse_projection(&world, &i, &ActiveCamera { entity: Some(cam) }), p);
    assert_eq!(get_mouse_projection(&world, &i, &ActiveCamera { entity: Some(unplaced) }), p);
    assert_eq!(
        get_mouse_projection(&world, &i, &ActiveCamera { entity: Some(Entity { id: 99 }) }),
        p
    );
    let active = ActiveCamera { entity: Some(unplaced) };
    assert_eq!(active.viewing(&world), Some(cam));
    let second = world.create_entity(camera_at(5, 5));
    assert_eq!(ActiveCamera { entity: Some(second) }.viewing(&world), Some(second));
    assert_eq!(ActiveCamera { entity: None }.viewing(&world), Some(cam));
}

#[test]
fn towers_show_the_way_they_face() {
    let mut world = World::new();
    let mut ids = vec![];
    for d in [TowerDirection::N, TowerDirection::S, TowerDirection::E, TowerDirection::W] {
        let mut s = tower_at(0, 0, false);
        s.tower = Some(Tower { dir: Vector2::new(0, 0), sprite_dir: d, active: false });
        s.sprite = Some(SpriteRender { sprite_number: 9 });
        ids.push(world.create_entity(s));
    }
    let mut bare = tower_at(0, 0, false);
    bare.sprite = None;
    let bare = world.create_entity(bare);
    let mut system = TowerDirectionSystem;
    system.run(&mut world);
    let shown: Vec<usize> =
        ids.iter().map(|e| world.slots[e.id].sprite.unwrap().sprite_number).collect();
    assert_eq!(shown, vec![2, 3, 1, 0]);
    assert!(world.slots[bare.id].sprite.is_none());
    system.run(&mut world);
    let again: Vec<usize> =
        ids.iter().map(|e| world.slots[e.id].sprite.unwrap().sprite_number).collect();
    assert_eq!(again, shown);
}

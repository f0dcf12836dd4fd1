use tower_defense::components::{Guided, Hitable, Transform, Velocity};
use tower_defense::input::{ActionBinding, AxisBinding, InputHandler};
use tower_defense::math::{Point2, Vector2};
use tower_defense::prefabs::PrefabError;
use tower_defense::systems::{
    EnemySpawnSystem, PhysicsSystem, PlacementSystem, PlayerControlSystem, ShooterControlSystem,
    UiEvent, UiEventHandlerSystem, UiEventType,
};
use tower_defense::components::{Camera, SpriteRender, Tower, TowerDirection};
use tower_defense::prefabs::TowerPrefab;
use tower_defense::resources::{
    ActiveCamera, BulletPrefabSet, EnemyPrefabSet, EnemySpawning, TowerPlacement, TowerPrefabSet,
    TowerType,
};
use tower_defense::world::{Entity, Slot, World};

fn mover(at: (i32, i32, i32), v: (i64, i64)) -> Slot {
    let mut s = Slot::bare();
    s.transform = Some(Transform::new(at.0, at.1, at.2));
    s.velocity = Some(Velocity { v: Vector2::new(v.0, v.1) });
    s
}

fn towers() -> TowerPrefabSet {
    TowerPrefabSet::new(TowerPrefab {
        sprite: SpriteRender { sprite_number: 0 },
        tower: Tower { dir: Vector2::new(-1000, 0), sprite_dir: TowerDirection::W, active: false },
    })
}

fn world_with_camera() -> World {
    let mut world = World::new();
    let mut cam = Slot::bare();
    cam.transform = Some(Transform::new(0, 0, 1000));
    cam.camera = Some(Camera {});
    world.create_entity(cam);
    world
}

fn place(down: bool, x: i32, y: i32) -> InputHandler {
    let mut i = InputHandler::idle();
    i.place = down;
    i.pointer = Point2::new(x, y);
    i
}

#[test]
fn entities_are_numbered_in_the_order_of_making() {
    let mut world = World::new();
    assert_eq!(world.len(), 0);
    let a = world.create_entity(Slot::bare());
    let b = world.create_entity(Slot::vacant());
    assert_eq!((a, b), (Entity { id: 0 }, Entity { id: 1 }));
    assert_eq!(world.len(), 2);
    assert!(world.is_alive(a) && world.is_alive(b));
    assert!(!world.is_alive(Entity { id: 2 }));
}

#[test]
fn a_deleted_entity_lives_until_the_end_of_the_tick() {
    let mut world = World::new();
    let mut s = mover((1, 2, 3), (4, 5));
    s.hitable = Some(Hitable { health: 9 });
    s.guided = Some(Guided::new(1, vec![Point2::new(0, 0)]));
    let a = world.create_entity(s);
    let b = world.create_entity(mover((0, 0, 0), (0, 0)));
    assert!(world.delete(a));
    assert!(world.is_alive(a));
    assert!(world.slots[a.id].doomed);
    assert!(world.slots[a.id].hitable.is_some());
    assert!(world.delete(a));
    world.maintain();
    assert!(!world.is_alive(a));
    assert!(world.is_alive(b));
    let gone = &world.slots[a.id];
    assert!(!gone.doomed);
    assert!(gone.transform.is_none() && gone.velocity.is_none() && gone.hitable.is_none());
    assert!(gone.guided.is_none());
    assert_eq!(world.slots[b.id].transform, Some(Transform::new(0, 0, 0)));
    assert!(!world.delete(a));
    assert!(!world.delete(Entity { id: 5 }));
    let c = world.create_entity(Slot::bare());
    assert_eq!(c, Entity { id: 2 });
}

#[test]
fn motion_is_velocity_times_time() {
    let mut world = World::new();
    let a = world.create_entity(mover((0, 0, 600), (60_000, -80_000)));
    let b = world.create_entity(mover((10, 10, 0), (1500, -1500)));
    let mut still = Slot::bare();
    still.transform = Some(Transform::new(5, 5, 5));
    let still = world.create_entity(still);
    let mut system = PhysicsSystem;
    system.run(&mut world, 16_667);
    assert_eq!(world.slots[a.id].transform, Some(Transform::new(1000, -1333, 600)));
    assert_eq!(world.slots[b.id].transform, Some(Transform::new(35, -15, 0)));
    assert_eq!(world.slots[still.id].transform, Some(Transform::new(5, 5, 5)));
    system.run(&mut world, 0);
    assert_eq!(world.slots[a.id].transform, Some(Transform::new(1000, -1333, 600)));
    system.run(&mut world, 1_000_000);
    assert_eq!(world.slots[a.id].transform, Some(Transform::new(61_000, -81_333, 600)));
}

#[test]
fn motion_ends_at_the_edge_of_the_world() {
    let mut world = World::new();
    let a = world.create_entity(mover((i32::MAX - 10, i32::MIN + 10, 0), (1000, -1000)));
    let b = world.create_entity(mover((0, 0, 0), (i64::MAX, i64::MIN)));
    PhysicsSystem.run(&mut world, u32::MAX);
    assert_eq!(world.slots[a.id].transform, Some(Transform::new(i32::MAX, i32::MIN, 0)));
    assert_eq!(world.slots[b.id].transform, Some(Transform::new(i32::MAX, i32::MIN, 0)));
}

#[test]
fn a_transform_can_be_set() {
    let mut t = Transform::new(1, 2, 3);
    assert_eq!(t.translation(), Point2::new(1, 2));
    t.set_translation_xyz(7, 8, 9);
    assert_eq!(t, Transform::new(7, 8, 9));
}

#[test]
fn input_is_read_by_binding() {
    let mut i = InputHandler::idle();
    i.forwards = 250;
    i.sideways = -1000;
    i.activate = true;
    assert_eq!(i.axis_value(&AxisBinding::Forwards), 250);
    assert_eq!(i.axis_value(&AxisBinding::Sideways), -1000);
    assert!(i.action_is_down(&ActionBinding::Activate));
    assert!(!i.action_is_down(&ActionBinding::Fire));
    assert!(!i.action_is_down(&ActionBinding::Place));
    assert_eq!(AxisBinding::Forwards.name(), "Forwards");
    assert_eq!(AxisBinding::Sideways.name(), "Sideways");
    assert_eq!(ActionBinding::Fire.name(), "Fire");
    assert_eq!(ActionBinding::Activate.name(), "Activate");
    assert_eq!(ActionBinding::Place.name(), "Place");
}

#[test]
fn a_click_on_the_button_starts_the_placing() {
    let click = |target| UiEvent { event_type: UiEventType::Click, target };
    let hover = |target| UiEvent { event_type: UiEventType::HoverStart, target };
    let mut system = UiEventHandlerSystem::new();

    let mut placement = Some(TowerPlacement { placing: false });
    system.run(&vec![hover(3), click(4)], Some(3), &mut placement);
    assert_eq!(placement, Some(TowerPlacement { placing: false }));
    system.run(&vec![click(3)], None, &mut placement);
    assert_eq!(placement, Some(TowerPlacement { placing: false }));
    system.run(&vec![hover(3), click(4), click(3), hover(1)], Some(3), &mut placement);
    assert_eq!(placement, Some(TowerPlacement { placing: true }));
    system.run(&vec![], Some(3), &mut placement);
    assert_eq!(placement, Some(TowerPlacement { placing: true }));

    let mut none = None;
    system.run(&vec![click(3)], Some(3), &mut none);
    assert_eq!(none, None);
}

#[test]
fn a_tower_is_placed_when_place_is_let_go() {
    let mut world = world_with_camera();
    let set = towers();
    let active = ActiveCamera { entity: None };
    let mut placement = Some(TowerPlacement { placing: true });
    let mut system = PlacementSystem::new();
    system.run(&mut world, &place(false, 1, 1), &mut placement, &set, &active);
    assert_eq!(world.len(), 1);
    for _ in 0..4 {
        system.run(&mut world, &place(true, 40_000, -7000), &mut placement, &set, &active);
        assert_eq!(world.len(), 1);
        assert_eq!(placement, Some(TowerPlacement { placing: true }));
    }
    system.run(&mut world, &place(false, 40_000, -7000), &mut placement, &set, &active);
    assert_eq!(world.len(), 2);
    assert_eq!(placement, Some(TowerPlacement { placing: false }));
    assert!(!system.place_was_pressed);
    let tower = &world.slots[1];
    assert!(tower.alive);
    assert_eq!(tower.transform, Some(Transform::new(40_000, -7000, 300)));
    assert_eq!(
        tower.tower,
        Some(Tower { dir: Vector2::new(-1000, 0), sprite_dir: TowerDirection::W, active: false })
    );
    assert_eq!(tower.sprite, Some(SpriteRender { sprite_number: 0 }));

    system.run(&mut world, &place(true, 0, 0), &mut placement, &set, &active);
    system.run(&mut world, &place(false, 0, 0), &mut placement, &set, &active);
    assert_eq!(world.len(), 2);
    assert!(!system.place_was_pressed);
}

#[test]
fn nothing_is_placed_while_no_tower_is_being_placed() {
    let mut world = world_with_camera();
    let set = towers();
    let active = ActiveCamera { entity: None };
    let mut system = PlacementSystem::new();
    for mut placement in [None, Some(TowerPlacement { placing: false })] {
        let before = placement;
        system.run(&mut world, &place(true, 0, 0), &mut placement, &set, &active);
        system.run(&mut world, &place(false, 0, 0), &mut placement, &set, &active);
        assert_eq!(world.len(), 1);
        assert_eq!(placement, before);
        assert!(!system.place_was_pressed);
    }
}

#[test]
fn without_a_camera_the_release_waits() {
    let mut world = World::new();
    let set = towers();
    let active = ActiveCamera { entity: None };
    let mut placement = Some(TowerPlacement { placing: true });
    let mut system = PlacementSystem::new();
    system.run(&mut world, &place(true, 5, 5), &mut placement, &set, &active);
    system.run(&mut world, &place(false, 5, 5), &mut placement, &set, &active);
    assert_eq!(world.len(), 0);
    assert_eq!(placement, Some(TowerPlacement { placing: true }));
    assert!(system.place_was_pressed);
    let mut cam = Slot::bare();
    cam.transform = Some(Transform::new(0, 0, 1000));
    cam.camera = Some(Camera {});
    world.create_entity(cam);
    system.run(&mut world, &place(false, 6, 6), &mut placement, &set, &active);
    assert_eq!(world.len(), 2);
    assert_eq!(world.slots[1].transform, Some(Transform::new(6, 6, 300)));
    assert_eq!(placement, Some(TowerPlacement { placing: false }));
}

#[test]
fn without_a_template_no_tower_is_made_and_the_placing_ends() {
    let mut world = world_with_camera();
    let set = TowerPrefabSet::empty();
    let active = ActiveCamera { entity: None };
    let mut placement = Some(TowerPlacement { placing: true });
    let mut system = PlacementSystem::new();
    system.run(&mut world, &place(true, 5, 5), &mut placement, &set, &active);
    system.run(&mut world, &place(false, 5, 5), &mut placement, &set, &active);
    assert_eq!(world.len(), 1);
    assert_eq!(placement, Some(TowerPlacement { placing: false }));
    assert_eq!(
        set.add_tower(TowerType::Standard, Point2::new(0, 0), &mut world),
        Err(PrefabError::TowerNotLoaded)
    );
    assert_eq!(set.get_handle(TowerType::Standard), Err(PrefabError::TowerNotLoaded));
    assert_eq!(
        PrefabError::TowerNotLoaded.message(),
        "Prefab for tower type Standard was not loaded."
    );
    assert_eq!(
        PrefabError::BulletNotLoaded.message(),
        "Prefab for object type Standard was not loaded."
    );
    assert_eq!(towers().get_handle(TowerType::Standard), Ok(towers().standard.unwrap()));
}

#[test]
fn systems_and_sets_start_empty() {
    assert!(!PlayerControlSystem::default().activate_was_pressed);
    assert!(!ShooterControlSystem::default().fire_was_pressed);
    assert!(!PlacementSystem::default().place_was_pressed);
    assert_eq!(EnemySpawnSystem::default().last_enemy_spawn, None);
    assert_eq!(BulletPrefabSet::default(), BulletPrefabSet::empty());
    assert_eq!(TowerPrefabSet::default(), TowerPrefabSet::empty());
    assert!(EnemyPrefabSet::default().standard.is_none());
    assert_eq!(EnemySpawning::default(), EnemySpawning);
}

use tower_defense::components::{Camera, Transform};
use tower_defense::math::Point2;
use tower_defense::resources::{ActiveCamera, FollowedObject};
use tower_defense::systems::CameraFollowSystem;
use tower_defense::world::{Entity, Slot, World};

fn ideal(camera: (i32, i32), followed: (i32, i32), hard_lock: bool) -> (i32, i32) {
    let p = CameraFollowSystem.closest_ideal_position(
        Point2::new(camera.0, camera.1),
        Point2::new(followed.0, followed.1),
        hard_lock,
    );
    (p.x, p.y)
}

fn placed(x: i32, y: i32, z: i32) -> Slot {
    let mut s = Slot::bare();
    s.transform = Some(Transform::new(x, y, z));
    s
}

fn camera(x: i32, y: i32) -> Slot {
    let mut s = placed(x, y, 1000);
    s.camera = Some(Camera {});
    s
}

#[test]
fn a_camera_inside_the_box_stays() {
    assert_eq!(ideal((0, 0), (0, 0), false), (0, 0));
    assert_eq!(ideal((100_000, -50_000), (0, 0), false), (100_000, -50_000));
    assert_eq!(ideal((-119_999, 67_999), (0, 0), false), (-119_999, 67_999));
}

#[test]
fn a_camera_on_the_side_of_the_box_stays() {
    assert_eq!(ideal((120_000, 10_000), (0, 0), false), (120_000, 10_000));
    assert_eq!(ideal((-30_000, -68_000), (0, 0), false), (-30_000, -68_000));
    assert_eq!(ideal((120_000, 68_000), (0, 0), false), (120_000, 68_000));
}

#[test]
fn a_camera_outside_the_box_is_pulled_to_its_side() {
    assert_eq!(ideal((240_000, 0), (0, 0), false), (120_000, 0));
    assert_eq!(ideal((240_000, 100_000), (0, 0), false), (120_000, 50_000));
    assert_eq!(ideal((0, -136_000), (0, 0), false), (0, -68_000));
    assert_eq!(ideal((-100_000, 136_000), (0, 0), false), (-50_000, 68_000));
    assert_eq!(ideal((1_240_000, 2_136_000), (1_000_000, 2_000_000), false), (1_120_000, 2_068_000));
}

#[test]
fn the_pull_is_along_the_way_to_what_is_followed() {
    assert_eq!(ideal((360_000, 100_000), (0, 0), false), (120_000, 33_333));
    assert_eq!(ideal((-360_000, -100_000), (0, 0), false), (-120_000, -33_333));
    assert_eq!(ideal((7, 68_001), (0, 0), false), (6, 68_000));
}

#[test]
fn a_hard_lock_puts_the_camera_on_what_it_follows() {
    assert_eq!(ideal((240_000, 100_000), (5, 6), true), (5, 6));
    assert_eq!(ideal((0, 0), (5, 6), true), (5, 6));
}

#[test]
fn a_second_pull_moves_nothing() {
    let followed = (12_345, -6789);
    for camera in [
        (240_000, 100_000),
        (360_001, 100_003),
        (-500_000, 68_000),
        (12_346, 900_000),
        (0, 0),
        (132_345, 61_211),
        (i32::MAX, i32::MIN),
    ] {
        for hard_lock in [false, true] {
            let once = ideal(camera, followed, hard_lock);
            assert_eq!(ideal(once, followed, hard_lock), once);
        }
    }
}

#[test]
fn at_the_edge_of_the_world_the_box_ends_there() {
    let followed = (i32::MAX - 1000, 0);
    assert_eq!(ideal((i32::MAX, 0), followed, false), (i32::MAX, 0));
    assert_eq!(ideal((0, 0), followed, false), (i32::MAX - 1000 - 120_000, 0));
}

#[test]
fn the_system_moves_the_viewing_camera_and_keeps_its_depth() {
    let mut world = World::new();
    let player = world.create_entity(placed(0, 0, 600));
    let cam = world.create_entity(camera(240_000, 100_000));
    let other = world.create_entity(camera(-900_000, 0));
    let followed = Some(FollowedObject { e: player, hard_lock: false });
    let active = ActiveCamera { entity: None };
    let mut system = CameraFollowSystem;
    system.run(&mut world, &followed, &active);
    assert_eq!(world.slots[cam.id].transform, Some(Transform::new(120_000, 50_000, 1000)));
    assert_eq!(world.slots[other.id].transform, Some(Transform::new(-900_000, 0, 1000)));
    assert_eq!(world.slots[player.id].transform, Some(Transform::new(0, 0, 600)));
    system.run(&mut world, &followed, &active);
    assert_eq!(world.slots[cam.id].transform, Some(Transform::new(120_000, 50_000, 1000)));

    let active = ActiveCamera { entity: Some(other) };
    system.run(&mut world, &followed, &active);
    assert_eq!(world.slots[other.id].transform, Some(Transform::new(-120_000, 0, 1000)));
    assert_eq!(world.slots[cam.id].transform, Some(Transform::new(120_000, 50_000, 1000)));

    let locked = Some(FollowedObject { e: player, hard_lock: true });
    system.run(&mut world, &locked, &active);
    assert_eq!(world.slots[other.id].transform, Some(Transform::new(0, 0, 1000)));
}

#[test]
fn the_system_does_nothing_without_something_to_follow_or_a_camera() {
    let mut world = World::new();
    let player = world.create_entity(placed(0, 0, 600));
    let followed = Some(FollowedObject { e: player, hard_lock: true });
    let active = ActiveCamera { entity: None };
    let mut system = CameraFollowSystem;
    system.run(&mut world, &followed, &active);
    assert_eq!(world.slots[player.id].transform, Some(Transform::new(0, 0, 600)));

    let cam = world.create_entity(camera(500_000, 0));
    system.run(&mut world, &None, &active);
    assert_eq!(world.slots[cam.id].transform, Some(Transform::new(500_000, 0, 1000)));

    let nobody = Some(FollowedObject { e: Entity { id: 40 }, hard_lock: true });
    system.run(&mut world, &nobody, &active);
    assert_eq!(world.slots[cam.id].transform, Some(Transform::new(500_000, 0, 1000)));

    let unplaced = world.create_entity(Slot::bare());
    let lost = Some(FollowedObject { e: unplaced, hard_lock: true });
    system.run(&mut world, &lost, &active);
    assert_eq!(world.slots[cam.id].transform, Some(Transform::new(500_000, 0, 1000)));

    world.delete(player);
    world.maintain();
    system.run(&mut world, &followed, &active);
    assert_eq!(world.slots[cam.id].transform, Some(Transform::new(500_000, 0, 1000)));
}

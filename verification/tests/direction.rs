use tower_defense::components::TowerDirection;
use tower_defense::math::Vector2;
use tower_defense::systems::ShooterControlSystem;

fn facing(x: i64, y: i64) -> TowerDirection {
    ShooterControlSystem::new().get_tower_direction(Vector2::new(x, y))
}

#[test]
fn the_four_axes() {
    assert_eq!(facing(1000, 0), TowerDirection::E);
    assert_eq!(facing(0, 1000), TowerDirection::N);
    assert_eq!(facing(-1000, 0), TowerDirection::W);
    assert_eq!(facing(0, -1000), TowerDirection::S);
}

#[test]
fn each_boundary_belongs_to_one_side() {
    assert_eq!(facing(707, 707), TowerDirection::N);
    assert_eq!(facing(-707, 707), TowerDirection::W);
    assert_eq!(facing(-707, -707), TowerDirection::S);
    assert_eq!(facing(707, -707), TowerDirection::E);
}

#[test]
fn just_off_the_boundaries() {
    assert_eq!(facing(708, 707), TowerDirection::E);
    assert_eq!(facing(706, 707), TowerDirection::N);
    assert_eq!(facing(-706, 707), TowerDirection::N);
    assert_eq!(facing(-708, 707), TowerDirection::W);
    assert_eq!(facing(-707, -706), TowerDirection::W);
    assert_eq!(facing(-706, -707), TowerDirection::S);
    assert_eq!(facing(706, -707), TowerDirection::S);
    assert_eq!(facing(707, -706), TowerDirection::E);
}

#[test]
fn no_direction_faces_east() {
    assert_eq!(facing(0, 0), TowerDirection::E);
}

#[test]
fn extreme_directions() {
    assert_eq!(facing(i64::MIN, i64::MIN), TowerDirection::S);
    assert_eq!(facing(i64::MIN, i64::MAX), TowerDirection::W);
    assert_eq!(facing(i64::MAX, i64::MAX), TowerDirection::N);
    assert_eq!(facing(i64::MAX, i64::MIN), TowerDirection::S);
    assert_eq!(facing(i64::MAX, -i64::MAX), TowerDirection::E);
}

#[test]
fn a_quarter_turn_leads_to_the_next_side() {
    let mut v = (5i64, 2i64);
    let mut seen = vec![];
    for _ in 0..4 {
        seen.push(facing(v.0, v.1));
        v = (-v.1, v.0);
    }
    assert_eq!(
        seen,
        vec![TowerDirection::E, TowerDirection::N, TowerDirection::W, TowerDirection::S]
    );
}

use vstd::prelude::*;
use crate::math::{Point2, Vector2};

verus! {

/// The four ways a tower's picture can face.
#[derive(Clone, Copy, Debug, PartialEq, Eq, Structural)]
pub enum TowerDirection {
    N,
    S,
    E,
    W,
}

/// A tower: where it aims, how its picture faces, and whether the player
/// sits in it.
#[derive(Clone, Copy, Debug, PartialEq, Eq, Structural)]
pub struct Tower {
    pub dir: Vector2,
    pub sprite_dir: TowerDirection,
    pub active: bool,
}

/// A bullet: the speed it flies at, the health it takes, and where it was
/// at the end of the tick before. `last_position` is `None` only until the
/// bullet has been through its first tick.
#[derive(Clone, Copy, Debug, PartialEq, Eq, Structural)]
pub struct Bullet {
    pub speed: i32,
    pub hitpoints: i32,
    pub last_position: Option<Point2>,
}

} // verus!

use vstd::prelude::*;
use crate::math::{Point2, Vector2};

verus! {

/// Where an entity is: a position on the ground plane and a depth, which
/// only orders what is drawn.
#[derive(Clone, Copy, Debug, PartialEq, Eq, Structural)]
pub struct Transform {
    pub x: i32,
    pub y: i32,
    pub z: i32,
}

/// How far an entity moves in one second.
#[derive(Clone, Copy, Debug, PartialEq, Eq, Structural)]
pub struct Velocity {
    pub v: Vector2,
}

impl Transform {
    /// The position on the ground plane.
    pub open spec fn point(self) -> Point2 {
        Point2 { x: self.x, y: self.y }
    }

    /// This transform moved to `p`, at depth `z`.
    pub open spec fn placed(p: Point2, z: i32) -> Transform {
        Transform { x: p.x, y: p.y, z }
    }

    pub fn new(x: i32, y: i32, z: i32) -> (t: Transform)
        ensures
            t == (Transform { x, y, z }),
    {
        Transform { x, y, z }
    }

    pub fn translation(&self) -> (p: Point2)
        ensures
            p == self.point(),
    {
        Point2 { x: self.x, y: self.y }
    }

    pub fn set_translation_xyz(&mut self, x: i32, y: i32, z: i32)
        ensures
            *final(self) == (Transform { x, y, z }),
    {
        self.x = x;
        self.y = y;
        self.z = z;
    }
}

} // verus!

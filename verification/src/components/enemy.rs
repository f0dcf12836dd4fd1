use vstd::prelude::*;
use crate::math::Point2;

verus! {

/// An entity on a path: its speed, the points to reach in turn (the starting
/// point is not one of them), and the index of the point it heads for.
#[derive(Debug)]
pub struct Guided {
    pub speed: i32,
    pub waypoints: Vec<Point2>,
    pub curr_waypoint: usize,
}

/// What a `Guided` holds, as a value.
pub struct GuidedView {
    pub speed: i32,
    pub waypoints: Seq<Point2>,
    pub curr_waypoint: nat,
}

/// Remaining health; at zero or below the entity goes.
#[derive(Clone, Copy, Debug, PartialEq, Eq, Structural)]
pub struct Hitable {
    pub health: i32,
}

impl View for Guided {
    type V = GuidedView;

    open spec fn view(&self) -> GuidedView {
        GuidedView {
            speed: self.speed,
            waypoints: self.waypoints@,
            curr_waypoint: self.curr_waypoint as nat,
        }
    }
}

impl GuidedView {
    /// The index is that of a waypoint, or one past the last: the path is
    /// done and the entity leaves with this tick.
    pub open spec fn well_formed(self) -> bool {
        self.curr_waypoint <= self.waypoints.len()
    }

    /// The path is done.
    pub open spec fn finished(self) -> bool {
        self.curr_waypoint >= self.waypoints.len()
    }
}

impl Guided {
    pub fn new(speed: i32, waypoints: Vec<Point2>) -> (g: Guided)
        ensures
            g@ == (GuidedView { speed, waypoints: waypoints@, curr_waypoint: 0 }),
            g@.well_formed(),
    {
        Guided { speed, waypoints, curr_waypoint: 0 }
    }

    /// A copy with a list of its own.
    pub fn duplicate(&self) -> (g: Guided)
        ensures
            g@ == self@,
    {
        let mut waypoints: Vec<Point2> = Vec::new();
        let mut i: usize = 0;
        while i < self.waypoints.len()
            invariant
                i <= self.waypoints.len(),
                waypoints@ == self.waypoints@.subrange(0, i as int),
            decreases self.waypoints.len() - i,
        {
            waypoints.push(self.waypoints[i]);
            i = i + 1;
        }
        assert(waypoints@ == self.waypoints@);
        Guided { speed: self.speed, waypoints, curr_waypoint: self.curr_waypoint }
    }
}

} // verus!

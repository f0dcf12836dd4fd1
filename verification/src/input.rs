//! What the player does in one tick, and where the cursor points.

use vstd::prelude::*;
use crate::math::Point2;
use crate::resources::camera::{viewing_camera, ActiveCamera};
use crate::world::{SlotView, World};

verus! {

/// The two axes of movement.
#[derive(Clone, Copy, Debug, Hash, PartialEq, Eq, Structural)]
pub enum AxisBinding {
    Forwards,
    Sideways,
}

/// The three things the player can do.
#[derive(Clone, Copy, Debug, Hash, PartialEq, Eq, Structural)]
pub enum ActionBinding {
    Fire,
    Activate,
    Place,
}

/// Names the pair of binding kinds above.
#[derive(Debug)]
pub struct GameBindingTypes;

/// The state of the controls in one tick. An axis is in thousandths, from
/// `-1000` to `1000`. `pointer` is the point of the ground plane that lies
/// under the cursor when seen through the viewing camera; where there is no
/// such camera it means nothing.
#[derive(Clone, Copy, Debug, PartialEq, Eq, Structural)]
pub struct InputHandler {
    pub forwards: i32,
    pub sideways: i32,
    pub fire: bool,
    pub activate: bool,
    pub place: bool,
    pub pointer: Point2,
}

impl AxisBinding {
    /// The name of the axis.
    pub fn name(&self) -> (s: &'static str)
        ensures
            s == match *self {
                AxisBinding::Forwards => "Forwards",
                AxisBinding::Sideways => "Sideways",
            },
    {
        match self {
            AxisBinding::Forwards => "Forwards",
            AxisBinding::Sideways => "Sideways",
        }
    }
}

impl ActionBinding {
    /// The name of the action.
    pub fn name(&self) -> (s: &'static str)
        ensures
            s == match *self {
                ActionBinding::Fire => "Fire",
                ActionBinding::Activate => "Activate",
                ActionBinding::Place => "Place",
            },
    {
        match self {
            ActionBinding::Fire => "Fire",
            ActionBinding::Activate => "Activate",
            ActionBinding::Place => "Place",
        }
    }
}

impl InputHandler {
    /// Nothing pressed, nothing pushed, the cursor over the origin.
    pub fn idle() -> (i: InputHandler)
        ensures
            i == (InputHandler {
                forwards: 0,
                sideways: 0,
                fire: false,
                activate: false,
                place: false,
                pointer: Point2 { x: 0, y: 0 },
            }),
    {
        InputHandler {
            forwards: 0,
            sideways: 0,
            fire: false,
            activate: false,
            place: false,
            pointer: Point2 { x: 0, y: 0 },
        }
    }

    pub open spec fn axis(self, axis: AxisBinding) -> i32 {
        match axis {
            AxisBinding::Forwards => self.forwards,
            AxisBinding::Sideways => self.sideways,
        }
    }

    pub open spec fn down(self, action: ActionBinding) -> bool {
        match action {
            ActionBinding::Fire => self.fire,
            ActionBinding::Activate => self.activate,
            ActionBinding::Place => self.place,
        }
    }

    pub fn axis_value(&self, axis: &AxisBinding) -> (v: i32)
        ensures
            v == self.axis(*axis),
    {
        match axis {
            AxisBinding::Forwards => self.forwards,
            AxisBinding::Sideways => self.sideways,
        }
    }

    pub fn action_is_down(&self, action: &ActionBinding) -> (b: bool)
        ensures
            b == self.down(*action),
    {
        match action {
            ActionBinding::Fire => self.fire,
            ActionBinding::Activate => self.activate,
            ActionBinding::Place => self.place,
        }
    }
}

/// An action was down in the tick before and is up in this one.
pub open spec fn released(was_pressed: bool, is_pressed: bool) -> bool {
    !is_pressed && was_pressed
}

/// The point of the ground plane under the cursor, or `None` where there is
/// no camera to see it through.
pub open spec fn mouse_projection(
    slots: Seq<SlotView>,
    input: InputHandler,
    active_camera: ActiveCamera,
) -> Option<Point2> {
    if viewing_camera(slots, active_camera) is Some {
        Some(input.pointer)
    } else {
        None
    }
}

/// Where the cursor points in the world: `input.pointer`, if the world has a
/// camera to see through (the active one, or else any), and `None` if not.
pub fn get_mouse_projection(world: &World, input: &InputHandler, active_camera: &ActiveCamera) -> (r:
    Option<Point2>)
    ensures
        r == mouse_projection(world@, *input, *active_camera),
{
    match active_camera.viewing(world) {
        Some(_) => Some(input.pointer),
        None => None,
    }
}

} // verus!

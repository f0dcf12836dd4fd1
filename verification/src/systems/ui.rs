//! The button that starts the placing of a tower, and the placing.

use vstd::prelude::*;
use crate::input::{get_mouse_projection, mouse_projection, released, ActionBinding, InputHandler};
use crate::resources::camera::ActiveCamera;
use crate::resources::placement::{tower_slot, TowerPlacement, TowerPrefabSet, TowerType};
use crate::invariants::lemma_placed_well_formed;
use crate::world::{well_formed, SlotView, World};

verus! {

/// What can happen to a widget.
#[derive(Clone, Copy, Debug, PartialEq, Eq, Structural)]
pub enum UiEventType {
    Click,
    ClickStart,
    ClickStop,
    HoverStart,
    HoverStop,
}

/// Something that happened to the widget `target`.
#[derive(Clone, Copy, Debug, PartialEq, Eq, Structural)]
pub struct UiEvent {
    pub event_type: UiEventType,
    pub target: u32,
}

/// Starts the placing of a tower when the tower button is clicked.
#[derive(Clone, Copy, Debug, PartialEq, Eq, Structural)]
pub struct UiEventHandlerSystem;

/// Places a tower where the player points.
#[derive(Clone, Copy, Debug, PartialEq, Eq, Structural)]
pub struct PlacementSystem {
    pub place_was_pressed: bool,
}

/// `event` is a click on `button`.
pub open spec fn clicks(event: UiEvent, button: Option<u32>) -> bool {
    event.event_type == UiEventType::Click && button == Some(event.target)
}

/// One of `events` is a click on `button`.
pub open spec fn clicked(events: Seq<UiEvent>, button: Option<u32>) -> bool {
    exists|i: int| 0 <= i < events.len() && clicks(#[trigger] events[i], button)
}

/// The placing after `events`: it has started if the button was clicked, and
/// goes on if it had started before. Where there is no placing the events
/// are lost.
pub open spec fn handled(
    placement: Option<TowerPlacement>,
    events: Seq<UiEvent>,
    button: Option<u32>,
) -> Option<TowerPlacement> {
    match placement {
        Some(p) => Some(TowerPlacement { placing: p.placing || clicked(events, button) }),
        None => None,
    }
}

/// A tower is being placed: the system follows the "place" action.
pub open spec fn follows(placement: Option<TowerPlacement>) -> bool {
    placement is Some && placement->0.placing
}

/// The player places a tower in this tick: the placing has started and
/// "place" was let go.
pub open spec fn places(placement: Option<TowerPlacement>, input: InputHandler, was_pressed: bool) -> bool {
    follows(placement) && released(was_pressed, input.down(ActionBinding::Place))
}

/// The world after the placing system's tick: a tower more where the cursor
/// points, if the player places one, the cursor points somewhere and the
/// tower template is loaded.
pub open spec fn placed(
    slots: Seq<SlotView>,
    placement: Option<TowerPlacement>,
    input: InputHandler,
    was_pressed: bool,
    set: TowerPrefabSet,
    active_camera: ActiveCamera,
) -> Seq<SlotView> {
    if places(placement, input, was_pressed) {
        match (mouse_projection(slots, input, active_camera), set.handle(TowerType::Standard)) {
            (Some(position), Some(prefab)) => slots.push(tower_slot(prefab, position)),
            _ => slots,
        }
    } else {
        slots
    }
}

impl UiEventHandlerSystem {
    pub fn new() -> (s: UiEventHandlerSystem) {
        UiEventHandlerSystem
    }

    /// Takes the events of a tick. `button` is the tower button, if there is
    /// one. See `handled`.
    pub fn run(
        &mut self,
        events: &Vec<UiEvent>,
        button: Option<u32>,
        tower_placement: &mut Option<TowerPlacement>,
    )
        ensures
            *final(tower_placement) == handled(*old(tower_placement), events@, button),
    {
        if let Some(placement) = *tower_placement {
            let mut placing = placement.placing;
            let mut i: usize = 0;
            while i < events.len()
                invariant
                    i <= events.len(),
                    placing <==> placement.placing || clicked(events@.subrange(0, i as int), button),
                decreases events.len() - i,
            {
                let event = events[i];
                let ghost seen = events@.subrange(0, i as int);
                let ghost more = events@.subrange(0, i + 1);
                if event.event_type == UiEventType::Click {
                    if let Some(b) = button {
                        if b == event.target {
                            placing = true;
                        }
                    }
                }
                proof {
                    assert(more[i as int] == events@[i as int]);
                    if clicked(seen, button) {
                        let k = choose|k: int| 0 <= k < seen.len() && clicks(#[trigger] seen[k], button);
                        assert(clicks(more[k], button));
                    }
                    if clicked(more, button) && !clicks(event, button) {
                        let k = choose|k: int| 0 <= k < more.len() && clicks(#[trigger] more[k], button);
                        assert(clicks(seen[k], button));
                    }
                }
                i = i + 1;
            }
            assert(events@.subrange(0, i as int) == events@);
            *tower_placement = Some(TowerPlacement { placing });
        }
    }
}

impl PlacementSystem {
    pub fn new() -> (s: PlacementSystem)
        ensures
            !s.place_was_pressed,
    {
        PlacementSystem { place_was_pressed: false }
    }

    /// One tick. While a tower is being placed, the system follows the
    /// "place" action. When it is let go, a tower is made where the cursor
    /// points and the placing ends. Where the cursor points nowhere the tick
    /// changes nothing, and the release is still to be served.
    pub fn run(
        &mut self,
        world: &mut World,
        input: &InputHandler,
        tower_placement: &mut Option<TowerPlacement>,
        tower_prefab_set: &TowerPrefabSet,
        active_camera: &ActiveCamera,
    )
        ensures
            final(world)@ == placed(
                old(world)@,
                *old(tower_placement),
                *input,
                old(self).place_was_pressed,
                *tower_prefab_set,
                *active_camera,
            ),
            *final(tower_placement) == if places(
                *old(tower_placement),
                *input,
                old(self).place_was_pressed,
            ) && mouse_projection(old(world)@, *input, *active_camera) is Some {
                Some(TowerPlacement { placing: false })
            } else {
                *old(tower_placement)
            },
            final(self).place_was_pressed == if follows(*old(tower_placement)) && !(places(
                *old(tower_placement),
                *input,
                old(self).place_was_pressed,
            ) && mouse_projection(old(world)@, *input, *active_camera) is None) {
                input.down(ActionBinding::Place)
            } else {
                old(self).place_was_pressed
            },
            well_formed(old(world)@) ==> well_formed(final(world)@),
    {
        proof {
            if well_formed(old(world)@) {
                lemma_placed_well_formed(
                    old(world)@,
                    *old(tower_placement),
                    *input,
                    old(self).place_was_pressed,
                    *tower_prefab_set,
                    *active_camera,
                );
            }
        }
        if let Some(placement) = *tower_placement {
            if placement.placing {
                let place_is_pressed = input.action_is_down(&ActionBinding::Place);
                if !place_is_pressed && self.place_was_pressed {
                    let position = match get_mouse_projection(world, input, active_camera) {
                        Some(p) => p,
                        None => {
                            return ;
                        },
                    };
                    let _ = tower_prefab_set.add_tower(TowerType::Standard, position, world);
                    *tower_placement = Some(TowerPlacement { placing: false });
                }
                self.place_was_pressed = place_is_pressed;
            }
        }
    }
}

impl Default for PlacementSystem {
    fn default() -> (s: PlacementSystem)
        ensures
            !s.place_was_pressed,
    {
        PlacementSystem { place_was_pressed: false }
    }
}

} // verus!

use vstd::prelude::*;

verus! {

/// The character that the player steers: its speed, and whether it sits in a
/// tower (`locked`) or walks.
#[derive(Clone, Copy, Debug, PartialEq, Eq, Structural)]
pub struct ControlledCharacter {
    pub speed: i32,
    pub locked: bool,
}

} // verus!

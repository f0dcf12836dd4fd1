use vstd::prelude::*;

verus! {

/// Marks an entity through which the world is seen.
#[derive(Clone, Copy, Debug, PartialEq, Eq, Structural)]
pub struct Camera {}

/// Which picture of its sheet an entity shows.
#[derive(Clone, Copy, Debug, PartialEq, Eq, Structural)]
pub struct SpriteRender {
    pub sprite_number: usize,
}

} // verus!

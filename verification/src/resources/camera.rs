use vstd::prelude::*;
use crate::world::{Entity, SlotView, World};

verus! {

/// The entity that the camera follows. With `hard_lock` the camera sits on
/// it; without, the camera keeps within a box around it.
#[derive(Clone, Copy, Debug, PartialEq, Eq, Structural)]
pub struct FollowedObject {
    pub e: Entity,
    pub hard_lock: bool,
}

/// The camera that was chosen to see the world through, if one was.
#[derive(Clone, Copy, Debug, PartialEq, Eq, Structural)]
pub struct ActiveCamera {
    pub entity: Option<Entity>,
}

/// A camera that has a place in the world.
pub open spec fn is_view(s: SlotView) -> bool {
    s.camera is Some && s.transform is Some
}

/// `i` is the first slot with a placed camera.
pub open spec fn is_first_view(slots: Seq<SlotView>, i: int) -> bool {
    &&& 0 <= i < slots.len()
    &&& is_view(slots[i])
    &&& forall|j: int| 0 <= j < i ==> !is_view(#[trigger] slots[j])
}

/// The camera through which the world is seen: the active camera, if it is
/// alive and placed; else the first placed camera there is; else none.
pub open spec fn viewing_camera(slots: Seq<SlotView>, active: ActiveCamera) -> Option<int> {
    if active_is_view(slots, active) {
        Some(active.entity->0.id as int)
    } else if exists|i: int| is_first_view(slots, i) {
        Some(choose|i: int| is_first_view(slots, i))
    } else {
        None
    }
}

/// The active camera is named, alive and placed.
pub open spec fn active_is_view(slots: Seq<SlotView>, active: ActiveCamera) -> bool {
    active.entity matches Some(a) && a.id < slots.len() && slots[a.id as int].alive && is_view(
        slots[a.id as int],
    )
}

/// There is one first placed camera at most.
pub proof fn lemma_first_view_unique(slots: Seq<SlotView>, i: int, j: int)
    requires
        is_first_view(slots, i),
        is_first_view(slots, j),
    ensures
        i == j,
{
}

impl ActiveCamera {
    /// The camera through which `world` is seen.
    pub fn viewing(&self, world: &World) -> (r: Option<Entity>)
        ensures
            match r {
                Some(e) => viewing_camera(world@, *self) == Some(e.id as int),
                None => viewing_camera(world@, *self) is None,
            },
    {
        if let Some(a) = self.entity {
            if a.id < world.slots.len() {
                let slot = &world.slots[a.id];
                if slot.alive && slot.camera.is_some() && slot.transform.is_some() {
                    return Some(a);
                }
            }
        }
        assert(!active_is_view(world@, *self));
        let n: usize = world.slots.len();
        let mut i: usize = 0;
        while i < n
            invariant
                i <= n,
                n == world@.len(),
                !active_is_view(world@, *self),
                forall|j: int| 0 <= j < i ==> !is_view(#[trigger] world@[j]),
            decreases n - i,
        {
            let slot = &world.slots[i];
            if slot.camera.is_some() && slot.transform.is_some() {
                proof {
                    assert(is_first_view(world@, i as int));
                    let k = choose|k: int| is_first_view(world@, k);
                    lemma_first_view_unique(world@, i as int, k);
                }
                return Some(Entity { id: i });
            }
            i = i + 1;
        }
        assert(forall|k: int| !is_first_view(world@, k));
        None
    }
}

} // verus!

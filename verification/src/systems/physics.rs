//! Motion.

use vstd::prelude::*;
use crate::components::Transform;
use crate::math::{divide, quotient, saturate, saturated};
use crate::invariants::lemma_moved_well_formed;
use crate::world::{well_formed, SlotView, World};

verus! {

/// The number of time steps in a second: time is counted in microseconds.
pub const STEPS_PER_SECOND: i64 = 1000000;

/// Moves what has a velocity.
#[derive(Clone, Copy, Debug, PartialEq, Eq, Structural)]
pub struct PhysicsSystem;

/// How far a coordinate goes in `step` microseconds at the speed `v`, from
/// `x`: to `x + v * step / 1000000`, rounded towards `x`, and no farther
/// than the edge of the world.
pub open spec fn advanced(x: i32, v: i64, step: u32) -> i32 {
    saturated(x + quotient(v * step, STEPS_PER_SECOND as int)) as i32
}

/// A placed entity with a velocity after a tick of `step` microseconds:
/// moved on the ground plane, at the depth it had. Other slots stay as they
/// are.
pub open spec fn moved(s: SlotView, step: u32) -> SlotView {
    if s.velocity is Some && s.transform is Some {
        let t = s.transform->0;
        let v = s.velocity->0.v;
        SlotView {
            transform: Some(
                Transform { x: advanced(t.x, v.x, step), y: advanced(t.y, v.y, step), z: t.z },
            ),
            ..s
        }
    } else {
        s
    }
}

fn advance(x: i32, v: i64, step: u32) -> (r: i32)
    ensures
        r == advanced(x, v, step),
{
    let wide: i128 = v as i128;
    let time: i128 = step as i128;
    assert(-0x8000_0000_0000_0000 * 0x1_0000_0000 <= wide * time <= 0x8000_0000_0000_0000
        * 0x1_0000_0000) by (nonlinear_arith)
        requires
            -0x8000_0000_0000_0000 <= wide <= 0x8000_0000_0000_0000,
            0 <= time <= 0x1_0000_0000,
    ;
    let way: i128 = divide(wide * time, STEPS_PER_SECOND as i128);
    proof {
        let a = wide * time;
        let m: int = if a >= 0 { a } else { -a };
        assert(0 <= m / 1000000 <= m);
    }
    saturate(x as i128 + way)
}

impl PhysicsSystem {
    /// One tick of `step` microseconds: every slot moves. See `moved`.
    pub fn run(&mut self, world: &mut World, step: u32)
        ensures
            final(world)@.len() == old(world)@.len(),
            forall|i: int|
                0 <= i < old(world)@.len() ==> #[trigger] final(world)@[i] == moved(
                    old(world)@[i],
                    step,
                ),
            well_formed(old(world)@) ==> well_formed(final(world)@),
    {
        let n: usize = world.slots.len();
        let ghost start = world@;
        let mut i: usize = 0;
        while i < n
            invariant
                i <= n,
                n == world@.len(),
                n == start.len(),
                forall|j: int| 0 <= j < i ==> #[trigger] world@[j] == moved(start[j], step),
                forall|j: int| i <= j < n ==> #[trigger] world@[j] == start[j],
            decreases n - i,
        {
            let ghost before = world@;
            assert(before[i as int] == start[i as int]);
            if let Some(velocity) = world.slots[i].velocity {
                if let Some(t) = world.slots[i].transform {
                    world.slots[i].transform = Some(
                        Transform {
                            x: advance(t.x, velocity.v.x, step),
                            y: advance(t.y, velocity.v.y, step),
                            z: t.z,
                        },
                    );
                }
            }
            assert(forall|j: int| 0 <= j < n && j != i ==> #[trigger] world@[j] == before[j]);
            assert(world@[i as int] == moved(start[i as int], step));
            i = i + 1;
        }
        assert(well_formed(start) ==> well_formed(world@)) by {
            if well_formed(start) {
                assert forall|j: int| 0 <= j < n implies (#[trigger] world@[j]).well_formed() by {
                    lemma_moved_well_formed(start[j], step);
                }
            }
        }
    }
}

} // verus!

//! The component store: one slot for each entity that was ever made, in the
//! order of making. An entity's number is never given out again.

use vstd::prelude::*;
use crate::components::{
    Bullet, Camera, ControlledCharacter, Guided, GuidedView, Hitable, SpriteRender, Tower,
    Transform, Velocity,
};

verus! {

/// The name of an entity: the index of its slot.
#[derive(Clone, Copy, Debug, PartialEq, Eq, Structural)]
pub struct Entity {
    pub id: usize,
}

/// All that the store holds of one entity. `doomed` marks an entity that
/// goes at the end of the tick; until then the systems still see it.
#[derive(Debug)]
pub struct Slot {
    pub alive: bool,
    pub doomed: bool,
    pub transform: Option<Transform>,
    pub velocity: Option<Velocity>,
    pub character: Option<ControlledCharacter>,
    pub tower: Option<Tower>,
    pub bullet: Option<Bullet>,
    pub hitable: Option<Hitable>,
    pub guided: Option<Guided>,
    pub camera: Option<Camera>,
    pub sprite: Option<SpriteRender>,
}

/// A slot as a value.
pub struct SlotView {
    pub alive: bool,
    pub doomed: bool,
    pub transform: Option<Transform>,
    pub velocity: Option<Velocity>,
    pub character: Option<ControlledCharacter>,
    pub tower: Option<Tower>,
    pub bullet: Option<Bullet>,
    pub hitable: Option<Hitable>,
    pub guided: Option<GuidedView>,
    pub camera: Option<Camera>,
    pub sprite: Option<SpriteRender>,
}

/// The store.
#[derive(Debug)]
pub struct World {
    pub slots: Vec<Slot>,
}

impl SlotView {
    /// A slot that holds nothing: what is left of an entity that is gone.
    pub open spec fn vacant() -> SlotView {
        SlotView {
            alive: false,
            doomed: false,
            transform: None,
            velocity: None,
            character: None,
            tower: None,
            bullet: None,
            hitable: None,
            guided: None,
            camera: None,
            sprite: None,
        }
    }

    /// A living entity without components.
    pub open spec fn bare() -> SlotView {
        SlotView { alive: true, ..SlotView::vacant() }
    }

    /// Nothing is held for an entity that is gone, and a path index is
    /// never beyond the end of its path.
    pub open spec fn well_formed(self) -> bool {
        &&& !self.alive ==> self == SlotView::vacant()
        &&& self.guided matches Some(g) ==> g.well_formed()
    }
}

impl View for Slot {
    type V = SlotView;

    open spec fn view(&self) -> SlotView {
        SlotView {
            alive: self.alive,
            doomed: self.doomed,
            transform: self.transform,
            velocity: self.velocity,
            character: self.character,
            tower: self.tower,
            bullet: self.bullet,
            hitable: self.hitable,
            guided: match self.guided {
                Some(g) => Some(g@),
                None => None,
            },
            camera: self.camera,
            sprite: self.sprite,
        }
    }
}

impl View for World {
    type V = Seq<SlotView>;

    open spec fn view(&self) -> Seq<SlotView> {
        Seq::new(self.slots@.len(), |i: int| self.slots@[i]@)
    }
}

/// Every slot of `slots` is well formed.
pub open spec fn well_formed(slots: Seq<SlotView>) -> bool {
    forall|i: int| 0 <= i < slots.len() ==> (#[trigger] slots[i]).well_formed()
}

/// What `slots` becomes at the end of a tick: the doomed entities are gone
/// with all they held, the others stay as they are.
pub open spec fn maintained(slots: Seq<SlotView>) -> Seq<SlotView> {
    Seq::new(
        slots.len(),
        |i: int|
            if slots[i].doomed {
                SlotView::vacant()
            } else {
                slots[i]
            },
    )
}

impl Slot {
    /// A slot that holds nothing.
    pub fn vacant() -> (s: Slot)
        ensures
            s@ == SlotView::vacant(),
    {
        Slot {
            alive: false,
            doomed: false,
            transform: None,
            velocity: None,
            character: None,
            tower: None,
            bullet: None,
            hitable: None,
            guided: None,
            camera: None,
            sprite: None,
        }
    }

    /// A living entity without components, to be filled field by field.
    pub fn bare() -> (s: Slot)
        ensures
            s@ == SlotView::bare(),
    {
        Slot {
            alive: true,
            doomed: false,
            transform: None,
            velocity: None,
            character: None,
            tower: None,
            bullet: None,
            hitable: None,
            guided: None,
            camera: None,
            sprite: None,
        }
    }
}

impl World {
    /// The empty store.
    pub fn new() -> (w: World)
        ensures
            w@ == Seq::<SlotView>::empty(),
    {
        World { slots: Vec::new() }
    }

    /// The number of entities ever made.
    pub fn len(&self) -> (n: usize)
        ensures
            n == self@.len(),
    {
        self.slots.len()
    }

    /// Makes an entity that holds `components`. It is alive and not doomed,
    /// whatever the two flags of `components` say.
    pub fn create_entity(&mut self, components: Slot) -> (e: Entity)
        ensures
            e.id == old(self)@.len(),
            final(self)@ == old(self)@.push(
                SlotView { alive: true, doomed: false, ..components@ },
            ),
            well_formed(old(self)@) && (components@.guided matches Some(g) ==> g.well_formed())
                ==> well_formed(final(self)@),
    {
        let id: usize = self.slots.len();
        let mut slot = components;
        slot.alive = true;
        slot.doomed = false;
        self.slots.push(slot);
        assert(self@ =~= old(self)@.push(SlotView { alive: true, doomed: false, ..components@ }));
        assert(well_formed(old(self)@) && (components@.guided matches Some(g) ==> g.well_formed())
            ==> well_formed(self@)) by {
            if well_formed(old(self)@) {
                assert forall|i: int| 0 <= i < old(self)@.len() implies (#[trigger] self@[i])
                    == old(self)@[i] by {}
            }
        }
        Entity { id }
    }

    /// Whether `e` names an entity that is not gone.
    pub fn is_alive(&self, e: Entity) -> (b: bool)
        ensures
            b <==> e.id < self@.len() && self@[e.id as int].alive,
    {
        e.id < self.slots.len() && self.slots[e.id].alive
    }

    /// Dooms `e`: it goes at the end of the tick. Says whether `e` was
    /// alive; if not, nothing changes.
    pub fn delete(&mut self, e: Entity) -> (done: bool)
        ensures
            done <==> e.id < old(self)@.len() && old(self)@[e.id as int].alive,
            done ==> final(self)@ == old(self)@.update(
                e.id as int,
                SlotView { doomed: true, ..old(self)@[e.id as int] },
            ),
            !done ==> final(self)@ == old(self)@,
            well_formed(old(self)@) ==> well_formed(final(self)@),
    {
        if e.id < self.slots.len() && self.slots[e.id].alive {
            self.slots[e.id].doomed = true;
            assert(self@ =~= old(self)@.update(
                e.id as int,
                SlotView { doomed: true, ..old(self)@[e.id as int] },
            ));
            true
        } else {
            false
        }
    }

    /// Ends the tick: every doomed entity goes, with all it held.
    pub fn maintain(&mut self)
        ensures
            final(self)@ == maintained(old(self)@),
            well_formed(old(self)@) ==> well_formed(final(self)@),
    {
        let n: usize = self.slots.len();
        let ghost start = self@;
        let mut i: usize = 0;
        while i < n
            invariant
                i <= n,
                n == self@.len(),
                n == start.len(),
                forall|j: int| 0 <= j < i ==> #[trigger] self@[j] == maintained(start)[j],
                forall|j: int| i <= j < n ==> #[trigger] self@[j] == start[j],
            decreases n - i,
        {
            let ghost before = self@;
            if self.slots[i].doomed {
                self.slots[i] = Slot::vacant();
            }
            assert(forall|j: int| 0 <= j < n && j != i ==> #[trigger] self@[j] == before[j]);
            assert(before[i as int] == start[i as int]);
            assert(self@[i as int] == maintained(start)[i as int]);
            i = i + 1;
        }
        assert(self@ =~= maintained(old(self)@));
        assert(well_formed(old(self)@) ==> well_formed(self@)) by {
            if well_formed(old(self)@) {
                assert forall|i: int| 0 <= i < self@.len() implies (#[trigger] self@[i]).well_formed() by {
                    assert(old(self)@[i].well_formed());
                }
            }
        }
    }
}

} // verus!

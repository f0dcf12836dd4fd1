use vstd::prelude::*;
use crate::components::Transform;
use crate::math::Point2;
use crate::prefabs::{PrefabError, TowerPrefab};
use crate::world::{well_formed, Slot, SlotView, World};

verus! {

/// The depth at which towers stand.
pub const TOWER_DEPTH: i32 = 300;

/// Whether the player is placing a tower.
#[derive(Clone, Copy, Debug, PartialEq, Eq, Structural)]
pub struct TowerPlacement {
    pub placing: bool,
}

/// The kinds of tower.
#[derive(Clone, Copy, PartialEq, Eq, Hash, Debug, Structural)]
pub enum TowerType {
    Standard,
}

/// The tower templates that are loaded, by kind.
#[derive(Clone, Copy, Debug, PartialEq, Eq, Structural)]
pub struct TowerPrefabSet {
    pub standard: Option<TowerPrefab>,
}

/// A tower just placed at `position`.
pub open spec fn tower_slot(prefab: TowerPrefab, position: Point2) -> SlotView {
    SlotView {
        transform: Some(Transform::placed(position, TOWER_DEPTH)),
        tower: Some(prefab.tower),
        sprite: Some(prefab.sprite),
        ..SlotView::bare()
    }
}

impl TowerPrefabSet {
    /// The set with every kind loaded.
    pub fn new(standard: TowerPrefab) -> (set: TowerPrefabSet)
        ensures
            set.standard == Some(standard),
    {
        TowerPrefabSet { standard: Some(standard) }
    }

    /// The set with nothing loaded.
    pub fn empty() -> (set: TowerPrefabSet)
        ensures
            set.standard is None,
    {
        TowerPrefabSet { standard: None }
    }

    pub open spec fn handle(self, tower_type: TowerType) -> Option<TowerPrefab> {
        match tower_type {
            TowerType::Standard => self.standard,
        }
    }

    /// The template of a kind, or the error that it is not loaded.
    pub fn get_handle(&self, tower_type: TowerType) -> (r: Result<TowerPrefab, PrefabError>)
        ensures
            match self.handle(tower_type) {
                Some(prefab) => r == Ok::<TowerPrefab, PrefabError>(prefab),
                None => r == Err::<TowerPrefab, PrefabError>(PrefabError::TowerNotLoaded),
            },
    {
        let handle = match tower_type {
            TowerType::Standard => self.standard,
        };
        match handle {
            Some(prefab) => Ok(prefab),
            None => Err(PrefabError::TowerNotLoaded),
        }
    }

    /// Makes a tower of a kind at `position`. Where the kind is not loaded
    /// nothing is made.
    pub fn add_tower(&self, tower_type: TowerType, position: Point2, world: &mut World) -> (r: Result<
        (),
        PrefabError,
    >)
        ensures
            match self.handle(tower_type) {
                Some(prefab) => r is Ok && final(world)@ == old(world)@.push(
                    tower_slot(prefab, position),
                ),
                None => r == Err::<(), PrefabError>(PrefabError::TowerNotLoaded) && final(world)@
                    == old(world)@,
            },
            well_formed(old(world)@) ==> well_formed(final(world)@),
    {
        let prefab = match self.get_handle(tower_type) {
            Ok(prefab) => prefab,
            Err(e) => {
                return Err(e);
            },
        };
        let mut slot = Slot::bare();
        let mut transform = Transform { x: 0, y: 0, z: 0 };
        transform.set_translation_xyz(position.x, position.y, TOWER_DEPTH);
        slot.transform = Some(transform);
        slot.tower = Some(prefab.tower);
        slot.sprite = Some(prefab.sprite);
        world.create_entity(slot);
        Ok(())
    }
}

impl Default for TowerPrefabSet {
    fn default() -> (set: TowerPrefabSet)
        ensures
            set.standard is None,
    {
        TowerPrefabSet { standard: None }
    }
}

} // verus!

use vstd::prelude::*;
use crate::prefabs::{EnemyPrefab, EnemyPrefabView, PrefabError};
use crate::world::{well_formed, Slot, SlotView, World};

verus! {

/// While this is there, enemies come.
#[derive(Clone, Copy, Debug, PartialEq, Eq, Structural)]
pub struct EnemySpawning;

/// The kinds of enemy.
#[derive(Clone, Copy, PartialEq, Eq, Hash, Debug, Structural)]
pub enum EnemyType {
    Standard,
}

/// The enemy templates that are loaded, by kind.
#[derive(Debug)]
pub struct EnemyPrefabSet {
    pub standard: Option<EnemyPrefab>,
}

/// An enemy as it enters the world.
pub open spec fn enemy_slot(prefab: EnemyPrefabView) -> SlotView {
    SlotView {
        transform: Some(prefab.transform),
        velocity: Some(prefab.velocity),
        guided: Some(prefab.guided),
        hitable: Some(prefab.hitable),
        sprite: Some(prefab.sprite),
        ..SlotView::bare()
    }
}

impl EnemyPrefabSet {
    /// The set with every kind loaded.
    pub fn new(standard: EnemyPrefab) -> (set: EnemyPrefabSet)
        ensures
            set.handle(EnemyType::Standard) == Some(standard@),
    {
        EnemyPrefabSet { standard: Some(standard) }
    }

    /// The set with nothing loaded.
    pub fn empty() -> (set: EnemyPrefabSet)
        ensures
            set.handle(EnemyType::Standard) is None,
    {
        EnemyPrefabSet { standard: None }
    }

    pub open spec fn handle(self, enemy_type: EnemyType) -> Option<EnemyPrefabView> {
        match enemy_type {
            EnemyType::Standard => match self.standard {
                Some(prefab) => Some(prefab@),
                None => None,
            },
        }
    }

    /// A copy of the template of a kind, or the error that it is not loaded.
    pub fn get_handle(&self, enemy_type: EnemyType) -> (r: Result<EnemyPrefab, PrefabError>)
        ensures
            match self.handle(enemy_type) {
                Some(prefab) => r is Ok && r->Ok_0@ == prefab,
                None => r == Err::<EnemyPrefab, PrefabError>(PrefabError::EnemyNotLoaded),
            },
    {
        let handle = match enemy_type {
            EnemyType::Standard => &self.standard,
        };
        match handle {
            Some(prefab) => Ok(prefab.duplicate()),
            None => Err(PrefabError::EnemyNotLoaded),
        }
    }

    /// Makes an enemy of a kind. Where the kind is not loaded nothing is
    /// made.
    pub fn add_enemy(&self, enemy_type: EnemyType, world: &mut World) -> (r: Result<(), PrefabError>)
        ensures
            match self.handle(enemy_type) {
                Some(prefab) => r is Ok && final(world)@ == old(world)@.push(enemy_slot(prefab)),
                None => r == Err::<(), PrefabError>(PrefabError::EnemyNotLoaded) && final(world)@
                    == old(world)@,
            },
            well_formed(old(world)@) && (self.handle(enemy_type) matches Some(prefab)
                ==> prefab.guided.well_formed()) ==> well_formed(final(world)@),
    {
        let prefab = match self.get_handle(enemy_type) {
            Ok(prefab) => prefab,
            Err(e) => {
                return Err(e);
            },
        };
        let mut slot = Slot::bare();
        slot.transform = Some(prefab.transform);
        slot.velocity = Some(prefab.velocity);
        slot.hitable = Some(prefab.hitable);
        slot.sprite = Some(prefab.sprite);
        slot.guided = Some(prefab.guided);
        world.create_entity(slot);
        Ok(())
    }
}

impl Default for EnemyPrefabSet {
    fn default() -> (set: EnemyPrefabSet)
        ensures
            set.handle(EnemyType::Standard) is None,
    {
        EnemyPrefabSet { standard: None }
    }
}

impl Default for EnemySpawning {
    fn default() -> (s: EnemySpawning) {
        EnemySpawning
    }
}

} // verus!

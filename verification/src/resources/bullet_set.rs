use vstd::prelude::*;
use crate::components::{Transform, Velocity};
use crate::math::{saturate, saturated, Point2, Vector2};
use crate::prefabs::{BulletPrefab, PrefabError};
use crate::world::{well_formed, Slot, SlotView, World};

verus! {

/// A bullet starts this far above the tower that fires it.
pub const BULLET_LIFT: i32 = 10000;

/// The depth at which bullets fly.
pub const BULLET_DEPTH: i32 = 200;

/// The kinds of bullet.
#[derive(Clone, Copy, PartialEq, Eq, Hash, Debug, Structural)]
pub enum BulletType {
    Standard,
}

/// The bullet templates that are loaded, by kind.
#[derive(Clone, Copy, Debug, PartialEq, Eq, Structural)]
pub struct BulletPrefabSet {
    pub standard: Option<BulletPrefab>,
}

/// A bullet just fired from `position` along `dir`.
pub open spec fn bullet_slot(prefab: BulletPrefab, dir: Vector2, position: Point2) -> SlotView {
    SlotView {
        transform: Some(
            Transform {
                x: position.x,
                y: saturated(position.y + BULLET_LIFT) as i32,
                z: BULLET_DEPTH,
            },
        ),
        velocity: Some(Velocity { v: dir }),
        bullet: Some(prefab.bullet),
        sprite: Some(prefab.sprite),
        ..SlotView::bare()
    }
}

impl BulletPrefabSet {
    /// The set with every kind loaded.
    pub fn new(standard: BulletPrefab) -> (set: BulletPrefabSet)
        ensures
            set.standard == Some(standard),
    {
        BulletPrefabSet { standard: Some(standard) }
    }

    /// The set with nothing loaded.
    pub fn empty() -> (set: BulletPrefabSet)
        ensures
            set.standard is None,
    {
        BulletPrefabSet { standard: None }
    }

    pub open spec fn handle(self, bullet_type: BulletType) -> Option<BulletPrefab> {
        match bullet_type {
            BulletType::Standard => self.standard,
        }
    }

    /// The template of a kind, or the error that it is not loaded.
    pub fn get_handle(&self, bullet_type: BulletType) -> (r: Result<BulletPrefab, PrefabError>)
        ensures
            match self.handle(bullet_type) {
                Some(prefab) => r == Ok::<BulletPrefab, PrefabError>(prefab),
                None => r == Err::<BulletPrefab, PrefabError>(PrefabError::BulletNotLoaded),
            },
    {
        let handle = match bullet_type {
            BulletType::Standard => self.standard,
        };
        match handle {
            Some(prefab) => Ok(prefab),
            None => Err(PrefabError::BulletNotLoaded),
        }
    }

    /// Makes a bullet of a kind above `position`, flying along `dir`. Where
    /// the kind is not loaded nothing is made.
    pub fn add_bullet(
        &self,
        bullet_type: BulletType,
        dir: Vector2,
        position: Point2,
        world: &mut World,
    ) -> (r: Result<(), PrefabError>)
        ensures
            match self.handle(bullet_type) {
                Some(prefab) => r is Ok && final(world)@ == old(world)@.push(
                    bullet_slot(prefab, dir, position),
                ),
                None => r == Err::<(), PrefabError>(PrefabError::BulletNotLoaded) && final(world)@
                    == old(world)@,
            },
            well_formed(old(world)@) ==> well_formed(final(world)@),
    {
        let prefab = match self.get_handle(bullet_type) {
            Ok(prefab) => prefab,
            Err(e) => {
                return Err(e);
            },
        };
        let mut slot = Slot::bare();
        slot.transform = Some(
            Transform {
                x: position.x,
                y: saturate(position.y as i128 + BULLET_LIFT as i128),
                z: BULLET_DEPTH,
            },
        );
        slot.velocity = Some(Velocity { v: dir });
        slot.bullet = Some(prefab.bullet);
        slot.sprite = Some(prefab.sprite);
        world.create_entity(slot);
        Ok(())
    }
}

impl Default for BulletPrefabSet {
    fn default() -> (set: BulletPrefabSet)
        ensures
            set.standard is None,
    {
        BulletPrefabSet { standard: None }
    }
}

} // verus!

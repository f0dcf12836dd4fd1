//! The templates from which entities are made. Reading a template from a
//! file is not this library's work: it takes the template as a value.

use vstd::prelude::*;
use crate::components::{
    Bullet, ControlledCharacter, Guided, GuidedView, Hitable, SpriteRender, Tower, Transform,
    Velocity,
};

verus! {

/// What every bullet starts with.
#[derive(Clone, Copy, Debug, PartialEq, Eq, Structural)]
pub struct BulletPrefab {
    pub sprite: SpriteRender,
    pub bullet: Bullet,
}

/// What every tower starts with.
#[derive(Clone, Copy, Debug, PartialEq, Eq, Structural)]
pub struct TowerPrefab {
    pub sprite: SpriteRender,
    pub tower: Tower,
}

/// What the player's character starts with.
#[derive(Clone, Copy, Debug, PartialEq, Eq, Structural)]
pub struct PlayerPrefab {
    pub sprite: SpriteRender,
    pub transform: Transform,
    pub velocity: Velocity,
    pub controlled_character: ControlledCharacter,
}

/// What every enemy starts with.
#[derive(Debug)]
pub struct EnemyPrefab {
    pub sprite: SpriteRender,
    pub transform: Transform,
    pub velocity: Velocity,
    pub guided: Guided,
    pub hitable: Hitable,
}

/// An `EnemyPrefab` as a value.
pub struct EnemyPrefabView {
    pub sprite: SpriteRender,
    pub transform: Transform,
    pub velocity: Velocity,
    pub guided: GuidedView,
    pub hitable: Hitable,
}

/// A template that was asked for and is not there.
#[derive(Clone, Copy, Debug, PartialEq, Eq, Structural)]
pub enum PrefabError {
    BulletNotLoaded,
    EnemyNotLoaded,
    TowerNotLoaded,
}

impl View for EnemyPrefab {
    type V = EnemyPrefabView;

    open spec fn view(&self) -> EnemyPrefabView {
        EnemyPrefabView {
            sprite: self.sprite,
            transform: self.transform,
            velocity: self.velocity,
            guided: self.guided@,
            hitable: self.hitable,
        }
    }
}

impl EnemyPrefab {
    /// A copy with a path of its own.
    pub fn duplicate(&self) -> (p: EnemyPrefab)
        ensures
            p@ == self@,
    {
        EnemyPrefab {
            sprite: self.sprite,
            transform: self.transform,
            velocity: self.velocity,
            guided: self.guided.duplicate(),
            hitable: self.hitable,
        }
    }
}

impl PrefabError {
    /// The error in words.
    pub fn message(&self) -> (s: &'static str)
        ensures
            s == match *self {
                PrefabError::BulletNotLoaded => "Prefab for object type Standard was not loaded.",
                PrefabError::EnemyNotLoaded => "Prefab for enemy type Standard was not loaded.",
                PrefabError::TowerNotLoaded => "Prefab for tower type Standard was not loaded.",
            },
    {
        match self {
            PrefabError::BulletNotLoaded => "Prefab for object type Standard was not loaded.",
            PrefabError::EnemyNotLoaded => "Prefab for enemy type Standard was not loaded.",
            PrefabError::TowerNotLoaded => "Prefab for tower type Standard was not loaded.",
        }
    }
}

} // verus!

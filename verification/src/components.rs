//! The components: plain records that an entity may carry, one of each kind
//! at most.

pub mod enemy;
pub mod physics;
pub mod player;
pub mod render;
pub mod tower;

pub use self::enemy::{Guided, GuidedView, Hitable};
pub use self::physics::{Transform, Velocity};
pub use self::player::ControlledCharacter;
pub use self::render::{Camera, SpriteRender};
pub use self::tower::{Bullet, Tower, TowerDirection};

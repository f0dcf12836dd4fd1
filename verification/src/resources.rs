//! The singletons of a simulation: what there is one of, or none.

pub mod bullet_set;
pub mod camera;
pub mod enemy_set;
pub mod placement;

pub use self::bullet_set::{BulletPrefabSet, BulletType};
pub use self::camera::{ActiveCamera, FollowedObject};
pub use self::enemy_set::{EnemyPrefabSet, EnemySpawning, EnemyType};
pub use self::placement::{TowerPlacement, TowerPrefabSet, TowerType};

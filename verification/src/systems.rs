//! The systems: each advances one aspect of the world by one tick.

pub mod bullet;
pub mod camera;
pub mod controls;
pub mod enemies;
pub mod physics;
pub mod shooter;
pub mod ui;

pub use self::bullet::BulletSystem;
pub use self::camera::CameraFollowSystem;
pub use self::controls::PlayerControlSystem;
pub use self::enemies::{EnemyMovementSystem, EnemySpawnSystem};
pub use self::physics::PhysicsSystem;
pub use self::shooter::{ShooterControlSystem, TowerDirectionSystem};
pub use self::ui::{PlacementSystem, UiEvent, UiEventHandlerSystem, UiEventType};

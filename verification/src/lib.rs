//! The simulation core of a tower-defence game: components, a component
//! store, and the systems that advance the world by one tick.

pub mod components;
pub mod input;
pub mod invariants;
pub mod loading;
pub mod math;
pub mod prefabs;
pub mod resources;
pub mod state;
pub mod systems;
pub mod util;
pub mod world;

//! The rules of a small roguelike, verified: map layout, movement, chasing, combat, the end of
//! a turn, and spawning.

pub mod camera;
pub mod components;
pub mod ecs;
pub mod geometry;
pub mod level;
pub mod map;
pub mod map_builder;
pub mod random;
pub mod spawner;
pub mod systems;
pub mod turn_state;

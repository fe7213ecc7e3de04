//! Dungeon generation and turn logic for a grid-based roguelike.
//!
//! The map model, the map builders (rooms and corridors, cellular automata,
//! drunkard's walk, prefab vaults) and the per-turn rules of the game systems
//! are verified here; rendering, input and the entity store live in the
//! application crate around it.

pub mod geometry;
pub mod map;
pub mod random;
pub mod glyph;
pub mod map_builder;
pub mod pathing;
pub mod classic_builder;
pub mod components;
pub mod turn_state;
pub mod camera;
pub mod spawner;
pub mod systems;
pub mod level;

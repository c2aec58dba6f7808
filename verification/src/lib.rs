//! Turn-based grid-dungeon simulation core: tiles, entities, maps, a
//! multi-map world, and a per-turn update engine with door/key and
//! map-transition rules.

pub mod engine;
pub mod map;
pub mod world;
pub mod style;
pub mod tile;

//! A procedural dungeon generator for a tile-based roguelike.
//!
//! The heart of the crate is [`random_map::RandomMap`]: it turns a requested
//! width and height into a fully connected, wall-bounded grid of corridors
//! and rectangular rooms, prunes dead-end spurs, and derives a sprite index
//! for every wall cell so a renderer can draw seamless wall art.
//!
//! All randomness is consumed through the injected
//! [`random_source::RandomSource`] trait, so generation is deterministic for
//! a deterministic source and the algorithms can be tested in isolation.

pub mod camera;
pub mod deadend;
pub mod game_manager;
pub mod game_object_manager;
pub mod hero;
pub mod input_manager;
pub mod map_component;
pub mod maze;
pub mod random_map;
pub mod random_source;
pub mod rect;
pub mod rooms;
pub mod tiles;
pub mod vector2;

//! Simulation core of a turn-based dungeon crawler: procedural map
//! generation, depth-scaled spawn tables, a small AI state machine,
//! and a combat / equipment / leveling engine.
//!
//! Rendering, input decoding and persistence are outside collaborators;
//! the core consumes a field-of-view answer and writes to a message log.

pub mod ai;
pub mod colors;
pub mod consts;
pub mod engine;
pub mod items;
pub mod mapgen;
pub mod monsters;
pub mod rng;
pub mod spawn;
pub mod text;
pub mod types;
pub mod util;

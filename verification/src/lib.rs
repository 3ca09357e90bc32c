//! A Hanabi engine: game state, per-player knowledge and H-Group convention techniques.
pub mod bits;
pub mod common;
pub mod engine;
pub mod game;

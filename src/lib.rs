//! A 4x4 tile-merging puzzle engine: grid, slides and merges, scoring,
//! seeded tile spawns and terminal-state detection.

pub mod board;
pub mod grid;
pub mod line;
pub mod spawn;
pub mod state;
pub mod text;

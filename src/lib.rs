//! Rules engine of a tile-matching puzzle: a grid of coloured gems, a
//! drag-to-swap validator, maximal-run match detection, gravity and refill
//! cascades, and a score counter.

pub mod gem;
pub mod board;
pub mod detect;
pub mod scoreboard;
pub mod drag;
pub mod systems;
pub mod engine;

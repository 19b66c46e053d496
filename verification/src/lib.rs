//! A discrete-time grid simulation: point organisms occupy cells of a fixed
//! 2D grid, and each tick every organism proposes a move that is validated
//! against the pre-tick grid and committed or downgraded to a no-op.
//!
//! `grid` holds the occupancy grid and the seek-zero probe; `environment`
//! holds the organism registry, the movement validator and the tick engine.

pub mod environment;
pub mod grid;

//! A two-player Connect-Four engine: the grid, move validation, the
//! four-in-a-row detector and the turn sequencing, each with its contract.

pub mod game_config;
pub mod game_master;

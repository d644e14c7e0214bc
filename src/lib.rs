//! Conway's Game of Life: the cell grid and its update rule, preset
//! stencils, the RLE pattern format and population bookkeeping.

pub mod game;
pub mod game_state;
pub mod laws;
pub mod patterns;
pub mod save_load;
pub mod statistics;
pub mod theme;
pub mod text;

//! A snake game on a toroidal grid: the board model, its per-tick transition
//! and the decisions of the loop that drives it.

pub mod board;
pub mod cell;
pub mod direction;
pub mod driver;
pub mod laws;
pub mod model;
pub mod position;
pub mod render;

//! A finite-grid Game of Life: an owning sparse board, rectangular window
//! views over it, neighbor counting, the transition rule, and the tick that
//! derives the next generation.

pub mod board;
pub mod engine;
pub mod transition;
pub mod types;
pub mod window;

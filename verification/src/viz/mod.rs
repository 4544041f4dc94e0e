//! Display helpers for the board viewer.

pub mod tiles;
pub mod board;
pub mod view;

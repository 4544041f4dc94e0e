//! Mahjong rule utilities: tile kinds and hand evaluation.

pub mod hand;
pub mod tiles;

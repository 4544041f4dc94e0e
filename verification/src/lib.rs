//! Mahjong log analytics: tile and hand evaluation, Tenhou mjlog parsing into
//! decision snapshots, and the display helpers used by the board viewer.

pub mod mahjong;
pub mod text;
pub mod snapshot;
pub mod viz;
pub mod parser;
pub mod xml;
pub mod json;
pub mod columns;
pub mod frame;
pub mod cli;
pub mod table;

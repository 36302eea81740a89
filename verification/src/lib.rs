//! Decoder for recorded match files: a header, two signed chunk containers and
//! a trailing stream of per-tick records.

pub mod chunks;
pub mod chunky;
pub mod error;
pub mod header;
pub mod item;
pub mod parser;
pub mod player;
pub mod replay;
pub mod tick;
pub mod ticks;
pub mod views;

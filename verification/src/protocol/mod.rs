//! The wire protocol of the game's chat traffic.

pub mod decoder;
pub mod packet_buffer;
pub mod parser;
pub mod types;

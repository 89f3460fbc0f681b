//! Packet decoding, stream reassembly and chat-message processing for the
//! Resonance Stream chat translator.

pub mod config;
pub mod io;
pub mod packet_buffer;
pub mod protocol;
pub mod python_translator;
pub mod services;
pub mod sniffer;
pub mod state;
pub mod text;
pub mod ui;

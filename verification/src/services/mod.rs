//! The services: update checks, packet capture logic, text processing and
//! translation.

pub mod downloader;
pub mod processor;
pub mod sniffer;
pub mod translator;

//! Persistent settings of the application.

pub mod metadata;

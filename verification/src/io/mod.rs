//! Jobs for the chat archive.

pub mod data_factory;
pub mod fs;

use vstd::prelude::*;

verus! {

/// An original message and its translation, to append to the dataset file.
#[derive(Debug)]
pub struct DataFactoryJob {
    pub pid: u64,
    pub original: String,
    pub translated: Option<String>,
}

} // verus!

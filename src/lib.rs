//! Splitting a file into numbered chunks, checking a chunk set, and merging it back.
use vstd::prelude::*;

pub mod check;
pub mod config;
pub mod error;
pub mod laws;
pub mod merge;
pub mod ordinal;
pub mod split;

pub use config::{BUFFER_CAPACITY_MAX_DEFAULT, CHUNK_SIZE_DEFAULT};

verus! {

} // verus!

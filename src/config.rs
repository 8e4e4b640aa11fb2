use vstd::prelude::*;

verus! {

/// The default chunk size in bytes.
pub const CHUNK_SIZE_DEFAULT: usize = 2 * 1024 * 1024;

/// The default maximum size of the buffer capacity in bytes.
pub const BUFFER_CAPACITY_MAX_DEFAULT: usize = 10 * 1024 * 1024;

/// The capacity of an I/O buffer: the size of a representative sample,
/// bounded above by the configured maximum.
pub fn buffer_capacity(sample_size: usize, max_capacity: usize) -> (r: usize)
    ensures
        r == if sample_size <= max_capacity { sample_size } else { max_capacity },
{
    if sample_size <= max_capacity {
        sample_size
    } else {
        max_capacity
    }
}

/// The length of a copy buffer of the given capacity: never 0, so that each
/// read through it makes progress.
pub fn copy_buffer_len(capacity: usize) -> (r: usize)
    ensures
        r == if capacity == 0 {
            1
        } else {
            capacity
        },
{
    if capacity == 0 {
        1
    } else {
        capacity
    }
}

/// Declares `PathBuf` so that option structures can carry paths.
#[verifier::external_type_specification]
#[verifier::external_body]
pub struct ExPathBuf(std::path::PathBuf);

/// Relies on `PathBuf::clone`, which copies a path; the library's option
/// structures derive `Clone` through it and claim nothing of the copy.
pub assume_specification[ <std::path::PathBuf as Clone>::clone ](p: &std::path::PathBuf) -> std::path::PathBuf;

} // verus!

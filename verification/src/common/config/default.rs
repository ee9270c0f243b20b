//! The values of options that are not given.

use vstd::prelude::*;

use crate::common::config::ChecksumAlgorithm;

verus! {

/// How often a worker sends a heartbeat, in milliseconds.
pub fn heartbeat_interval() -> (r: u32)
    ensures
        r == 1000,
{
    1000
}

/// How many rows a chunk has.
pub fn chunk_size() -> (r: u32)
    ensures
        r == 1024,
{
    1024
}

/// The target size of a table, 256MB.
pub fn sst_size() -> (r: u32)
    ensures
        r == 256 * 1024 * 1024,
{
    268435456
}

/// The size of a block, in bytes.
pub fn block_size() -> (r: u32)
    ensures
        r == 65536,
{
    65536
}

/// The directory of data and metadata.
pub fn data_directory() -> (r: String)
    ensures
        r@ == "hummock_001"@,
{
    "hummock_001".to_owned()
}

/// The checksum algorithm.
pub fn checksum_algorithm() -> (r: ChecksumAlgorithm)
    ensures
        r == ChecksumAlgorithm::XxHash64,
{
    ChecksumAlgorithm::XxHash64
}

/// Whether checkpoints are asynchronous.
pub fn async_checkpoint_enabled() -> (r: bool)
    ensures
        r,
{
    true
}

/// Whether write conflicts are detected: in builds with debug assertions.
pub fn write_conflict_detection_enabled(debug_assertions: bool) -> (r: bool)
    ensures
        r == debug_assertions,
{
    debug_assertions
}

} // verus!

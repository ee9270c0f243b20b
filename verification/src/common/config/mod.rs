//! The options of the nodes.

use vstd::prelude::*;
use vstd::string::StringExecFns;

use crate::common::error::{fails, ErrorCode, ErrorView};

pub mod default;

verus! {

/// A checksum algorithm.
#[derive(Clone, Copy, Debug, PartialEq, Eq, Structural)]
pub enum ChecksumAlgorithm {
    Crc32c,
    XxHash64,
}

/// The options of connections.
#[derive(Debug)]
pub struct ServerConfig {
    pub heartbeat_interval: u32,
}

/// The options of batch queries.
#[derive(Debug)]
pub struct BatchConfig {
    pub chunk_size: u32,
}

/// The options of streams.
#[derive(Debug)]
pub struct StreamingConfig {
    pub chunk_size: u32,
}

/// Currently all configurations are server before they can be specified with DDL syntaxes.
#[derive(Debug)]
pub struct StorageConfig {
    /// Target size of the SSTable.
    pub sstable_size: u32,
    /// Size of each block in bytes in SST.
    pub block_size: u32,
    /// Remote directory for storing data and metadata objects.
    pub data_directory: String,
    /// Checksum algorithm (Crc32c, XxHash64).
    pub checksum_algo: ChecksumAlgorithm,
    /// Whether to enable async checkpoint
    pub async_checkpoint_enabled: bool,
    /// Whether to enable write conflict detection
    pub write_conflict_detection_enabled: bool,
}

/// The options of a compute node.
#[derive(Debug)]
pub struct ComputeNodeConfig {
    pub server: ServerConfig,
    pub batch: BatchConfig,
    pub streaming: StreamingConfig,
    pub storage: StorageConfig,
}

/// The options of a frontend.
#[derive(Debug)]
pub struct FrontendConfig {
    pub server: ServerConfig,
}

impl Default for ServerConfig {
    fn default() -> (r: ServerConfig)
        ensures
            r == (ServerConfig { heartbeat_interval: 1000 }),
    {
        ServerConfig { heartbeat_interval: default::heartbeat_interval() }
    }
}

impl Default for BatchConfig {
    fn default() -> (r: BatchConfig)
        ensures
            r == (BatchConfig { chunk_size: 1024 }),
    {
        BatchConfig { chunk_size: default::chunk_size() }
    }
}

impl Default for StreamingConfig {
    fn default() -> (r: StreamingConfig)
        ensures
            r == (StreamingConfig { chunk_size: 1024 }),
    {
        StreamingConfig { chunk_size: default::chunk_size() }
    }
}

impl Default for FrontendConfig {
    fn default() -> (r: FrontendConfig)
        ensures
            r == (FrontendConfig { server: ServerConfig { heartbeat_interval: 1000 } }),
    {
        FrontendConfig { server: ServerConfig { heartbeat_interval: default::heartbeat_interval() } }
    }
}

/// The algorithm that a name stands for.
pub open spec fn algorithm_named(name: Seq<char>) -> Option<ChecksumAlgorithm> {
    if name == "crc32c"@ {
        Some(ChecksumAlgorithm::Crc32c)
    } else if name == "xxhash64"@ {
        Some(ChecksumAlgorithm::XxHash64)
    } else {
        None
    }
}

/// The algorithm that a name stands for.
pub fn parse_checksum_algo(checksum_algo: &str) -> (r: Option<ChecksumAlgorithm>)
    ensures
        r == algorithm_named(checksum_algo@),
{
    let name: String = checksum_algo.to_owned();
    if name == "crc32c".to_owned() {
        Some(ChecksumAlgorithm::Crc32c)
    } else if name == "xxhash64".to_owned() {
        Some(ChecksumAlgorithm::XxHash64)
    } else {
        None
    }
}

/// The options that were given.
#[derive(Debug)]
pub struct GivenOptions {
    pub heartbeat_interval: Option<u32>,
    pub batch_chunk_size: Option<u32>,
    pub streaming_chunk_size: Option<u32>,
    pub sstable_size: Option<u32>,
    pub block_size: Option<u32>,
    pub data_directory: Option<String>,
    pub checksum_algo: Option<String>,
    pub async_checkpoint_enabled: Option<bool>,
    pub write_conflict_detection_enabled: Option<bool>,
}

/// The number that was given, or its default.
fn or_number(given: Option<u32>, default_value: u32) -> (r: u32)
    ensures
        r == given.unwrap_or(default_value),
{
    match given {
        Some(n) => n,
        None => default_value,
    }
}

/// The choice that was given, or its default.
fn or_choice(given: Option<bool>, default_value: bool) -> (r: bool)
    ensures
        r == given.unwrap_or(default_value),
{
    match given {
        Some(b) => b,
        None => default_value,
    }
}

/// The options are those that were given, and the defaults of the others.
pub open spec fn filled_in(given: GivenOptions, debug_assertions: bool, r: ComputeNodeConfig) -> bool {
    &&& r.server.heartbeat_interval == given.heartbeat_interval.unwrap_or(1000)
    &&& r.batch.chunk_size == given.batch_chunk_size.unwrap_or(1024)
    &&& r.streaming.chunk_size == given.streaming_chunk_size.unwrap_or(1024)
    &&& r.storage.sstable_size == given.sstable_size.unwrap_or(268435456)
    &&& r.storage.block_size == given.block_size.unwrap_or(65536)
    &&& r.storage.data_directory@ == match given.data_directory {
        Some(directory) => directory@,
        None => "hummock_001"@,
    }
    &&& r.storage.checksum_algo == match given.checksum_algo {
        Some(name) => algorithm_named(name@)->0,
        None => ChecksumAlgorithm::XxHash64,
    }
    &&& r.storage.async_checkpoint_enabled == given.async_checkpoint_enabled.unwrap_or(true)
    &&& r.storage.write_conflict_detection_enabled == given.write_conflict_detection_enabled.unwrap_or(
        debug_assertions,
    )
}

impl ComputeNodeConfig {
    /// The options that were given, and the defaults of the others.
    pub fn from_options(given: GivenOptions, debug_assertions: bool) -> (r: Result<ComputeNodeConfig, ErrorCode>)
        ensures
            if given.checksum_algo matches Some(name) && algorithm_named(name@) is None {
                fails(
                    r,
                    ErrorView::InternalError(given.checksum_algo->0@ + " is not supported for Hummock"@),
                )
            } else {
                r matches Ok(config) && filled_in(given, debug_assertions, config)
            },
    {
        let checksum_algo = match &given.checksum_algo {
            Some(name) => match parse_checksum_algo(name.as_str()) {
                Some(algo) => algo,
                None => {
                    let mut m: String = name.clone();
                    m.append(" is not supported for Hummock");
                    return Err(ErrorCode::InternalError(m));
                },
            },
            None => default::checksum_algorithm(),
        };
        let data_directory = match &given.data_directory {
            Some(directory) => directory.clone(),
            None => default::data_directory(),
        };
        Ok(
            ComputeNodeConfig {
                server: ServerConfig {
                    heartbeat_interval: or_number(given.heartbeat_interval, default::heartbeat_interval()),
                },
                batch: BatchConfig { chunk_size: or_number(given.batch_chunk_size, default::chunk_size()) },
                streaming: StreamingConfig {
                    chunk_size: or_number(given.streaming_chunk_size, default::chunk_size()),
                },
                storage: StorageConfig {
                    sstable_size: or_number(given.sstable_size, default::sst_size()),
                    block_size: or_number(given.block_size, default::block_size()),
                    data_directory,
                    checksum_algo,
                    async_checkpoint_enabled: or_choice(
                        given.async_checkpoint_enabled,
                        default::async_checkpoint_enabled(),
                    ),
                    write_conflict_detection_enabled: or_choice(
                        given.write_conflict_detection_enabled,
                        default::write_conflict_detection_enabled(debug_assertions),
                    ),
                },
            },
        )
    }
}

/// An option that was given counts, and where none was given the default does.
pub proof fn law_given_options_count(given: GivenOptions, debug_assertions: bool, r: ComputeNodeConfig)
    requires
        filled_in(given, debug_assertions, r),
        given.checksum_algo matches Some(name) ==> algorithm_named(name@) is Some,
    ensures
        given.heartbeat_interval matches Some(n) ==> r.server.heartbeat_interval == n,
        given.batch_chunk_size matches Some(n) ==> r.batch.chunk_size == n,
        given.streaming_chunk_size matches Some(n) ==> r.streaming.chunk_size == n,
        given.sstable_size matches Some(n) ==> r.storage.sstable_size == n,
        given.block_size matches Some(n) ==> r.storage.block_size == n,
        given.data_directory matches Some(d) ==> r.storage.data_directory@ == d@,
        given.checksum_algo matches Some(name) ==> algorithm_named(name@) == Some(r.storage.checksum_algo),
        given.async_checkpoint_enabled matches Some(b) ==> r.storage.async_checkpoint_enabled == b,
        given.write_conflict_detection_enabled matches Some(b) ==> r.storage.write_conflict_detection_enabled == b,
        given.heartbeat_interval is None ==> r.server.heartbeat_interval == 1000,
        given.batch_chunk_size is None ==> r.batch.chunk_size == 1024,
        given.streaming_chunk_size is None ==> r.streaming.chunk_size == 1024,
        given.sstable_size is None ==> r.storage.sstable_size == 256 * 1024 * 1024,
        given.block_size is None ==> r.storage.block_size == 64 * 1024,
        given.checksum_algo is None ==> r.storage.checksum_algo == ChecksumAlgorithm::XxHash64,
        given.async_checkpoint_enabled is None ==> r.storage.async_checkpoint_enabled,
        given.write_conflict_detection_enabled is None ==> r.storage.write_conflict_detection_enabled == debug_assertions,
{
}

/// A checksum algorithm has just one name.
pub proof fn law_names_of_algorithms(name: Seq<char>)
    ensures
        algorithm_named(name) == Some(ChecksumAlgorithm::Crc32c) <==> name == "crc32c"@,
        algorithm_named(name) == Some(ChecksumAlgorithm::XxHash64) <==> name == "xxhash64"@,
        algorithm_named(name) is None <==> name != "crc32c"@ && name != "xxhash64"@,
{
    reveal_strlit("crc32c");
    reveal_strlit("xxhash64");
    assert("crc32c"@.len() != "xxhash64"@.len());
}

} // verus!

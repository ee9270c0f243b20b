//! The parameters of compaction.

use vstd::prelude::*;

verus! {

/// How the tables that a compaction reads together are found.
#[derive(Clone, Copy, Debug, PartialEq, Eq, Structural)]
pub enum CompactionMode {
    Range,
    ConsistentHash,
}

/// The parameters of compaction.
#[derive(Debug)]
pub struct CompactionConfig {
    pub max_bytes_for_level_base: u64,
    pub max_level: u64,
    pub max_bytes_for_level_multiplier: u64,
    pub max_compaction_bytes: u64,
    pub sub_level_max_compaction_bytes: u64,
    pub level0_trigger_file_number: u64,
    pub level0_tier_compact_file_number: u64,
    pub compaction_mode: CompactionMode,
    pub compression_algorithm: Vec<String>,
    pub target_file_size_base: u64,
    pub compaction_filter_mask: u32,
    pub max_sub_compaction: u32,
}

/// The text of a string literal.
fn text(s: &str) -> (r: String)
    ensures
        r@ == s@,
{
    s.to_owned()
}

impl Default for CompactionConfig {
    fn default() -> (r: CompactionConfig)
        ensures
            r.max_bytes_for_level_base == 0x2000_0000,
            r.max_level == 6,
            r.max_bytes_for_level_multiplier == 5,
            r.max_compaction_bytes == 0x8000_0000,
            r.sub_level_max_compaction_bytes == 0x400_0000,
            r.level0_trigger_file_number == 24,
            r.level0_tier_compact_file_number == 12,
            r.compaction_mode == CompactionMode::Range,
            r.compression_algorithm@.len() == 7,
            r.compression_algorithm@[0]@ == "None"@,
            r.compression_algorithm@[1]@ == "None"@,
            r.compression_algorithm@[2]@ == "None"@,
            r.compression_algorithm@[3]@ == "Lz4"@,
            r.compression_algorithm@[4]@ == "Lz4"@,
            r.compression_algorithm@[5]@ == "Zstd"@,
            r.compression_algorithm@[6]@ == "Zstd"@,
            r.target_file_size_base == 0x200_0000,
            r.compaction_filter_mask == 0,
            r.max_sub_compaction == 4,
    {
        let mut compression_algorithm: Vec<String> = Vec::new();
        compression_algorithm.push(text("None"));
        compression_algorithm.push(text("None"));
        compression_algorithm.push(text("None"));
        compression_algorithm.push(text("Lz4"));
        compression_algorithm.push(text("Lz4"));
        compression_algorithm.push(text("Zstd"));
        compression_algorithm.push(text("Zstd"));
        CompactionConfig {
            max_bytes_for_level_base: 0x2000_0000,
            max_level: 6,
            max_bytes_for_level_multiplier: 5,
            max_compaction_bytes: 0x8000_0000,
            sub_level_max_compaction_bytes: 0x400_0000,
            level0_trigger_file_number: 24,
            level0_tier_compact_file_number: 12,
            compaction_mode: CompactionMode::Range,
            compression_algorithm,
            target_file_size_base: 0x200_0000,
            compaction_filter_mask: 0,
            max_sub_compaction: 4,
        }
    }
}

} // verus!

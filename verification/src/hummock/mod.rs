//! Hummock, the log-structured storage engine: keys, versions, compaction.

pub mod compaction_config;
pub mod key;
pub mod level_handler;
pub mod level_selector;
pub mod level_size;
pub mod min_overlap_compaction_picker;
pub mod multi_builder;
pub mod overlap_strategy;
pub mod picker;
pub mod size_overlap_picker;
pub mod sst_id;
pub mod storage;
pub mod tier_compaction_picker;
pub mod vacuum;
pub mod version;

//! The metrics of the state store.

use vstd::prelude::*;

verus! {

/// A metric of the state store.
#[derive(Clone, Copy, Debug, PartialEq, Eq, Structural)]
pub enum StateStoreMetric {
    GetKeySize,
    GetValueSize,
    GetLatency,
    GetCounts,
    GetSnapshotLatency,
    ReverseRangeScanCounts,
    RangeScanCounts,
    BatchedWriteCounts,
    BatchWriteTupleCounts,
    BatchWriteLatency,
    BatchWriteSize,
    BatchWriteBuildTableLatency,
    BatchWriteAddL0Latency,
    IterCounts,
    IterNextCounts,
    IterSeekLatency,
    IterNextLatency,
    PinVersionCounts,
    UnpinVersionCounts,
    PinSnapshotCounts,
    UnpinSnapshotCounts,
    AddTablesCounts,
    GetNewTableIdCounts,
    GetCompactionTaskCounts,
    ReportCompactionTaskCounts,
    PinVersionLatency,
    UnpinVersionLatency,
    PinSnapshotLatency,
    UnpinSnapshotLatency,
    AddTablesLatency,
    GetNewTableIdLatency,
    GetCompactionTaskLatency,
    ReportCompactionTaskLatency,
}

/// How a metric is measured.
#[derive(Clone, Copy, Debug, PartialEq, Eq, Structural)]
pub enum Instrument {
    /// A number that only grows.
    Counter,
    /// A distribution, in buckets whose bounds are the default ones times a scale. The
    /// scale is in hundred-thousandths.
    Histogram { scale: u64 },
}

/// The name of a metric.
pub open spec fn name_of(m: StateStoreMetric) -> Seq<char> {
    match m {
        StateStoreMetric::GetKeySize => "state_store_get_key_size"@,
        StateStoreMetric::GetValueSize => "state_store_get_value_size"@,
        StateStoreMetric::GetLatency => "state_store_get_latency"@,
        StateStoreMetric::GetCounts => "state_store_get_counts"@,
        StateStoreMetric::GetSnapshotLatency => "state_store_get_snapshot_latency"@,
        StateStoreMetric::ReverseRangeScanCounts => "state_store_reverse_range_scan_counts"@,
        StateStoreMetric::RangeScanCounts => "state_store_range_scan_counts"@,
        StateStoreMetric::BatchedWriteCounts => "state_store_batched_write_counts"@,
        StateStoreMetric::BatchWriteTupleCounts => "state_store_batched_write_tuple_counts"@,
        StateStoreMetric::BatchWriteLatency => "state_store_batched_write_latency"@,
        StateStoreMetric::BatchWriteSize => "state_store_batched_write_size"@,
        StateStoreMetric::BatchWriteBuildTableLatency => "state_store_batch_write_build_table_latency"@,
        StateStoreMetric::BatchWriteAddL0Latency => "state_store_batch_write_add_l0_ssts_latency"@,
        StateStoreMetric::IterCounts => "state_store_iter_counts"@,
        StateStoreMetric::IterNextCounts => "state_store_iter_next_counts"@,
        StateStoreMetric::IterSeekLatency => "state_store_iter_seek_latency"@,
        StateStoreMetric::IterNextLatency => "state_store_iter_next_latency"@,
        StateStoreMetric::PinVersionCounts => "state_store_pin_version_counts"@,
        StateStoreMetric::UnpinVersionCounts => "state_store_unpin_version_counts"@,
        StateStoreMetric::PinSnapshotCounts => "state_store_pin_snapshot_counts"@,
        StateStoreMetric::UnpinSnapshotCounts => "state_store_unpin_snapshot_counts"@,
        StateStoreMetric::AddTablesCounts => "state_store_add_tables_counts"@,
        StateStoreMetric::GetNewTableIdCounts => "state_store_get_new_table_id_counts"@,
        StateStoreMetric::GetCompactionTaskCounts => "state_store_get_compaction_task_counts"@,
        StateStoreMetric::ReportCompactionTaskCounts => "state_store_report_compaction_task_counts"@,
        StateStoreMetric::PinVersionLatency => "state_store_pin_version_latency"@,
        StateStoreMetric::UnpinVersionLatency => "state_store_unpin_version_latency"@,
        StateStoreMetric::PinSnapshotLatency => "state_store_pin_snapshot_latency"@,
        StateStoreMetric::UnpinSnapshotLatency => "state_store_unpin_snapshot_latency"@,
        StateStoreMetric::AddTablesLatency => "state_store_add_tables_latency"@,
        StateStoreMetric::GetNewTableIdLatency => "state_store_get_new_table_id_latency"@,
        StateStoreMetric::GetCompactionTaskLatency => "state_store_get_compaction_task_latency"@,
        StateStoreMetric::ReportCompactionTaskLatency => "state_store_report_compaction_task_latency"@,
    }
}

/// What a metric is about.
pub open spec fn description_of(m: StateStoreMetric) -> Seq<char> {
    match m {
        StateStoreMetric::GetKeySize => "Total key bytes of get that have been issued to state store"@,
        StateStoreMetric::GetValueSize => "Total value bytes that have been requested from remote storage"@,
        StateStoreMetric::GetLatency => "Total latency of get that have been issued to state store"@,
        StateStoreMetric::GetCounts => "Total number of get requests that have been issued to Hummock Storage"@,
        StateStoreMetric::GetSnapshotLatency => "Total latency of get snapshot that have been issued to state store"@,
        StateStoreMetric::ReverseRangeScanCounts => "Total number of reverse range scan requests that have been issued to Hummock Storage"@,
        StateStoreMetric::RangeScanCounts => "Total number of range scan requests that have been issued to Hummock Storage"@,
        StateStoreMetric::BatchedWriteCounts => "Total number of batched write requests that have been issued to state store"@,
        StateStoreMetric::BatchWriteTupleCounts => "Total number of batched write kv pairs requests that have been issued to state store"@,
        StateStoreMetric::BatchWriteLatency => "Total time of batched write that have been issued to state store"@,
        StateStoreMetric::BatchWriteSize => "Total size of batched write that have been issued to state store"@,
        StateStoreMetric::BatchWriteBuildTableLatency => "Total time of batch_write_build_table that have been issued to state store"@,
        StateStoreMetric::BatchWriteAddL0Latency => "Total time of add_l0_ssts that have been issued to state store"@,
        StateStoreMetric::IterCounts => "Total number of iter requests that have been issued to state store"@,
        StateStoreMetric::IterNextCounts => "Total number of iter.next requests that have been issued to state store"@,
        StateStoreMetric::IterSeekLatency => "total latency on seeking the start of key range"@,
        StateStoreMetric::IterNextLatency => "total latency on a next calls"@,
        StateStoreMetric::PinVersionCounts => "233"@,
        StateStoreMetric::UnpinVersionCounts => "233"@,
        StateStoreMetric::PinSnapshotCounts => "Total number of iter.next requests that have been issued to state store"@,
        StateStoreMetric::UnpinSnapshotCounts => "Total number of iter.next requests that have been issued to state store"@,
        StateStoreMetric::AddTablesCounts => "Total number of iter.next requests that have been issued to state store"@,
        StateStoreMetric::GetNewTableIdCounts => "Total number of iter.next requests that have been issued to state store"@,
        StateStoreMetric::GetCompactionTaskCounts => "Total number of iter.next requests that have been issued to state store"@,
        StateStoreMetric::ReportCompactionTaskCounts => "Total number of iter.next requests that have been issued to state store"@,
        StateStoreMetric::PinVersionLatency => "Total latency of get that have been issued to state store"@,
        StateStoreMetric::UnpinVersionLatency => "Total latency of get that have been issued to state store"@,
        StateStoreMetric::PinSnapshotLatency => "Total latency of get that have been issued to state store"@,
        StateStoreMetric::UnpinSnapshotLatency => "Total latency of get that have been issued to state store"@,
        StateStoreMetric::AddTablesLatency => "Total latency of get that have been issued to state store"@,
        StateStoreMetric::GetNewTableIdLatency => "Total latency of get that have been issued to state store"@,
        StateStoreMetric::GetCompactionTaskLatency => "Total latency of get that have been issued to state store"@,
        StateStoreMetric::ReportCompactionTaskLatency => "Total latency of get that have been issued to state store"@,
    }
}

/// How a metric is measured.
pub open spec fn instrument_of(m: StateStoreMetric) -> Instrument {
    match m {
        StateStoreMetric::GetKeySize => Instrument::Histogram { scale: 20_000_000 },
        StateStoreMetric::GetValueSize => Instrument::Histogram { scale: 20_000_000 },
        StateStoreMetric::GetLatency => Instrument::Histogram { scale: 1_000 },
        StateStoreMetric::GetCounts => Instrument::Counter,
        StateStoreMetric::GetSnapshotLatency => Instrument::Histogram { scale: 10 },
        StateStoreMetric::ReverseRangeScanCounts => Instrument::Counter,
        StateStoreMetric::RangeScanCounts => Instrument::Counter,
        StateStoreMetric::BatchedWriteCounts => Instrument::Counter,
        StateStoreMetric::BatchWriteTupleCounts => Instrument::Counter,
        StateStoreMetric::BatchWriteLatency => Instrument::Histogram { scale: 10 },
        StateStoreMetric::BatchWriteSize => Instrument::Histogram { scale: 2_000_000_000 },
        StateStoreMetric::BatchWriteBuildTableLatency => Instrument::Histogram { scale: 10 },
        StateStoreMetric::BatchWriteAddL0Latency => Instrument::Histogram { scale: 1 },
        StateStoreMetric::IterCounts => Instrument::Counter,
        StateStoreMetric::IterNextCounts => Instrument::Counter,
        StateStoreMetric::IterSeekLatency => Instrument::Histogram { scale: 10 },
        StateStoreMetric::IterNextLatency => Instrument::Histogram { scale: 10 },
        StateStoreMetric::PinVersionCounts => Instrument::Counter,
        StateStoreMetric::UnpinVersionCounts => Instrument::Counter,
        StateStoreMetric::PinSnapshotCounts => Instrument::Counter,
        StateStoreMetric::UnpinSnapshotCounts => Instrument::Counter,
        StateStoreMetric::AddTablesCounts => Instrument::Counter,
        StateStoreMetric::GetNewTableIdCounts => Instrument::Counter,
        StateStoreMetric::GetCompactionTaskCounts => Instrument::Counter,
        StateStoreMetric::ReportCompactionTaskCounts => Instrument::Counter,
        StateStoreMetric::PinVersionLatency => Instrument::Histogram { scale: 10_000 },
        StateStoreMetric::UnpinVersionLatency => Instrument::Histogram { scale: 10_000 },
        StateStoreMetric::PinSnapshotLatency => Instrument::Histogram { scale: 10_000 },
        StateStoreMetric::UnpinSnapshotLatency => Instrument::Histogram { scale: 10_000 },
        StateStoreMetric::AddTablesLatency => Instrument::Histogram { scale: 10_000 },
        StateStoreMetric::GetNewTableIdLatency => Instrument::Histogram { scale: 10_000 },
        StateStoreMetric::GetCompactionTaskLatency => Instrument::Histogram { scale: 10_000 },
        StateStoreMetric::ReportCompactionTaskLatency => Instrument::Histogram { scale: 10_000 },
    }
}

impl StateStoreMetric {
    /// The name of the metric.
    pub fn name(self) -> (r: &'static str)
        ensures
            r@ == name_of(self),
    {
        match self {
            StateStoreMetric::GetKeySize => "state_store_get_key_size",
            StateStoreMetric::GetValueSize => "state_store_get_value_size",
            StateStoreMetric::GetLatency => "state_store_get_latency",
            StateStoreMetric::GetCounts => "state_store_get_counts",
            StateStoreMetric::GetSnapshotLatency => "state_store_get_snapshot_latency",
            StateStoreMetric::ReverseRangeScanCounts => "state_store_reverse_range_scan_counts",
            StateStoreMetric::RangeScanCounts => "state_store_range_scan_counts",
            StateStoreMetric::BatchedWriteCounts => "state_store_batched_write_counts",
            StateStoreMetric::BatchWriteTupleCounts => "state_store_batched_write_tuple_counts",
            StateStoreMetric::BatchWriteLatency => "state_store_batched_write_latency",
            StateStoreMetric::BatchWriteSize => "state_store_batched_write_size",
            StateStoreMetric::BatchWriteBuildTableLatency => "state_store_batch_write_build_table_latency",
            StateStoreMetric::BatchWriteAddL0Latency => "state_store_batch_write_add_l0_ssts_latency",
            StateStoreMetric::IterCounts => "state_store_iter_counts",
            StateStoreMetric::IterNextCounts => "state_store_iter_next_counts",
            StateStoreMetric::IterSeekLatency => "state_store_iter_seek_latency",
            StateStoreMetric::IterNextLatency => "state_store_iter_next_latency",
            StateStoreMetric::PinVersionCounts => "state_store_pin_version_counts",
            StateStoreMetric::UnpinVersionCounts => "state_store_unpin_version_counts",
            StateStoreMetric::PinSnapshotCounts => "state_store_pin_snapshot_counts",
            StateStoreMetric::UnpinSnapshotCounts => "state_store_unpin_snapshot_counts",
            StateStoreMetric::AddTablesCounts => "state_store_add_tables_counts",
            StateStoreMetric::GetNewTableIdCounts => "state_store_get_new_table_id_counts",
            StateStoreMetric::GetCompactionTaskCounts => "state_store_get_compaction_task_counts",
            StateStoreMetric::ReportCompactionTaskCounts => "state_store_report_compaction_task_counts",
            StateStoreMetric::PinVersionLatency => "state_store_pin_version_latency",
            StateStoreMetric::UnpinVersionLatency => "state_store_unpin_version_latency",
            StateStoreMetric::PinSnapshotLatency => "state_store_pin_snapshot_latency",
            StateStoreMetric::UnpinSnapshotLatency => "state_store_unpin_snapshot_latency",
            StateStoreMetric::AddTablesLatency => "state_store_add_tables_latency",
            StateStoreMetric::GetNewTableIdLatency => "state_store_get_new_table_id_latency",
            StateStoreMetric::GetCompactionTaskLatency => "state_store_get_compaction_task_latency",
            StateStoreMetric::ReportCompactionTaskLatency => "state_store_report_compaction_task_latency",
        }
    }

    /// What the metric is about.
    pub fn description(self) -> (r: &'static str)
        ensures
            r@ == description_of(self),
    {
        match self {
            StateStoreMetric::GetKeySize => "Total key bytes of get that have been issued to state store",
            StateStoreMetric::GetValueSize => "Total value bytes that have been requested from remote storage",
            StateStoreMetric::GetLatency => "Total latency of get that have been issued to state store",
            StateStoreMetric::GetCounts => "Total number of get requests that have been issued to Hummock Storage",
            StateStoreMetric::GetSnapshotLatency => "Total latency of get snapshot that have been issued to state store",
            StateStoreMetric::ReverseRangeScanCounts => "Total number of reverse range scan requests that have been issued to Hummock Storage",
            StateStoreMetric::RangeScanCounts => "Total number of range scan requests that have been issued to Hummock Storage",
            StateStoreMetric::BatchedWriteCounts => "Total number of batched write requests that have been issued to state store",
            StateStoreMetric::BatchWriteTupleCounts => "Total number of batched write kv pairs requests that have been issued to state store",
            StateStoreMetric::BatchWriteLatency => "Total time of batched write that have been issued to state store",
            StateStoreMetric::BatchWriteSize => "Total size of batched write that have been issued to state store",
            StateStoreMetric::BatchWriteBuildTableLatency => "Total time of batch_write_build_table that have been issued to state store",
            StateStoreMetric::BatchWriteAddL0Latency => "Total time of add_l0_ssts that have been issued to state store",
            StateStoreMetric::IterCounts => "Total number of iter requests that have been issued to state store",
            StateStoreMetric::IterNextCounts => "Total number of iter.next requests that have been issued to state store",
            StateStoreMetric::IterSeekLatency => "total latency on seeking the start of key range",
            StateStoreMetric::IterNextLatency => "total latency on a next calls",
            StateStoreMetric::PinVersionCounts => "233",
            StateStoreMetric::UnpinVersionCounts => "233",
            StateStoreMetric::PinSnapshotCounts => "Total number of iter.next requests that have been issued to state store",
            StateStoreMetric::UnpinSnapshotCounts => "Total number of iter.next requests that have been issued to state store",
            StateStoreMetric::AddTablesCounts => "Total number of iter.next requests that have been issued to state store",
            StateStoreMetric::GetNewTableIdCounts => "Total number of iter.next requests that have been issued to state store",
            StateStoreMetric::GetCompactionTaskCounts => "Total number of iter.next requests that have been issued to state store",
            StateStoreMetric::ReportCompactionTaskCounts => "Total number of iter.next requests that have been issued to state store",
            StateStoreMetric::PinVersionLatency => "Total latency of get that have been issued to state store",
            StateStoreMetric::UnpinVersionLatency => "Total latency of get that have been issued to state store",
            StateStoreMetric::PinSnapshotLatency => "Total latency of get that have been issued to state store",
            StateStoreMetric::UnpinSnapshotLatency => "Total latency of get that have been issued to state store",
            StateStoreMetric::AddTablesLatency => "Total latency of get that have been issued to state store",
            StateStoreMetric::GetNewTableIdLatency => "Total latency of get that have been issued to state store",
            StateStoreMetric::GetCompactionTaskLatency => "Total latency of get that have been issued to state store",
            StateStoreMetric::ReportCompactionTaskLatency => "Total latency of get that have been issued to state store",
        }
    }

    /// How the metric is measured.
    pub fn instrument(self) -> (r: Instrument)
        ensures
            r == instrument_of(self),
    {
        match self {
            StateStoreMetric::GetKeySize => Instrument::Histogram { scale: 20_000_000 },
            StateStoreMetric::GetValueSize => Instrument::Histogram { scale: 20_000_000 },
            StateStoreMetric::GetLatency => Instrument::Histogram { scale: 1_000 },
            StateStoreMetric::GetCounts => Instrument::Counter,
            StateStoreMetric::GetSnapshotLatency => Instrument::Histogram { scale: 10 },
            StateStoreMetric::ReverseRangeScanCounts => Instrument::Counter,
            StateStoreMetric::RangeScanCounts => Instrument::Counter,
            StateStoreMetric::BatchedWriteCounts => Instrument::Counter,
            StateStoreMetric::BatchWriteTupleCounts => Instrument::Counter,
            StateStoreMetric::BatchWriteLatency => Instrument::Histogram { scale: 10 },
            StateStoreMetric::BatchWriteSize => Instrument::Histogram { scale: 2_000_000_000 },
            StateStoreMetric::BatchWriteBuildTableLatency => Instrument::Histogram { scale: 10 },
            StateStoreMetric::BatchWriteAddL0Latency => Instrument::Histogram { scale: 1 },
            StateStoreMetric::IterCounts => Instrument::Counter,
            StateStoreMetric::IterNextCounts => Instrument::Counter,
            StateStoreMetric::IterSeekLatency => Instrument::Histogram { scale: 10 },
            StateStoreMetric::IterNextLatency => Instrument::Histogram { scale: 10 },
            StateStoreMetric::PinVersionCounts => Instrument::Counter,
            StateStoreMetric::UnpinVersionCounts => Instrument::Counter,
            StateStoreMetric::PinSnapshotCounts => Instrument::Counter,
            StateStoreMetric::UnpinSnapshotCounts => Instrument::Counter,
            StateStoreMetric::AddTablesCounts => Instrument::Counter,
            StateStoreMetric::GetNewTableIdCounts => Instrument::Counter,
            StateStoreMetric::GetCompactionTaskCounts => Instrument::Counter,
            StateStoreMetric::ReportCompactionTaskCounts => Instrument::Counter,
            StateStoreMetric::PinVersionLatency => Instrument::Histogram { scale: 10_000 },
            StateStoreMetric::UnpinVersionLatency => Instrument::Histogram { scale: 10_000 },
            StateStoreMetric::PinSnapshotLatency => Instrument::Histogram { scale: 10_000 },
            StateStoreMetric::UnpinSnapshotLatency => Instrument::Histogram { scale: 10_000 },
            StateStoreMetric::AddTablesLatency => Instrument::Histogram { scale: 10_000 },
            StateStoreMetric::GetNewTableIdLatency => Instrument::Histogram { scale: 10_000 },
            StateStoreMetric::GetCompactionTaskLatency => Instrument::Histogram { scale: 10_000 },
            StateStoreMetric::ReportCompactionTaskLatency => Instrument::Histogram { scale: 10_000 },
        }
    }
}

/// The bounds of the default buckets, in thousandths.
pub open spec fn default_buckets() -> Seq<u64> {
    seq![5, 10, 25, 50, 100, 250, 500, 1_000, 2_500, 5_000, 10_000]
}

/// The bounds of a histogram's buckets, in thousandths of hundred-thousandths.
pub open spec fn scaled_buckets(scale: u64) -> Seq<int> {
    Seq::new(default_buckets().len(), |i: int| default_buckets()[i] * scale)
}

/// The bounds of the default buckets, in thousandths.
pub fn bucket_bounds() -> (r: Vec<u64>)
    ensures
        r@ == default_buckets(),
{
    let r: Vec<u64> = vec![5, 10, 25, 50, 100, 250, 500, 1_000, 2_500, 5_000, 10_000];
    proof {
        assert(r@ =~= default_buckets());
    }
    r
}

/// All metrics, in the order in which they are registered.
pub open spec fn every_metric() -> Seq<StateStoreMetric> {
    seq![
        StateStoreMetric::GetKeySize,
        StateStoreMetric::GetValueSize,
        StateStoreMetric::GetLatency,
        StateStoreMetric::GetCounts,
        StateStoreMetric::GetSnapshotLatency,
        StateStoreMetric::ReverseRangeScanCounts,
        StateStoreMetric::RangeScanCounts,
        StateStoreMetric::BatchedWriteCounts,
        StateStoreMetric::BatchWriteTupleCounts,
        StateStoreMetric::BatchWriteLatency,
        StateStoreMetric::BatchWriteSize,
        StateStoreMetric::BatchWriteBuildTableLatency,
        StateStoreMetric::BatchWriteAddL0Latency,
        StateStoreMetric::IterCounts,
        StateStoreMetric::IterNextCounts,
        StateStoreMetric::IterSeekLatency,
        StateStoreMetric::IterNextLatency,
        StateStoreMetric::PinVersionCounts,
        StateStoreMetric::UnpinVersionCounts,
        StateStoreMetric::PinSnapshotCounts,
        StateStoreMetric::UnpinSnapshotCounts,
        StateStoreMetric::AddTablesCounts,
        StateStoreMetric::GetNewTableIdCounts,
        StateStoreMetric::GetCompactionTaskCounts,
        StateStoreMetric::ReportCompactionTaskCounts,
        StateStoreMetric::PinVersionLatency,
        StateStoreMetric::UnpinVersionLatency,
        StateStoreMetric::PinSnapshotLatency,
        StateStoreMetric::UnpinSnapshotLatency,
        StateStoreMetric::AddTablesLatency,
        StateStoreMetric::GetNewTableIdLatency,
        StateStoreMetric::GetCompactionTaskLatency,
        StateStoreMetric::ReportCompactionTaskLatency,
    ]
}

/// All metrics, in the order in which they are registered.
pub fn all_metrics() -> (r: Vec<StateStoreMetric>)
    ensures
        r@ == every_metric(),
{
    let r: Vec<StateStoreMetric> = vec![
        StateStoreMetric::GetKeySize,
        StateStoreMetric::GetValueSize,
        StateStoreMetric::GetLatency,
        StateStoreMetric::GetCounts,
        StateStoreMetric::GetSnapshotLatency,
        StateStoreMetric::ReverseRangeScanCounts,
        StateStoreMetric::RangeScanCounts,
        StateStoreMetric::BatchedWriteCounts,
        StateStoreMetric::BatchWriteTupleCounts,
        StateStoreMetric::BatchWriteLatency,
        StateStoreMetric::BatchWriteSize,
        StateStoreMetric::BatchWriteBuildTableLatency,
        StateStoreMetric::BatchWriteAddL0Latency,
        StateStoreMetric::IterCounts,
        StateStoreMetric::IterNextCounts,
        StateStoreMetric::IterSeekLatency,
        StateStoreMetric::IterNextLatency,
        StateStoreMetric::PinVersionCounts,
        StateStoreMetric::UnpinVersionCounts,
        StateStoreMetric::PinSnapshotCounts,
        StateStoreMetric::UnpinSnapshotCounts,
        StateStoreMetric::AddTablesCounts,
        StateStoreMetric::GetNewTableIdCounts,
        StateStoreMetric::GetCompactionTaskCounts,
        StateStoreMetric::ReportCompactionTaskCounts,
        StateStoreMetric::PinVersionLatency,
        StateStoreMetric::UnpinVersionLatency,
        StateStoreMetric::PinSnapshotLatency,
        StateStoreMetric::UnpinSnapshotLatency,
        StateStoreMetric::AddTablesLatency,
        StateStoreMetric::GetNewTableIdLatency,
        StateStoreMetric::GetCompactionTaskLatency,
        StateStoreMetric::ReportCompactionTaskLatency,
    ];
    proof {
        assert(r@ =~= every_metric());
    }
    r
}

/// The bounds of each histogram's buckets rise.
pub proof fn law_buckets_rise(m: StateStoreMetric, i: int, j: int)
    requires
        instrument_of(m) is Histogram,
        0 <= i < j < default_buckets().len(),
    ensures
        scaled_buckets(instrument_of(m)->scale)[i] < scaled_buckets(instrument_of(m)->scale)[j],
{
    let scale = instrument_of(m)->scale as int;
    let (a, b) = (default_buckets()[i] as int, default_buckets()[j] as int);
    assert(scale > 0);
    assert(a < b);
    assert(a * scale < b * scale) by (nonlinear_arith)
        requires
            a < b,
            scale > 0,
    ;
}

/// Every metric is registered once.
pub proof fn law_each_metric_once(m: StateStoreMetric)
    ensures
        every_metric().contains(m),
        every_metric().no_duplicates(),
{
    let all = every_metric();
    let k: int = match m {
        StateStoreMetric::GetKeySize => 0,
        StateStoreMetric::GetValueSize => 1,
        StateStoreMetric::GetLatency => 2,
        StateStoreMetric::GetCounts => 3,
        StateStoreMetric::GetSnapshotLatency => 4,
        StateStoreMetric::ReverseRangeScanCounts => 5,
        StateStoreMetric::RangeScanCounts => 6,
        StateStoreMetric::BatchedWriteCounts => 7,
        StateStoreMetric::BatchWriteTupleCounts => 8,
        StateStoreMetric::BatchWriteLatency => 9,
        StateStoreMetric::BatchWriteSize => 10,
        StateStoreMetric::BatchWriteBuildTableLatency => 11,
        StateStoreMetric::BatchWriteAddL0Latency => 12,
        StateStoreMetric::IterCounts => 13,
        StateStoreMetric::IterNextCounts => 14,
        StateStoreMetric::IterSeekLatency => 15,
        StateStoreMetric::IterNextLatency => 16,
        StateStoreMetric::PinVersionCounts => 17,
        StateStoreMetric::UnpinVersionCounts => 18,
        StateStoreMetric::PinSnapshotCounts => 19,
        StateStoreMetric::UnpinSnapshotCounts => 20,
        StateStoreMetric::AddTablesCounts => 21,
        StateStoreMetric::GetNewTableIdCounts => 22,
        StateStoreMetric::GetCompactionTaskCounts => 23,
        StateStoreMetric::ReportCompactionTaskCounts => 24,
        StateStoreMetric::PinVersionLatency => 25,
        StateStoreMetric::UnpinVersionLatency => 26,
        StateStoreMetric::PinSnapshotLatency => 27,
        StateStoreMetric::UnpinSnapshotLatency => 28,
        StateStoreMetric::AddTablesLatency => 29,
        StateStoreMetric::GetNewTableIdLatency => 30,
        StateStoreMetric::GetCompactionTaskLatency => 31,
        StateStoreMetric::ReportCompactionTaskLatency => 32,
    };
    assert(all[k] == m);
}

/// No two metrics have the same name.
pub proof fn law_names_differ(a: StateStoreMetric, b: StateStoreMetric)
    requires
        name_of(a) == name_of(b),
    ensures
        a == b,
{
    let (x, y) = (name_of(a), name_of(b));
    assert(x.len() == y.len());
    assert(x[12] == y[12]);
    assert(x[x.len() - 9] == y[y.len() - 9]);
    reveal_strlit("state_store_get_key_size");
    reveal_strlit("state_store_get_value_size");
    reveal_strlit("state_store_get_latency");
    reveal_strlit("state_store_get_counts");
    reveal_strlit("state_store_get_snapshot_latency");
    reveal_strlit("state_store_reverse_range_scan_counts");
    reveal_strlit("state_store_range_scan_counts");
    reveal_strlit("state_store_batched_write_counts");
    reveal_strlit("state_store_batched_write_tuple_counts");
    reveal_strlit("state_store_batched_write_latency");
    reveal_strlit("state_store_batched_write_size");
    reveal_strlit("state_store_batch_write_build_table_latency");
    reveal_strlit("state_store_batch_write_add_l0_ssts_latency");
    reveal_strlit("state_store_iter_counts");
    reveal_strlit("state_store_iter_next_counts");
    reveal_strlit("state_store_iter_seek_latency");
    reveal_strlit("state_store_iter_next_latency");
    reveal_strlit("state_store_pin_version_counts");
    reveal_strlit("state_store_unpin_version_counts");
    reveal_strlit("state_store_pin_snapshot_counts");
    reveal_strlit("state_store_unpin_snapshot_counts");
    reveal_strlit("state_store_add_tables_counts");
    reveal_strlit("state_store_get_new_table_id_counts");
    reveal_strlit("state_store_get_compaction_task_counts");
    reveal_strlit("state_store_report_compaction_task_counts");
    reveal_strlit("state_store_pin_version_latency");
    reveal_strlit("state_store_unpin_version_latency");
    reveal_strlit("state_store_pin_snapshot_latency");
    reveal_strlit("state_store_unpin_snapshot_latency");
    reveal_strlit("state_store_add_tables_latency");
    reveal_strlit("state_store_get_new_table_id_latency");
    reveal_strlit("state_store_get_compaction_task_latency");
    reveal_strlit("state_store_report_compaction_task_latency");
}

/// The name of a metric tells how it is measured: it is counted if its name ends in `counts`, and
/// otherwise, if it is about a size or a latency, it is a distribution. All names start alike.
#[verifier::spinoff_prover]
#[verifier::rlimit(50)]
pub proof fn law_name_tells_instrument(m: StateStoreMetric)
    ensures
        instrument_of(m) is Counter <==> name_of(m)[name_of(m).len() - 1] == 's',
        instrument_of(m) is Histogram <==> name_of(m)[name_of(m).len() - 1] == 'e' || name_of(m)[name_of(m).len() - 1] == 'y',
        name_of(m)[0] == 's' && name_of(m)[5] == '_' && name_of(m)[6] == 's' && name_of(m)[11] == '_',
{
    reveal_strlit("state_store_get_key_size");
    reveal_strlit("state_store_get_value_size");
    reveal_strlit("state_store_get_latency");
    reveal_strlit("state_store_get_counts");
    reveal_strlit("state_store_get_snapshot_latency");
    reveal_strlit("state_store_reverse_range_scan_counts");
    reveal_strlit("state_store_range_scan_counts");
    reveal_strlit("state_store_batched_write_counts");
    reveal_strlit("state_store_batched_write_tuple_counts");
    reveal_strlit("state_store_batched_write_latency");
    reveal_strlit("state_store_batched_write_size");
    reveal_strlit("state_store_batch_write_build_table_latency");
    reveal_strlit("state_store_batch_write_add_l0_ssts_latency");
    reveal_strlit("state_store_iter_counts");
    reveal_strlit("state_store_iter_next_counts");
    reveal_strlit("state_store_iter_seek_latency");
    reveal_strlit("state_store_iter_next_latency");
    reveal_strlit("state_store_pin_version_counts");
    reveal_strlit("state_store_unpin_version_counts");
    reveal_strlit("state_store_pin_snapshot_counts");
    reveal_strlit("state_store_unpin_snapshot_counts");
    reveal_strlit("state_store_add_tables_counts");
    reveal_strlit("state_store_get_new_table_id_counts");
    reveal_strlit("state_store_get_compaction_task_counts");
    reveal_strlit("state_store_report_compaction_task_counts");
    reveal_strlit("state_store_pin_version_latency");
    reveal_strlit("state_store_unpin_version_latency");
    reveal_strlit("state_store_pin_snapshot_latency");
    reveal_strlit("state_store_unpin_snapshot_latency");
    reveal_strlit("state_store_add_tables_latency");
    reveal_strlit("state_store_get_new_table_id_latency");
    reveal_strlit("state_store_get_compaction_task_latency");
    reveal_strlit("state_store_report_compaction_task_latency");
}

/// The smallest and the largest bucket of each distribution, where a hundred million stands for one: one
/// byte for keys and values, a hundred bytes for batches, and from a twentieth of a microsecond up to half
/// a millisecond for latencies; the largest is two thousand times as wide.
pub proof fn law_smallest_buckets(m: StateStoreMetric)
    requires
        instrument_of(m) is Histogram,
    ensures
        ({
            let first = scaled_buckets(instrument_of(m)->scale)[0];
            &&& scaled_buckets(instrument_of(m)->scale)[10] == 2_000 * first
            &&& first == match m {
                StateStoreMetric::GetKeySize => 100_000_000int,
                StateStoreMetric::GetValueSize => 100_000_000,
                StateStoreMetric::BatchWriteSize => 10_000_000_000,
                StateStoreMetric::GetLatency => 5_000,
                StateStoreMetric::BatchWriteAddL0Latency => 5,
                StateStoreMetric::GetSnapshotLatency => 50,
                StateStoreMetric::BatchWriteLatency => 50,
                StateStoreMetric::BatchWriteBuildTableLatency => 50,
                StateStoreMetric::IterSeekLatency => 50,
                StateStoreMetric::IterNextLatency => 50,
                _ => 50_000,
            }
        }),
{
}

} // verus!

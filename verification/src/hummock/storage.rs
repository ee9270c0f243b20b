//! Which tables a read touches, and what a write registers.

use vstd::prelude::*;

use crate::common::config::ChecksumAlgorithm;
use crate::hummock::key::{
    bytes_equal, bytes_less, bytes_lt, copy_bytes, full_key, full_key_lt, full_key_spec,
    is_full_key, law_full_key_order_total, law_full_key_parts, law_newer_epoch_first,
    lemma_bytes_lt_irreflexive, lemma_bytes_lt_transitive, lemma_bytes_trichotomy, user_key,
    user_key_of,
};
use crate::hummock::multi_builder::{
    added_to_last, grown, new_table_needed, pair_views, tables_for_next, value_len,
    CapacitySplitTableBuilder, HummockValue, PairView, SSTableBuilder, SSTableBuilderWrapper,
};
use crate::hummock::version::{sst_views, KeyRange, KeyRangeView, LevelType, SstView, SstableInfo};

verus! {

/// How tables are built and where they are kept.
#[derive(Debug)]
pub struct HummockOptions {
    /// target size of the SSTable
    pub sstable_size: u32,
    /// size of each block in bytes in SST
    pub block_size: u32,
    /// remote directory for storing data and metadata objects
    pub remote_dir: String,
    /// checksum algorithm
    pub checksum_algo: ChecksumAlgorithm,
}

impl HummockOptions {
    /// Options with tables of the usual size.
    pub fn default_for_test() -> (r: HummockOptions)
        ensures
            r.sstable_size == 256 * 1024 * 1024,
            r.block_size == 64 * 1024,
            r.remote_dir@ == "hummock_001"@,
            r.checksum_algo == ChecksumAlgorithm::XxHash64,
    {
        HummockOptions {
            sstable_size: 268_435_456,
            block_size: 65_536,
            remote_dir: "hummock_001".to_owned(),
            checksum_algo: ChecksumAlgorithm::XxHash64,
        }
    }

    /// Options with small tables.
    pub fn small_for_test() -> (r: HummockOptions)
        ensures
            r.sstable_size == 4 * 1024,
            r.block_size == 1024,
            r.remote_dir@ == "hummock_001_small"@,
            r.checksum_algo == ChecksumAlgorithm::XxHash64,
    {
        HummockOptions {
            sstable_size: 4_096,
            block_size: 1_024,
            remote_dir: "hummock_001_small".to_owned(),
            checksum_algo: ChecksumAlgorithm::XxHash64,
        }
    }
}

/// An empty builder for a table of the size that the options give.
pub fn get_builder(options: &HummockOptions) -> (r: SSTableBuilder)
    ensures
        r.capacity == options.sstable_size,
        r.approximate_len == 0,
        r.pairs@.len() == 0,
{
    SSTableBuilder::new(options.sstable_size as usize)
}

/// One end of a range of user keys.
#[derive(Debug)]
pub enum KeyBound {
    Included(Vec<u8>),
    Excluded(Vec<u8>),
    Unbounded,
}

/// The value of a [`KeyBound`].
pub enum BoundView {
    Included(Seq<u8>),
    Excluded(Seq<u8>),
    Unbounded,
}

impl View for KeyBound {
    type V = BoundView;

    open spec fn view(&self) -> BoundView {
        match self {
            KeyBound::Included(key) => BoundView::Included(key@),
            KeyBound::Excluded(key) => BoundView::Excluded(key@),
            KeyBound::Unbounded => BoundView::Unbounded,
        }
    }
}

/// The smallest and the largest full key of a table.
#[derive(Debug)]
pub struct TableMeta {
    pub id: u64,
    pub smallest_key: Vec<u8>,
    pub largest_key: Vec<u8>,
}

/// Both keys of the table are full keys.
pub open spec fn table_meta_wf(t: TableMeta) -> bool {
    is_full_key(t.smallest_key@) && is_full_key(t.largest_key@)
}

/// The user key at which a table starts.
pub open spec fn table_start(t: TableMeta) -> Seq<u8> {
    user_key_of(t.smallest_key@)
}

/// The user key at which a table ends.
pub open spec fn table_end(t: TableMeta) -> Seq<u8> {
    user_key_of(t.largest_key@)
}

/// `key` is not below a lower bound.
pub open spec fn above(lower: BoundView, key: Seq<u8>) -> bool {
    match lower {
        BoundView::Included(bound) => !bytes_lt(key, bound),
        BoundView::Excluded(bound) => bytes_lt(bound, key),
        BoundView::Unbounded => true,
    }
}

/// `key` is not above an upper bound.
pub open spec fn below(upper: BoundView, key: Seq<u8>) -> bool {
    match upper {
        BoundView::Included(bound) => !bytes_lt(bound, key),
        BoundView::Excluded(bound) => bytes_lt(key, bound),
        BoundView::Unbounded => true,
    }
}

/// A table may hold a key of the range: it does not end before the range
/// starts, nor start after the range ends.
pub open spec fn table_in_range(t: TableMeta, lower: BoundView, upper: BoundView) -> bool {
    above(lower, table_end(t)) && below(upper, table_start(t))
}

/// No scan misses a table that holds a key of the range.
pub proof fn law_scan_misses_no_table(t: TableMeta, lower: BoundView, upper: BoundView, key: Seq<u8>)
    requires
        !bytes_lt(key, table_start(t)),
        !bytes_lt(table_end(t), key),
        above(lower, key),
        below(upper, key),
    ensures
        table_in_range(t, lower, upper),
{
    let (start, end) = (table_start(t), table_end(t));
    lemma_bytes_trichotomy(key, start);
    lemma_bytes_trichotomy(key, end);
    match lower {
        BoundView::Included(bound) => {
            if bytes_lt(end, bound) && key != end {
                lemma_bytes_lt_transitive(key, end, bound);
            }
        },
        BoundView::Excluded(bound) => {
            if key != end {
                lemma_bytes_lt_transitive(bound, key, end);
            }
        },
        BoundView::Unbounded => {},
    }
    match upper {
        BoundView::Included(bound) => {
            if bytes_lt(bound, start) && key != start {
                lemma_bytes_lt_transitive(bound, start, key);
            }
        },
        BoundView::Excluded(bound) => {
            if key != start {
                lemma_bytes_lt_transitive(start, key, bound);
            }
        },
        BoundView::Unbounded => {},
    }
}

/// The ids of the tables for which `p` holds, in order.
pub open spec fn ids_where(tables: Seq<TableMeta>, p: spec_fn(TableMeta) -> bool) -> Seq<u64> {
    tables.filter(p).map_values(|t: TableMeta| t.id)
}

proof fn lemma_ids_where_step(tables: Seq<TableMeta>, p: spec_fn(TableMeta) -> bool, n: int)
    requires
        0 <= n < tables.len(),
    ensures
        ids_where(tables.subrange(0, n + 1), p) == if p(tables[n]) {
            ids_where(tables.subrange(0, n), p).push(tables[n].id)
        } else {
            ids_where(tables.subrange(0, n), p)
        },
{
    reveal(Seq::filter);
    let (short, long) = (tables.subrange(0, n), tables.subrange(0, n + 1));
    assert(long.drop_last() =~= short);
    assert(ids_where(long, p) =~= if p(tables[n]) {
        ids_where(short, p).push(tables[n].id)
    } else {
        ids_where(short, p)
    });
}

/// The tables that a scan from the begin key to the end key reads.
pub fn range_scan(tables: &Vec<TableMeta>, start: &KeyBound, end: &KeyBound) -> (r: Vec<u64>)
    requires
        forall|i: int| 0 <= i < tables@.len() ==> table_meta_wf(#[trigger] tables@[i]),
        tables@.len() > 0 ==> !(start is Excluded),
    ensures
        r@ == ids_where(tables@, |t: TableMeta| table_in_range(t, start@, end@)),
{
    let ghost p = |t: TableMeta| table_in_range(t, start@, end@);
    let mut r: Vec<u64> = Vec::new();
    let mut i: usize = 0;
    proof {
        reveal(Seq::filter);
        assert(r@ =~= ids_where(tables@.subrange(0, 0), p));
    }
    while i < tables.len()
        invariant
            i <= tables@.len(),
            forall|j: int| 0 <= j < tables@.len() ==> table_meta_wf(#[trigger] tables@[j]),
            tables@.len() > 0 ==> !(start is Excluded),
            p == (|t: TableMeta| table_in_range(t, start@, end@)),
            r@ == ids_where(tables@.subrange(0, i as int), p),
        decreases tables@.len() - i,
    {
        let t = &tables[i];
        proof {
            assert(table_meta_wf(tables@[i as int]));
            lemma_ids_where_step(tables@, p, i as int);
        }
        let table_start = user_key(t.smallest_key.as_slice());
        let table_end = user_key(t.largest_key.as_slice());
        //        RANGE
        // TABLE
        let too_left: bool = match start {
            KeyBound::Included(range_start) => bytes_less(table_end.as_slice(), range_start.as_slice()),
            _ => false,
        };
        // RANGE
        //        TABLE
        let too_right: bool = match end {
            KeyBound::Included(range_end) => bytes_less(range_end.as_slice(), table_start.as_slice()),
            KeyBound::Excluded(range_end) => !bytes_less(table_start.as_slice(), range_end.as_slice()),
            KeyBound::Unbounded => false,
        };
        if !too_left && !too_right {
            r.push(t.id);
        }
        i = i + 1;
    }
    proof {
        assert(tables@.subrange(0, i as int) =~= tables@);
    }
    r
}

/// The tables that a scan from the end key to the begin key reads. The start
/// of the range is its upper end.
pub fn reverse_range_scan(tables: &Vec<TableMeta>, start: &KeyBound, end: &KeyBound) -> (r: Vec<u64>)
    requires
        forall|i: int| 0 <= i < tables@.len() ==> table_meta_wf(#[trigger] tables@[i]),
        tables@.len() > 0 ==> !(start is Excluded),
    ensures
        r@ == ids_where(tables@, |t: TableMeta| table_in_range(t, end@, start@)),
{
    let ghost p = |t: TableMeta| table_in_range(t, end@, start@);
    let mut r: Vec<u64> = Vec::new();
    let mut i: usize = 0;
    proof {
        reveal(Seq::filter);
        assert(r@ =~= ids_where(tables@.subrange(0, 0), p));
    }
    while i < tables.len()
        invariant
            i <= tables@.len(),
            forall|j: int| 0 <= j < tables@.len() ==> table_meta_wf(#[trigger] tables@[j]),
            tables@.len() > 0 ==> !(start is Excluded),
            p == (|t: TableMeta| table_in_range(t, end@, start@)),
            r@ == ids_where(tables@.subrange(0, i as int), p),
        decreases tables@.len() - i,
    {
        let t = &tables[i];
        proof {
            assert(table_meta_wf(tables@[i as int]));
            lemma_ids_where_step(tables@, p, i as int);
        }
        let table_start = user_key(t.smallest_key.as_slice());
        let table_end = user_key(t.largest_key.as_slice());
        //        RANGE
        // TABLE
        let too_left: bool = match end {
            KeyBound::Included(range_start) => bytes_less(table_end.as_slice(), range_start.as_slice()),
            KeyBound::Excluded(range_start) => !bytes_less(range_start.as_slice(), table_end.as_slice()),
            KeyBound::Unbounded => false,
        };
        // RANGE
        //        TABLE
        let too_right: bool = match start {
            KeyBound::Included(range_end) => bytes_less(range_end.as_slice(), table_start.as_slice()),
            _ => false,
        };
        if !too_left && !too_right {
            r.push(t.id);
        }
        i = i + 1;
    }
    proof {
        assert(tables@.subrange(0, i as int) =~= tables@);
    }
    r
}

/// The tables of a level that may hold a key, and whether they overlap.
#[derive(Debug)]
pub struct LevelTables {
    pub level_type: LevelType,
    pub table_ids: Vec<u64>,
}

/// The tables that are read as one sorted run: each table of an overlapping
/// level by itself, all tables of another level together.
pub open spec fn runs_of(level: LevelTables) -> Seq<Seq<u64>> {
    match level.level_type {
        LevelType::Overlapping => Seq::new(level.table_ids@.len(), |i: int| seq![level.table_ids@[i]]),
        LevelType::Nonoverlapping => seq![level.table_ids@],
    }
}

/// The runs of the first `n` levels.
pub open spec fn runs_upto(levels: Seq<LevelTables>, n: int) -> Seq<Seq<u64>>
    decreases n,
{
    if n <= 0 {
        Seq::empty()
    } else {
        runs_upto(levels, n - 1) + runs_of(levels[n - 1])
    }
}

/// The values of a list of runs.
pub open spec fn run_views(runs: Seq<Vec<u64>>) -> Seq<Seq<u64>> {
    Seq::new(runs.len(), |i: int| runs[i]@)
}

/// The sorted runs that are merged to look up a key.
pub fn lookup_runs(levels: &Vec<LevelTables>) -> (r: Vec<Vec<u64>>)
    ensures
        run_views(r@) == runs_upto(levels@, levels@.len() as int),
{
    let mut r: Vec<Vec<u64>> = Vec::new();
    let mut i: usize = 0;
    proof {
        assert(run_views(r@) =~= runs_upto(levels@, 0));
    }
    while i < levels.len()
        invariant
            i <= levels@.len(),
            run_views(r@) == runs_upto(levels@, i as int),
        decreases levels@.len() - i,
    {
        let level = &levels[i];
        let ghost before = run_views(r@);
        match level.level_type {
            LevelType::Overlapping => {
                let mut j: usize = 0;
                proof {
                    assert(run_views(r@) =~= before + runs_of(*level).subrange(0, 0));
                }
                while j < level.table_ids.len()
                    invariant
                        j <= level.table_ids@.len(),
                        level.level_type == LevelType::Overlapping,
                        run_views(r@) == before + runs_of(*level).subrange(0, j as int),
                    decreases level.table_ids@.len() - j,
                {
                    let mut one: Vec<u64> = Vec::new();
                    one.push(level.table_ids[j]);
                    let ghost at = r@;
                    r.push(one);
                    j = j + 1;
                    proof {
                        assert(one@ =~= seq![level.table_ids@[j - 1]]);
                        assert(run_views(r@) =~= run_views(at).push(one@));
                        assert(run_views(r@) =~= before + runs_of(*level).subrange(0, j as int));
                    }
                }
                proof {
                    assert(runs_of(*level).subrange(0, j as int) =~= runs_of(*level));
                }
            },
            LevelType::Nonoverlapping => {
                let mut all: Vec<u64> = Vec::new();
                let mut j: usize = 0;
                while j < level.table_ids.len()
                    invariant
                        j <= level.table_ids@.len(),
                        all@ == level.table_ids@.subrange(0, j as int),
                    decreases level.table_ids@.len() - j,
                {
                    all.push(level.table_ids[j]);
                    j = j + 1;
                }
                r.push(all);
                proof {
                    assert(all@ =~= level.table_ids@);
                    assert(run_views(r@) =~= before + runs_of(*level));
                }
            },
        }
        i = i + 1;
    }
    r
}

/// The position to which a lookup of `key` at `epoch` seeks.
pub fn seek_key(key: &[u8], epoch: u64) -> (r: Vec<u8>)
    ensures
        r@ == full_key_spec(key@, epoch),
{
    full_key(key, epoch)
}

/// A version of a user key: the key and the epoch in which it was written.
pub struct Version {
    pub key: Seq<u8>,
    pub epoch: u64,
}

/// The full key under which a version is stored.
pub open spec fn stored(v: Version) -> Seq<u8> {
    full_key_spec(v.key, v.epoch)
}

/// The versions are stored in the order of their full keys.
pub open spec fn in_key_order(versions: Seq<Version>) -> bool {
    forall|i: int, j: int|
        0 <= i < j < versions.len() ==> full_key_lt(stored(#[trigger] versions[i]), stored(#[trigger] versions[j]))
}

/// A seek to `target` stops at `at`: at the first version that is not before it.
pub open spec fn stops_at(versions: Seq<Version>, target: Seq<u8>, at: int) -> bool {
    &&& 0 <= at <= versions.len()
    &&& forall|i: int| 0 <= i < at ==> full_key_lt(stored(#[trigger] versions[i]), target)
    &&& at < versions.len() ==> !full_key_lt(stored(versions[at]), target)
}

/// The version belongs to `key` and was written no later than in `epoch`.
pub open spec fn visible(v: Version, key: Seq<u8>, epoch: u64) -> bool {
    v.key == key && v.epoch <= epoch
}

proof fn lemma_not_before_visible(v: Version, key: Seq<u8>, epoch: u64)
    ensures
        v.key == key ==> (full_key_lt(stored(v), full_key_spec(key, epoch)) <==> v.epoch > epoch),
{
    if v.key == key {
        law_full_key_parts(key, epoch);
        law_full_key_parts(key, v.epoch);
        if v.epoch > epoch {
            law_newer_epoch_first(key, v.epoch, epoch);
        } else {
            if v.epoch < epoch {
                law_newer_epoch_first(key, epoch, v.epoch);
            }
            law_full_key_order_total(stored(v), full_key_spec(key, epoch));
        }
    }
}

/// A lookup reads the snapshot of its epoch: the seek stops at a version of the key
/// exactly if the key has a version that is visible in the epoch, and it is the
/// newest one of these.
pub proof fn law_seek_finds_snapshot(versions: Seq<Version>, key: Seq<u8>, epoch: u64, at: int)
    requires
        in_key_order(versions),
        stops_at(versions, full_key_spec(key, epoch), at),
    ensures
        (at < versions.len() && versions[at].key == key) <==> exists|i: int|
            0 <= i < versions.len() && visible(#[trigger] versions[i], key, epoch),
        at < versions.len() && versions[at].key == key ==> {
            &&& visible(versions[at], key, epoch)
            &&& forall|i: int|
                0 <= i < versions.len() && visible(#[trigger] versions[i], key, epoch) ==> versions[i].epoch
                    <= versions[at].epoch
        },
{
    let target = full_key_spec(key, epoch);
    law_full_key_parts(key, epoch);
    if at < versions.len() && versions[at].key == key {
        lemma_not_before_visible(versions[at], key, epoch);
        assert(visible(versions[at], key, epoch));
    }
    assert forall|i: int| 0 <= i < versions.len() && visible(#[trigger] versions[i], key, epoch) implies at
        < versions.len() && versions[at].key == key && versions[i].epoch <= versions[at].epoch by {
        lemma_not_before_visible(versions[i], key, epoch);
        if at != i {
            let (a, b) = (versions[at], versions[i]);
            law_full_key_parts(a.key, a.epoch);
            law_full_key_parts(b.key, b.epoch);
            assert(full_key_lt(stored(a), stored(b)));
            lemma_bytes_trichotomy(a.key, key);
            lemma_bytes_lt_irreflexive(key, 0);
            if bytes_lt(key, a.key) && bytes_lt(a.key, key) {
                lemma_bytes_lt_transitive(key, a.key, key);
            }
            if a.epoch < b.epoch {
                law_newer_epoch_first(key, b.epoch, a.epoch);
                law_full_key_order_total(stored(a), stored(b));
            }
        }
    }
}

/// The value of `key`, if the pair at which a seek stopped is a pair of that
/// key and not a deletion. Without a pair the key is not found.
pub fn get(key: &[u8], found: &Option<(Vec<u8>, HummockValue)>) -> (r: Option<Vec<u8>>)
    requires
        found matches Some(pair) ==> is_full_key(pair.0@),
    ensures
        match r {
            Some(value) => found matches Some(pair) && user_key_of(pair.0@) == key@ && pair.1@ == Some(value@),
            None => match *found {
                None => true,
                Some(pair) => user_key_of(pair.0@) != key@ || pair.1@ is None,
            },
        },
{
    match found {
        // Iterator has seeked passed the borders.
        None => None,
        // Iterator gets us the key, we tell if it's the key we want
        // or key next to it.
        Some((full, value)) => {
            let found_key = user_key(full.as_slice());
            if bytes_equal(found_key.as_slice(), key) {
                match value {
                    HummockValue::Put(bytes) => Some(copy_bytes(bytes.as_slice())),
                    HummockValue::Delete => None,
                }
            } else {
                None
            }
        },
    }
}

/// The description of a new table.
pub open spec fn info_of(t: TableMeta) -> SstView {
    SstView {
        id: t.id,
        key_range: KeyRangeView { left: t.smallest_key@, right: t.largest_key@, inf: false },
        file_size: 0,
        table_ids: Seq::empty(),
    }
}

/// What is registered for the tables that a batch was written to; nothing if
/// the batch was empty.
fn table_infos(tables: &Vec<TableMeta>) -> (r: Option<Vec<SstableInfo>>)
    ensures
        match r {
            None => tables@.len() == 0,
            Some(infos) => tables@.len() > 0 && sst_views(infos@) == Seq::new(
                tables@.len(),
                |i: int| info_of(tables@[i]),
            ),
        },
{
    if tables.len() == 0 {
        return None;
    }
    let mut infos: Vec<SstableInfo> = Vec::new();
    let mut i: usize = 0;
    while i < tables.len()
        invariant
            i <= tables@.len(),
            infos@.len() == i,
            forall|j: int| 0 <= j < i ==> (#[trigger] infos@[j])@ == info_of(tables@[j]),
        decreases tables@.len() - i,
    {
        let t = &tables[i];
        let info = SstableInfo {
            id: t.id,
            key_range: KeyRange::new(
                copy_bytes(t.smallest_key.as_slice()),
                copy_bytes(t.largest_key.as_slice()),
            ),
            file_size: 0,
            table_ids: Vec::new(),
        };
        proof {
            assert(info@ =~= info_of(*t));
        }
        infos.push(info);
        i = i + 1;
    }
    proof {
        assert(sst_views(infos@) =~= Seq::new(tables@.len(), |k: int| info_of(tables@[k])));
    }
    Some(infos)
}

/// What one table of a batch holds, and how many bytes it counts.
pub struct TableContent {
    pub pairs: Seq<PairView>,
    pub size: int,
}

/// The pair that is stored for a pair of a batch.
pub open spec fn stored_pair(pair: PairView, epoch: u64) -> PairView {
    (full_key_spec(pair.0, epoch), pair.1)
}

/// A table with one more pair.
pub open spec fn content_with(table: TableContent, pair: PairView) -> TableContent {
    TableContent {
        pairs: table.pairs.push(pair),
        size: grown(grown(table.size, pair.0.len() as int), value_len(pair.1) as int),
    }
}

/// The tables into which the first `n` pairs of a batch go: a pair goes into the last
/// table unless that one has reached its capacity.
pub open spec fn split_tables(batch: Seq<PairView>, epoch: u64, capacity: int, n: int) -> Seq<TableContent>
    decreases n,
{
    if n <= 0 {
        Seq::empty()
    } else {
        let tables = split_tables(batch, epoch, capacity, n - 1);
        let pair = stored_pair(batch[n - 1], epoch);
        if tables.len() == 0 || tables.last().size >= capacity {
            tables.push(content_with(TableContent { pairs: Seq::empty(), size: 0 }, pair))
        } else {
            tables.drop_last().push(content_with(tables.last(), pair))
        }
    }
}

/// The pairs of the tables, one table after the other.
pub open spec fn contents(tables: Seq<TableContent>) -> Seq<PairView>
    decreases tables.len(),
{
    if tables.len() == 0 {
        Seq::empty()
    } else {
        contents(tables.drop_last()) + tables.last().pairs
    }
}

/// The tables of a batch hold its pairs, each one once and in order; no table is empty.
pub proof fn law_batch_keeps_pairs(batch: Seq<PairView>, epoch: u64, capacity: int, n: int)
    requires
        0 <= n <= batch.len(),
    ensures
        contents(split_tables(batch, epoch, capacity, n)) == Seq::new(
            n as nat,
            |i: int| stored_pair(batch[i], epoch),
        ),
        forall|i: int|
            0 <= i < split_tables(batch, epoch, capacity, n).len() ==> (#[trigger] split_tables(
                batch,
                epoch,
                capacity,
                n,
            )[i]).pairs.len() > 0,
    decreases n,
{
    let tables = split_tables(batch, epoch, capacity, n);
    if n > 0 {
        law_batch_keeps_pairs(batch, epoch, capacity, n - 1);
        let before = split_tables(batch, epoch, capacity, n - 1);
        let pair = stored_pair(batch[n - 1], epoch);
        assert(tables.drop_last() =~= if before.len() == 0 || before.last().size >= capacity {
            before
        } else {
            before.drop_last()
        });
        assert(contents(tables) =~= contents(before).push(pair));
    }
    assert(contents(tables) =~= Seq::new(n as nat, |i: int| stored_pair(batch[i], epoch)));
}

proof fn lemma_split_grows(batch: Seq<PairView>, epoch: u64, capacity: int, i: int, n: int)
    requires
        0 <= i <= n,
    ensures
        split_tables(batch, epoch, capacity, i).len() <= split_tables(batch, epoch, capacity, n).len(),
    decreases n,
{
    if i < n {
        lemma_split_grows(batch, epoch, capacity, i, n - 1);
    }
}

/// The versions that a batch writes.
pub open spec fn versions_of(batch: Seq<PairView>, epoch: u64) -> Seq<Version> {
    Seq::new(batch.len(), |i: int| Version { key: batch[i].0, epoch })
}

/// The batch is ordered by key, and no key occurs twice.
pub open spec fn batch_ordered(batch: Seq<PairView>) -> bool {
    forall|i: int, j: int| 0 <= i < j < batch.len() ==> bytes_lt((#[trigger] batch[i]).0, (#[trigger] batch[j]).0)
}

/// What a batch wrote is read: its pairs are in the order of full keys, and a lookup of
/// one of its keys, in the epoch of the batch or a later one, stops at the pair of that
/// key.
pub proof fn law_written_is_read(batch: Seq<PairView>, epoch: u64, read_epoch: u64, i: int, at: int)
    requires
        batch_ordered(batch),
        epoch <= read_epoch,
        0 <= i < batch.len(),
        stops_at(versions_of(batch, epoch), full_key_spec(batch[i].0, read_epoch), at),
    ensures
        in_key_order(versions_of(batch, epoch)),
        at == i,
{
    let versions = versions_of(batch, epoch);
    assert forall|a: int, b: int| 0 <= a < b < versions.len() implies full_key_lt(
        stored(#[trigger] versions[a]),
        stored(#[trigger] versions[b]),
    ) by {
        law_full_key_parts(batch[a].0, epoch);
        law_full_key_parts(batch[b].0, epoch);
        assert(bytes_lt(batch[a].0, batch[b].0));
    }
    law_seek_finds_snapshot(versions, batch[i].0, read_epoch, at);
    assert(visible(versions[i], batch[i].0, read_epoch));
    lemma_bytes_lt_irreflexive(batch[i].0, 0);
    if at < i {
        assert(bytes_lt(batch[at].0, batch[i].0));
    }
    if i < at {
        assert(bytes_lt(batch[i].0, batch[at].0));
    }
}

/// The tables of a batch, and what is registered for them.
#[derive(Debug)]
pub struct WrittenBatch {
    /// The id of each table and its pairs.
    pub tables: Vec<(u64, Vec<(Vec<u8>, HummockValue)>)>,
    /// The descriptions of the tables; nothing is registered for an empty batch.
    pub infos: Option<Vec<SstableInfo>>,
}

/// The tables hold what they should, under the given ids.
pub open spec fn holds_tables(
    tables: Seq<(u64, Vec<(Vec<u8>, HummockValue)>)>,
    expected: Seq<TableContent>,
    ids: Seq<u64>,
) -> bool {
    &&& tables.len() == expected.len()
    &&& forall|i: int|
        0 <= i < tables.len() ==> (#[trigger] tables[i]).0 == ids[i] && pair_views(tables[i].1@) == expected[i].pairs
}

/// The description of a table that a batch was written to.
pub open spec fn content_info(id: u64, table: TableContent) -> SstView {
    SstView {
        id,
        key_range: KeyRangeView { left: table.pairs.first().0, right: table.pairs.last().0, inf: false },
        file_size: 0,
        table_ids: Seq::empty(),
    }
}

/// The tables under construction are those of the first pairs of a batch.
spec fn building(
    builders: Seq<SSTableBuilderWrapper>,
    expected: Seq<TableContent>,
    capacity: int,
    ids: Seq<u64>,
) -> bool {
    &&& builders.len() == expected.len() <= ids.len()
    &&& forall|i: int|
        0 <= i < builders.len() ==> {
            &&& (#[trigger] builders[i]).id == ids[i]
            &&& !builders[i].sealed
            &&& builders[i].builder.capacity == capacity
            &&& builders[i].builder.approximate_len == expected[i].size
            &&& pair_views(builders[i].builder.pairs@) == expected[i].pairs
        }
}

proof fn lemma_building_step(
    before: Seq<SSTableBuilderWrapper>,
    after: Seq<SSTableBuilderWrapper>,
    fresh: (u64, SSTableBuilder),
    batch: Seq<PairView>,
    epoch: u64,
    capacity: int,
    ids: Seq<u64>,
    n: int,
)
    requires
        0 <= n < batch.len(),
        building(before, split_tables(batch, epoch, capacity, n), capacity, ids),
        added_to_last(
            after,
            tables_for_next(before, true, fresh.0, fresh.1),
            stored_pair(batch[n], epoch),
        ),
        fresh.1.pairs@.len() == 0,
        fresh.1.approximate_len == 0,
        fresh.1.capacity == capacity,
        new_table_needed(before, true) ==> before.len() < ids.len() && fresh.0 == ids[before.len() as int],
    ensures
        building(after, split_tables(batch, epoch, capacity, n + 1), capacity, ids),
{
    let old_tables = split_tables(batch, epoch, capacity, n);
    let tables = split_tables(batch, epoch, capacity, n + 1);
    let open = tables_for_next(before, true, fresh.0, fresh.1);
    assert(pair_views(fresh.1.pairs@) =~= Seq::<PairView>::empty());
    assert forall|i: int| 0 <= i < after.len() implies {
        &&& (#[trigger] after[i]).id == ids[i]
        &&& !after[i].sealed
        &&& after[i].builder.capacity == capacity
        &&& after[i].builder.approximate_len == tables[i].size
        &&& pair_views(after[i].builder.pairs@) == tables[i].pairs
    } by {
        if i < after.len() - 1 {
            assert(after[i] == after.drop_last()[i]);
            assert(open[i] == open.drop_last()[i]);
            assert(after[i] == before[i]);
            assert(tables[i] == old_tables[i]);
        } else if !new_table_needed(before, true) {
            assert(open.last() == before[i]);
        }
    }
}

/// The smallest and the largest key of each table.
fn metas_of(tables: &Vec<(u64, Vec<(Vec<u8>, HummockValue)>)>) -> (r: Vec<TableMeta>)
    requires
        forall|i: int| 0 <= i < tables@.len() ==> (#[trigger] tables@[i]).1@.len() > 0,
    ensures
        r@.len() == tables@.len(),
        forall|i: int|
            0 <= i < r@.len() ==> {
                &&& (#[trigger] r@[i]).id == tables@[i].0
                &&& r@[i].smallest_key@ == pair_views(tables@[i].1@).first().0
                &&& r@[i].largest_key@ == pair_views(tables@[i].1@).last().0
            },
{
    let mut r: Vec<TableMeta> = Vec::new();
    let mut i: usize = 0;
    while i < tables.len()
        invariant
            i <= tables@.len(),
            r@.len() == i,
            forall|j: int| 0 <= j < tables@.len() ==> (#[trigger] tables@[j]).1@.len() > 0,
            forall|j: int|
                0 <= j < r@.len() ==> {
                    &&& (#[trigger] r@[j]).id == tables@[j].0
                    &&& r@[j].smallest_key@ == pair_views(tables@[j].1@).first().0
                    &&& r@[j].largest_key@ == pair_views(tables@[j].1@).last().0
                },
        decreases tables@.len() - i,
    {
        let pairs = &tables[i].1;
        assert(tables@[i as int].1@.len() > 0);
        let smallest_key = copy_bytes(pairs[0].0.as_slice());
        let largest_key = copy_bytes(pairs[pairs.len() - 1].0.as_slice());
        r.push(TableMeta { id: tables[i].0, smallest_key, largest_key });
        i = i + 1;
    }
    r
}

/// Writes a batch. The batch should be:
/// * Ordered. KV pairs will be directly written to the table, so it must be ordered.
/// * Locally unique. There should not be two or more operations on the same key in one write
///   batch.
///
/// Each new table takes the next one of `ids`. Nothing is written if there are too few.
pub fn write_batch(
    kv_pairs: Vec<(Vec<u8>, HummockValue)>,
    epoch: u64,
    options: &HummockOptions,
    ids: &Vec<u64>,
) -> (r: Option<WrittenBatch>)
    requires
        forall|i: int| 0 <= i < kv_pairs@.len() ==> (#[trigger] kv_pairs@[i]).0@.len() > 0,
    ensures
        ({
            let expected = split_tables(
                pair_views(kv_pairs@),
                epoch,
                options.sstable_size as int,
                kv_pairs@.len() as int,
            );
            match r {
                None => expected.len() > ids@.len(),
                Some(written) => {
                    &&& expected.len() <= ids@.len()
                    &&& holds_tables(written.tables@, expected, ids@)
                    &&& match written.infos {
                        None => kv_pairs@.len() == 0,
                        Some(infos) => kv_pairs@.len() > 0 && sst_views(infos@) == Seq::new(
                            expected.len(),
                            |i: int| content_info(ids@[i], expected[i]),
                        ),
                    }
                },
            }
        }),
{
    let ghost batch = pair_views(kv_pairs@);
    let ghost input = kv_pairs@;
    let ghost capacity = options.sstable_size as int;
    let ghost n = batch.len() as int;
    let mut builder = CapacitySplitTableBuilder::new();
    for pair in iter: kv_pairs
        invariant
            iter.seq() == input,
            batch == pair_views(input),
            n == batch.len(),
            capacity == options.sstable_size,
            forall|i: int| 0 <= i < input.len() ==> (#[trigger] input[i]).0@.len() > 0,
            building(builder.tables(), split_tables(batch, epoch, capacity, iter.index()), capacity, ids@),
    {
        let ghost k = iter.index();
        assert(pair == input[k]);
        assert(batch[k] == (pair.0@, pair.1@));
        let ghost before = builder.tables();
        let built: usize = builder.len();
        let required: bool = builder.new_builder_required(true);
        if required && built >= ids.len() {
            proof {
                lemma_split_grows(batch, epoch, capacity, k + 1, n);
            }
            return None;
        }
        let id: u64 = if required {
            ids[built]
        } else {
            0
        };
        let fresh = get_builder(options);
        let ghost added = (id, fresh);
        builder.add_user_key(pair.0, pair.1, epoch, (id, fresh));
        proof {
            lemma_building_step(before, builder.tables(), added, batch, epoch, capacity, ids@, k);
        }
    }
    let ghost expected = split_tables(batch, epoch, capacity, n);
    let tables = builder.finish();
    proof {
        law_batch_keeps_pairs(batch, epoch, capacity, n);
        assert forall|i: int| 0 <= i < tables@.len() implies (#[trigger] tables@[i]).1@.len() > 0 by {
            assert(expected[i].pairs.len() > 0);
            assert(pair_views(tables@[i].1@) == expected[i].pairs);
        }
    }
    let metas = metas_of(&tables);
    let infos = table_infos(&metas);
    proof {
        if n > 0 {
            assert(expected.len() > 0);
        }
        if infos is Some {
            assert(sst_views(infos->0@) =~= Seq::new(expected.len(), |i: int| content_info(ids@[i], expected[i]))) by {
                assert forall|i: int| 0 <= i < expected.len() implies info_of(metas@[i]) == content_info(
                    ids@[i],
                    expected[i],
                ) by {
                    assert(metas@[i].id == tables@[i].0);
                    assert(pair_views(tables@[i].1@) == expected[i].pairs);
                }
            }
        }
    }
    Some(WrittenBatch { tables, infos })
}

/// The bytes of the keys and values of pairs.
pub open spec fn pairs_len(pairs: Seq<PairView>) -> int
    decreases pairs.len(),
{
    if pairs.len() == 0 {
        0
    } else {
        let last = pairs.last();
        pairs_len(pairs.drop_last()) + last.0.len() + match last.1 {
            Some(bytes) => bytes.len() as int,
            None => 0,
        }
    }
}

/// A batch opens a new table only when the last one is full: every table but the last holds at least
/// the capacity, in bytes of keys and values, and without its last pair it held less.
pub proof fn law_only_full_tables_are_left(batch: Seq<PairView>, epoch: u64, capacity: int, n: int, i: int)
    requires
        0 <= n <= batch.len(),
        0 < capacity <= usize::MAX,
        0 <= i < split_tables(batch, epoch, capacity, n).len(),
    ensures
        ({
            let tables = split_tables(batch, epoch, capacity, n);
            let pairs = tables[i].pairs;
            &&& i < tables.len() - 1 ==> pairs_len(pairs) >= capacity
            &&& pairs.len() > 0
            &&& pairs_len(pairs.drop_last()) < capacity
            &&& tables[i].size == if pairs_len(pairs) > usize::MAX {
                usize::MAX as int
            } else {
                pairs_len(pairs)
            }
        }),
    decreases n,
{
    let tables = split_tables(batch, epoch, capacity, n);
    let before = split_tables(batch, epoch, capacity, n - 1);
    let pair = stored_pair(batch[n - 1], epoch);
    if i < before.len() {
        law_only_full_tables_are_left(batch, epoch, capacity, n - 1, i);
    }
    if before.len() == 0 || before.last().size >= capacity {
        if i == before.len() {
            let pairs = tables[i].pairs;
            assert(pairs.drop_last() =~= Seq::empty());
            assert(pairs.last() == pair);
        }
    } else if i == before.len() - 1 {
        let pairs = tables[i].pairs;
        assert(pairs.drop_last() =~= before[i].pairs);
        assert(pairs.last() == pair);
    }
}

/// A scan skips the tables that end before its lower bound or start behind its upper bound.
pub proof fn law_scan_skips_tables_outside(t: TableMeta, lower: BoundView, upper: BoundView, bound: Seq<u8>)
    ensures
        lower == BoundView::Included(bound) && bytes_lt(table_end(t), bound) ==> !table_in_range(t, lower, upper),
        lower == BoundView::Excluded(bound) && !bytes_lt(bound, table_end(t)) ==> !table_in_range(t, lower, upper),
        upper == BoundView::Included(bound) && bytes_lt(bound, table_start(t)) ==> !table_in_range(t, lower, upper),
        upper == BoundView::Excluded(bound) && !bytes_lt(table_start(t), bound) ==> !table_in_range(t, lower, upper),
        lower is Unbounded && upper is Unbounded ==> table_in_range(t, lower, upper),
{
}

/// The runs that a lookup merges are those of the levels in their order, without a gap: each table of
/// an overlapping level is a run by itself, and the tables of another level together are one.
pub proof fn law_levels_are_read_in_order(levels: Seq<LevelTables>, n: int, i: int)
    requires
        0 <= i < n <= levels.len(),
    ensures
        ({
            let ids = levels[i].table_ids@;
            let at = runs_upto(levels, i).len() as int;
            let overlapping = levels[i].level_type == LevelType::Overlapping;
            let end = at + if overlapping {
                ids.len() as int
            } else {
                1
            };
            let runs = runs_upto(levels, n);
            &&& end <= runs.len()
            &&& i + 1 == n ==> end == runs.len()
            &&& runs_upto(levels, i + 1).len() == end
            &&& !overlapping ==> runs[at] == ids
            &&& overlapping ==> forall|k: int| 0 <= k < ids.len() ==> runs[at + k] == seq![#[trigger] ids[k]]
        }),
    decreases n,
{
    assert(runs_upto(levels, n) == runs_upto(levels, n - 1) + runs_of(levels[n - 1]));
    if i < n - 1 {
        law_levels_are_read_in_order(levels, n - 1, i);
    } else {
        assert(runs_upto(levels, 0).len() == 0);
    }
}

/// What is registered for a table are its id and its first and last key.
pub proof fn law_registered_range_is_first_to_last(id: u64, table: TableContent)
    requires
        table.pairs.len() > 0,
    ensures
        content_info(id, table).id == id,
        content_info(id, table).key_range.left == table.pairs[0].0,
        content_info(id, table).key_range.right == table.pairs[table.pairs.len() - 1].0,
        !content_info(id, table).key_range.inf,
{
}

} // verus!

//! The shape of a storage version: sorted string tables arranged in levels.

use vstd::prelude::*;

use crate::hummock::key::{copy_bytes, is_full_key};

verus! {

/// A range of full keys. An empty bound is unbounded on that side.
#[derive(Debug)]
pub struct KeyRange {
    pub left: Vec<u8>,
    pub right: Vec<u8>,
    pub inf: bool,
}

/// The value of a [`KeyRange`].
#[verifier::ext_equal]
pub struct KeyRangeView {
    pub left: Seq<u8>,
    pub right: Seq<u8>,
    pub inf: bool,
}

impl View for KeyRange {
    type V = KeyRangeView;

    open spec fn view(&self) -> KeyRangeView {
        KeyRangeView { left: self.left@, right: self.right@, inf: self.inf }
    }
}

impl KeyRangeView {
    /// Each bound is unbounded or a full key.
    pub open spec fn wf(self) -> bool {
        &&& self.left.len() == 0 || is_full_key(self.left)
        &&& self.right.len() == 0 || is_full_key(self.right)
    }
}

impl KeyRange {
    /// The range from `left` to `right`.
    pub fn new(left: Vec<u8>, right: Vec<u8>) -> (r: KeyRange)
        ensures
            r@ == (KeyRangeView { left: left@, right: right@, inf: false }),
    {
        KeyRange { left, right, inf: false }
    }

    /// A copy of the range.
    pub fn copy(&self) -> (r: KeyRange)
        ensures
            r@ == self@,
    {
        KeyRange {
            left: copy_bytes(self.left.as_slice()),
            right: copy_bytes(self.right.as_slice()),
            inf: self.inf,
        }
    }
}

/// What the engine knows of one sorted string table.
#[derive(Debug)]
pub struct SstableInfo {
    pub id: u64,
    pub key_range: KeyRange,
    pub file_size: u64,
    pub table_ids: Vec<u32>,
}

/// The value of an [`SstableInfo`].
#[verifier::ext_equal]
pub struct SstView {
    pub id: u64,
    pub key_range: KeyRangeView,
    pub file_size: u64,
    pub table_ids: Seq<u32>,
}

impl View for SstableInfo {
    type V = SstView;

    open spec fn view(&self) -> SstView {
        SstView {
            id: self.id,
            key_range: self.key_range@,
            file_size: self.file_size,
            table_ids: self.table_ids@,
        }
    }
}

impl SstableInfo {
    /// A copy of the table's description.
    pub fn copy(&self) -> (r: SstableInfo)
        ensures
            r@ == self@,
    {
        let mut table_ids: Vec<u32> = Vec::new();
        let mut i: usize = 0;
        while i < self.table_ids.len()
            invariant
                i <= self.table_ids@.len(),
                table_ids@ == self.table_ids@.subrange(0, i as int),
            decreases self.table_ids@.len() - i,
        {
            table_ids.push(self.table_ids[i]);
            i = i + 1;
        }
        proof {
            assert(self.table_ids@.subrange(0, i as int) =~= self.table_ids@);
        }
        SstableInfo { id: self.id, key_range: self.key_range.copy(), file_size: self.file_size, table_ids }
    }
}

/// The values of a sequence of tables.
pub open spec fn sst_views(tables: Seq<SstableInfo>) -> Seq<SstView> {
    Seq::new(tables.len(), |i: int| tables[i]@)
}

/// The sum of the file sizes of `tables`.
pub open spec fn total_size(tables: Seq<SstView>) -> nat
    decreases tables.len(),
{
    if tables.len() == 0 {
        0
    } else {
        total_size(tables.drop_last()) + tables.last().file_size as nat
    }
}

pub proof fn lemma_total_size_push(tables: Seq<SstView>, t: SstView)
    ensures
        total_size(tables.push(t)) == total_size(tables) + t.file_size,
{
    assert(tables.push(t).drop_last() =~= tables);
}

/// The tables of a prefix take no more room than all of them.
pub proof fn lemma_total_size_prefix(tables: Seq<SstView>, n: int)
    requires
        0 <= n <= tables.len(),
    ensures
        total_size(tables.subrange(0, n)) <= total_size(tables),
    decreases tables.len(),
{
    if n < tables.len() {
        lemma_total_size_prefix(tables.drop_last(), n);
        assert(tables.drop_last().subrange(0, n) =~= tables.subrange(0, n));
    } else {
        assert(tables.subrange(0, n) =~= tables);
    }
}

/// No table is larger than all tables together.
pub proof fn lemma_total_size_member(tables: Seq<SstView>, i: int)
    requires
        0 <= i < tables.len(),
    ensures
        tables[i].file_size <= total_size(tables),
    decreases tables.len(),
{
    if i < tables.len() - 1 {
        lemma_total_size_member(tables.drop_last(), i);
    }
}

/// Keeping only some tables does not make them larger.
pub proof fn lemma_total_size_filter(tables: Seq<SstView>, p: spec_fn(SstView) -> bool)
    ensures
        total_size(tables.filter(p)) <= total_size(tables),
    decreases tables.len(),
{
    reveal(Seq::filter);
    if tables.len() > 0 {
        let rest = tables.drop_last().filter(p);
        lemma_total_size_filter(tables.drop_last(), p);
        if p(tables.last()) {
            lemma_total_size_push(rest, tables.last());
        }
    }
}

/// Copies of `tables[from..to]`.
pub fn copy_tables(tables: &Vec<SstableInfo>) -> (r: Vec<SstableInfo>)
    ensures
        sst_views(r@) == sst_views(tables@),
{
    let mut r: Vec<SstableInfo> = Vec::new();
    let mut i: usize = 0;
    while i < tables.len()
        invariant
            i <= tables@.len(),
            r@.len() == i,
            forall|j: int| 0 <= j < i ==> (#[trigger] r@[j])@ == tables@[j]@,
        decreases tables@.len() - i,
    {
        r.push(tables[i].copy());
        i = i + 1;
    }
    proof {
        assert(sst_views(r@) =~= sst_views(tables@));
    }
    r
}

/// Sum of the file sizes of `table_infos`.
pub fn cal_file_size(table_infos: &Vec<SstableInfo>) -> (r: u64)
    requires
        total_size(sst_views(table_infos@)) <= u64::MAX,
    ensures
        r == total_size(sst_views(table_infos@)),
{
    let ghost views = sst_views(table_infos@);
    let mut sum: u64 = 0;
    let mut i: usize = 0;
    while i < table_infos.len()
        invariant
            views == sst_views(table_infos@),
            i <= table_infos@.len(),
            total_size(views) <= u64::MAX,
            sum == total_size(views.subrange(0, i as int)),
        decreases table_infos@.len() - i,
    {
        proof {
            assert(views.subrange(0, i + 1) =~= views.subrange(0, i as int).push(views[i as int]));
            lemma_total_size_push(views.subrange(0, i as int), views[i as int]);
            lemma_total_size_prefix(views, i + 1);
        }
        sum = sum + table_infos[i].file_size;
        i = i + 1;
    }
    proof {
        assert(views.subrange(0, i as int) =~= views);
    }
    sum
}

/// Whether the tables of a level may overlap each other.
#[derive(Clone, Copy, Debug, PartialEq, Eq, Structural)]
pub enum LevelType {
    Nonoverlapping,
    Overlapping,
}

/// One level, or one sub-level of level 0.
#[derive(Debug)]
pub struct Level {
    pub level_idx: u32,
    pub level_type: LevelType,
    pub table_infos: Vec<SstableInfo>,
    pub total_file_size: u64,
    pub sub_level_id: u64,
}

/// The value of a [`Level`].
#[verifier::ext_equal]
pub struct LevelView {
    pub level_idx: u32,
    pub level_type: LevelType,
    pub tables: Seq<SstView>,
    pub total_file_size: u64,
    pub sub_level_id: u64,
}

impl View for Level {
    type V = LevelView;

    open spec fn view(&self) -> LevelView {
        LevelView {
            level_idx: self.level_idx,
            level_type: self.level_type,
            tables: sst_views(self.table_infos@),
            total_file_size: self.total_file_size,
            sub_level_id: self.sub_level_id,
        }
    }
}

/// The values of a sequence of levels.
pub open spec fn level_views(levels: Seq<Level>) -> Seq<LevelView> {
    Seq::new(levels.len(), |i: int| levels[i]@)
}

/// Level 0: sub-levels from old to new.
#[derive(Debug)]
pub struct OverlappingLevel {
    pub sub_levels: Vec<Level>,
    pub total_file_size: u64,
}

/// All levels of a version. `levels[i]` is level `i + 1`.
#[derive(Debug)]
pub struct Levels {
    pub levels: Vec<Level>,
    pub l0: OverlappingLevel,
}

/// The value of a [`Levels`].
#[verifier::ext_equal]
pub struct LevelsView {
    pub levels: Seq<LevelView>,
    pub sub_levels: Seq<LevelView>,
    pub l0_total_file_size: u64,
}

impl View for Levels {
    type V = LevelsView;

    open spec fn view(&self) -> LevelsView {
        LevelsView {
            levels: level_views(self.levels@),
            sub_levels: level_views(self.l0.sub_levels@),
            l0_total_file_size: self.l0.total_file_size,
        }
    }
}

/// The tables that a compaction reads from one level.
#[derive(Debug)]
pub struct InputLevel {
    pub level_idx: u32,
    pub level_type: LevelType,
    pub table_infos: Vec<SstableInfo>,
}

/// The value of an [`InputLevel`].
#[verifier::ext_equal]
pub struct InputLevelView {
    pub level_idx: u32,
    pub level_type: LevelType,
    pub tables: Seq<SstView>,
}

impl View for InputLevel {
    type V = InputLevelView;

    open spec fn view(&self) -> InputLevelView {
        InputLevelView {
            level_idx: self.level_idx,
            level_type: self.level_type,
            tables: sst_views(self.table_infos@),
        }
    }
}

/// The values of a sequence of input levels.
pub open spec fn input_level_views(levels: Seq<InputLevel>) -> Seq<InputLevelView> {
    Seq::new(levels.len(), |i: int| levels[i]@)
}

/// What a compaction picker decided: the tables to read and where to write.
#[derive(Debug)]
pub struct CompactionInput {
    pub input_levels: Vec<InputLevel>,
    pub target_level: usize,
    pub target_sub_level_id: u64,
}

/// The value of a [`CompactionInput`].
#[verifier::ext_equal]
pub struct CompactionInputView {
    pub input_levels: Seq<InputLevelView>,
    pub target_level: usize,
    pub target_sub_level_id: u64,
}

impl View for CompactionInput {
    type V = CompactionInputView;

    open spec fn view(&self) -> CompactionInputView {
        CompactionInputView {
            input_levels: input_level_views(self.input_levels@),
            target_level: self.target_level,
            target_sub_level_id: self.target_sub_level_id,
        }
    }
}

} // verus!

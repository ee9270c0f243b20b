//! Which level to compact next, and how the task is carried out.

use std::sync::Arc;
use vstd::prelude::*;
use vstd::relations::{sorted_by, total_ordering};
use vstd::seq_lib::lemma_sorted_unique;

use crate::hummock::compaction_config::CompactionConfig;
use crate::hummock::key::{
    bytes_less, bytes_lt, copy_bytes, full_key, full_key_spec, is_full_key,
    lemma_bytes_lt_irreflexive, lemma_bytes_lt_transitive, lemma_bytes_trichotomy, user_key,
    user_key_of,
};
use crate::hummock::level_handler::{task_size, tasks_to, HandlerView, LevelHandler};
use crate::hummock::level_size::{double_product, scale_level_size};
use crate::hummock::min_overlap_compaction_picker::{
    is_choice, lemma_min_overlap_sizes, min_overlap, MinOverlappingPicker,
};
use crate::hummock::overlap_strategy::{OverlapStrategy, RangeOverlapStrategy};
use crate::hummock::picker::{
    count_tables, first_from, handler_views, lemma_first_from, lemma_run_end_bounds, table_count,
    version_wf, CompactionPicker,
};
use crate::hummock::tier_compaction_picker::{
    min_u64, sub_level_inputs, whole_inputs, whole_run, LevelCompactionPicker,
    TierCompactionPicker,
};
use crate::hummock::version::{
    input_level_views, lemma_total_size_push, sst_views, total_size, CompactionInput,
    CompactionInputView, InputLevel, InputLevelView, KeyRange, KeyRangeView, LevelView, Levels,
    LevelsView, SstView,
};

verus! {

/// A level with this score holds as much as it should.
pub const SCORE_BASE: u64 = 100;

/// A range is split into parts of at least this many tables.
pub const SPLIT_RANGE_STEP: usize = 8;

/// What the selector computes of a version.
pub struct SelectContext {
    pub level_max_bytes: Vec<u64>,
    /// All data will be placed in the last level. When the cluster is empty, the files in L0 will
    /// be compact to `max_level`, and the `max_level` would be `base_level`. When the total
    /// size of the files in  `base_level` reaches its capacity, we will place data in a higher
    /// level, which equals to `base_level -= 1;`.
    pub base_level: usize,
    pub score_levels: Vec<(u64, usize, usize)>,
}

/// A compaction task, ready to be handed to a compactor.
#[derive(Debug)]
pub struct CompactionTask {
    pub input: CompactionInput,
    pub compression_algorithm: String,
    pub target_file_size: u64,
    pub splits: Vec<KeyRange>,
}

/// The index of the first level, from `levels[i]` on, that holds data; 0 if none does.
pub open spec fn first_non_empty(levels: Seq<LevelView>, i: int) -> int
    decreases levels.len() - i,
{
    if i >= levels.len() {
        0
    } else if levels[i].total_file_size > 0 && levels[i].level_idx > 0 {
        levels[i].level_idx as int
    } else {
        first_non_empty(levels, i + 1)
    }
}

/// The size of the largest level.
pub open spec fn max_level_size(levels: Seq<LevelView>) -> nat
    decreases levels.len(),
{
    if levels.len() == 0 {
        0
    } else {
        let rest = max_level_size(levels.drop_last());
        if rest >= levels.last().total_file_size {
            rest
        } else {
            levels.last().total_file_size as nat
        }
    }
}

/// `n` divided by `m` as many times as said.
pub open spec fn shrunk(n: nat, m: nat, times: nat) -> nat
    decreases times,
{
    if times == 0 {
        n
    } else {
        shrunk(n, m, (times - 1) as nat) / m
    }
}

/// Goes up from level `base`, dividing its size by `m` each time, while the
/// size is above `limit` and there is a level above.
pub open spec fn climb(base: int, size: nat, limit: nat, m: nat) -> (int, nat)
    decreases base,
{
    if base > 1 && size > limit {
        climb(base - 1, size / m, limit, m)
    } else {
        (base, size)
    }
}

/// The size of the first non-empty level if each level from there to the last
/// one is `max_bytes_for_level_multiplier` times as large as the one above and
/// the last one is as large as the largest level is now.
pub open spec fn ideal_size(config: CompactionConfig, levels: Seq<LevelView>) -> nat {
    let first = first_non_empty(levels, 0);
    let times = if first < config.max_level {
        config.max_level - first
    } else {
        0
    };
    shrunk(max_level_size(levels), config.max_bytes_for_level_multiplier as nat, times as nat)
}

/// The base level, and the size that it should have.
pub open spec fn base_level_and_size(config: CompactionConfig, levels: Seq<LevelView>) -> (int, nat) {
    let first = first_non_empty(levels, 0);
    let base_max = config.max_bytes_for_level_base;
    let base_min = base_max / config.max_bytes_for_level_multiplier;
    let ideal = ideal_size(config, levels);
    if max_level_size(levels) == 0 {
        (config.max_level as int, u64::MAX as nat)
    } else if ideal <= base_min {
        (first, (base_min + 1) as nat)
    } else {
        let (base, size) = climb(first, ideal, base_max as nat, config.max_bytes_for_level_multiplier as nat);
        (
            base,
            if base_max <= size {
                base_max as nat
            } else {
                size
            },
        )
    }
}

/// The base level of a version.
pub open spec fn base_level_of(config: CompactionConfig, levels: Seq<LevelView>) -> int {
    base_level_and_size(config, levels).0
}

/// The size of the level that is `k` below the base level.
pub open spec fn scaled_size(size: u64, multiplier: u64, k: nat) -> u64
    decreases k,
{
    if k == 0 {
        size
    } else {
        double_product(scaled_size(size, multiplier, (k - 1) as nat), multiplier)
    }
}

/// How much each level should hold at most: no limit above the base level, and
/// never less than `max_bytes_for_level_base` from there on.
pub open spec fn level_limits(config: CompactionConfig, levels: Seq<LevelView>) -> Seq<u64> {
    let (base, size) = base_level_and_size(config, levels);
    Seq::new(
        config.max_level as nat + 1,
        |i: int|
            if max_level_size(levels) == 0 || i < base {
                u64::MAX
            } else {
                let scaled = scaled_size(size as u64, config.max_bytes_for_level_multiplier, (i - base) as nat);
                if scaled >= config.max_bytes_for_level_base {
                    scaled
                } else {
                    config.max_bytes_for_level_base
                }
            },
    )
}

/// The sizes that the levels should have can be computed: there is room for a
/// size of each level, and where the levels hold data, the smallest size of the
/// base level is a 64-bit number.
pub open spec fn sizes_defined(config: CompactionConfig, levels: Seq<LevelView>) -> bool {
    &&& config.max_level < usize::MAX
    &&& max_level_size(levels) > 0 ==> {
        &&& config.max_bytes_for_level_multiplier > 0
        &&& config.max_bytes_for_level_base / config.max_bytes_for_level_multiplier < u64::MAX
    }
}

/// A level with its score, and the level that it is compacted into.
pub type ScoreLevel = (u64, usize, usize);

/// How many tables of level 0 are idle.
pub open spec fn idle_files(levels: LevelsView, handlers: Seq<HandlerView>) -> int {
    table_count(levels.sub_levels) - handlers[0].compacting.dom().len()
}

/// How many bytes of level 0 are idle.
pub open spec fn idle_bytes(levels: LevelsView, handlers: Seq<HandlerView>) -> int {
    levels.l0_total_file_size - task_size(handlers[0].tasks)
}

/// The greater of two numbers.
pub open spec fn max_int(a: int, b: int) -> int {
    if a >= b {
        a
    } else {
        b
    }
}

/// The lesser of two numbers.
pub open spec fn min_int(a: int, b: int) -> int {
    if a <= b {
        a
    } else {
        b
    }
}

/// The scores of level 0: for a compaction within it, and into the base level.
pub open spec fn l0_scores(config: CompactionConfig, levels: LevelsView, handlers: Seq<HandlerView>) -> Seq<ScoreLevel> {
    let number = config.level0_tier_compact_file_number as int;
    let limit = max_int(2 * SCORE_BASE, levels.sub_levels.len() * SCORE_BASE / number);
    if idle_files(levels, handlers) > 0 {
        seq![
            (min_int(idle_files(levels, handlers) * SCORE_BASE / number, limit) as u64, 0, 0),
            (
                (idle_bytes(levels, handlers) * SCORE_BASE / config.max_bytes_for_level_base as int) as u64,
                0,
                base_level_of(config, levels.levels) as usize,
            ),
        ]
    } else {
        Seq::empty()
    }
}

/// Level `levels[i]` can be the input of a compaction.
pub open spec fn scored(config: CompactionConfig, levels: Seq<LevelView>, i: int) -> bool {
    base_level_of(config, levels) <= levels[i].level_idx < config.max_level
}

/// The level whose tasks write into `levels[i]`.
pub open spec fn upper_level(config: CompactionConfig, levels: Seq<LevelView>, i: int) -> int {
    if levels[i].level_idx == base_level_of(config, levels) {
        0
    } else {
        levels[i].level_idx - 1
    }
}

/// How many bytes the running tasks bring into `levels[i]`.
pub open spec fn incoming(config: CompactionConfig, levels: Seq<LevelView>, handlers: Seq<HandlerView>, i: int) -> nat {
    task_size(tasks_to(handlers[upper_level(config, levels, i)].tasks, levels[i].level_idx))
}

/// How many bytes the running tasks take out of `levels[i]`.
pub open spec fn outgoing(levels: Seq<LevelView>, handlers: Seq<HandlerView>, i: int) -> nat {
    task_size(tasks_to(handlers[levels[i].level_idx as int].tasks, (levels[i].level_idx + 1) as u32))
}

/// The size of `levels[i]` once the running tasks are done.
pub open spec fn settled_size(config: CompactionConfig, levels: Seq<LevelView>, handlers: Seq<HandlerView>, i: int) -> int {
    levels[i].total_file_size + incoming(config, levels, handlers, i) - outgoing(levels, handlers, i)
}

/// The scores of the first `n` of the levels below level 0.
pub open spec fn level_scores(config: CompactionConfig, levels: Seq<LevelView>, handlers: Seq<HandlerView>, n: int) -> Seq<
    ScoreLevel,
>
    decreases n,
{
    if n <= 0 {
        Seq::empty()
    } else {
        let rest = level_scores(config, levels, handlers, n - 1);
        let i = n - 1;
        let size = settled_size(config, levels, handlers, i);
        if scored(config, levels, i) && size != 0 {
            let idx = levels[i].level_idx as int;
            rest.push(
                (
                    (size * SCORE_BASE / level_limits(config, levels)[idx] as int) as u64,
                    idx as usize,
                    (idx + 1) as usize,
                ),
            )
        } else {
            rest
        }
    }
}

/// `e` added to a list with falling scores, behind all scores that are not lower.
pub open spec fn insert_by_score(s: Seq<ScoreLevel>, e: ScoreLevel) -> Seq<ScoreLevel>
    decreases s.len(),
{
    if s.len() == 0 || s.last().0 >= e.0 {
        s.push(e)
    } else {
        insert_by_score(s.drop_last(), e).push(s.last())
    }
}

/// The entries of `s` by falling score; at equal scores as they come in `s`.
pub open spec fn by_score(s: Seq<ScoreLevel>) -> Seq<ScoreLevel>
    decreases s.len(),
{
    if s.len() == 0 {
        s
    } else {
        insert_by_score(by_score(s.drop_last()), s.last())
    }
}

/// All levels that can be compacted, the most urgent one first.
pub open spec fn priorities(config: CompactionConfig, levels: LevelsView, handlers: Seq<HandlerView>) -> Seq<ScoreLevel> {
    by_score(
        l0_scores(config, levels, handlers) + level_scores(
            config,
            levels.levels,
            handlers,
            levels.levels.len() as int,
        ),
    )
}

/// The running tasks are tasks of this version, and the scores fit 64 bits.
pub open spec fn scores_defined(config: CompactionConfig, levels: LevelsView, handlers: Seq<HandlerView>) -> bool {
    &&& sizes_defined(config, levels.levels)
    &&& handlers.len() > 0
    &&& config.level0_tier_compact_file_number > 0
    &&& idle_files(levels, handlers) > 0 ==> config.max_bytes_for_level_base > 0
    &&& table_count(levels.sub_levels) * SCORE_BASE <= u64::MAX
    &&& table_count(levels.sub_levels) <= usize::MAX
    &&& levels.sub_levels.len() * SCORE_BASE <= u64::MAX
    &&& 0 <= idle_files(levels, handlers)
    &&& 0 <= idle_bytes(levels, handlers)
    &&& idle_bytes(levels, handlers) * SCORE_BASE <= u64::MAX
    &&& forall|i: int|
        #![trigger levels.levels[i]]
        0 <= i < levels.levels.len() && scored(config, levels.levels, i) ==> {
            &&& levels.levels[i].level_idx < handlers.len()
            &&& levels.levels[i].level_idx < u32::MAX
            &&& incoming(config, levels.levels, handlers, i) + levels.levels[i].total_file_size <= u64::MAX
            &&& outgoing(levels.levels, handlers, i) <= u64::MAX
            &&& 0 <= settled_size(config, levels.levels, handlers, i)
            &&& settled_size(config, levels.levels, handlers, i) * SCORE_BASE <= u64::MAX
            &&& settled_size(config, levels.levels, handlers, i) > 0 ==> level_limits(
                config,
                levels.levels,
            )[levels.levels[i].level_idx as int] > 0
        }
}

/// The scores fall.
pub open spec fn falling(s: Seq<ScoreLevel>) -> bool {
    forall|i: int, j: int| 0 <= i < j < s.len() ==> (#[trigger] s[i]).0 >= (#[trigger] s[j]).0
}

proof fn lemma_insert_falling(s: Seq<ScoreLevel>, e: ScoreLevel)
    requires
        falling(s),
    ensures
        falling(insert_by_score(s, e)),
        insert_by_score(s, e).len() == s.len() + 1,
        forall|i: int|
            0 <= i < s.len() + 1 ==> (#[trigger] insert_by_score(s, e)[i]).0 >= e.0 || (s.len() > 0
                && insert_by_score(s, e)[i].0 >= s.last().0),
    decreases s.len(),
{
    if s.len() > 0 && s.last().0 < e.0 {
        let rest = s.drop_last();
        lemma_insert_falling(rest, e);
        let inner = insert_by_score(rest, e);
        if rest.len() > 0 {
            assert(rest.last() == s[s.len() - 2]);
        }
        assert forall|i: int, j: int| 0 <= i < j < s.len() + 1 implies (#[trigger] inner.push(s.last())[i]).0 >= (
        #[trigger] inner.push(s.last())[j]).0 by {}
    }
}

/// The list by falling score is sorted, and holds what the given list holds.
pub proof fn law_by_score_sorts(s: Seq<ScoreLevel>)
    ensures
        falling(by_score(s)),
        by_score(s).to_multiset() == s.to_multiset(),
        by_score(s).len() == s.len(),
    decreases s.len(),
{
    broadcast use vstd::seq_lib::group_to_multiset_ensures;

    if s.len() > 0 {
        law_by_score_sorts(s.drop_last());
        lemma_insert_falling(by_score(s.drop_last()), s.last());
        lemma_insert_multiset(by_score(s.drop_last()), s.last());
        assert(s.drop_last().push(s.last()) =~= s);
    }
}

proof fn lemma_insert_multiset(s: Seq<ScoreLevel>, e: ScoreLevel)
    ensures
        insert_by_score(s, e).to_multiset() == s.to_multiset().insert(e),
    decreases s.len(),
{
    broadcast use vstd::seq_lib::group_to_multiset_ensures;

    if s.len() > 0 && s.last().0 < e.0 {
        let rest = s.drop_last();
        lemma_insert_multiset(rest, e);
        assert(rest.push(s.last()) =~= s);
        assert(insert_by_score(s, e).to_multiset() =~= s.to_multiset().insert(e));
    }
}

/// Entries with the same score keep their order.
pub proof fn law_by_score_stable(s: Seq<ScoreLevel>, score: u64)
    ensures
        by_score(s).filter(|e: ScoreLevel| e.0 == score) == s.filter(|e: ScoreLevel| e.0 == score),
    decreases s.len(),
{
    reveal(Seq::filter);
    if s.len() > 0 {
        law_by_score_stable(s.drop_last(), score);
        lemma_insert_filter(by_score(s.drop_last()), s.last(), score);
    }
}

proof fn lemma_insert_filter(s: Seq<ScoreLevel>, e: ScoreLevel, score: u64)
    ensures
        insert_by_score(s, e).filter(|x: ScoreLevel| x.0 == score) == if e.0 == score {
            s.filter(|x: ScoreLevel| x.0 == score).push(e)
        } else {
            s.filter(|x: ScoreLevel| x.0 == score)
        },
    decreases s.len(),
{
    reveal(Seq::filter);
    let p = |x: ScoreLevel| x.0 == score;
    if s.len() == 0 || s.last().0 >= e.0 {
        assert(s.push(e).drop_last() =~= s);
    } else {
        lemma_insert_filter(s.drop_last(), e, score);
        let inner = insert_by_score(s.drop_last(), e);
        assert(inner.push(s.last()).drop_last() =~= inner);
    }
}

/// Where an entry goes in a list with falling scores.
proof fn lemma_insert_position(s: Seq<ScoreLevel>, e: ScoreLevel, p: int)
    requires
        0 <= p <= s.len(),
        p == 0 || s[p - 1].0 >= e.0,
        forall|j: int| p <= j < s.len() ==> (#[trigger] s[j]).0 < e.0,
    ensures
        insert_by_score(s, e) == s.insert(p, e),
    decreases s.len(),
{
    if p == s.len() {
        assert(s.insert(p, e) =~= s.push(e));
    } else {
        let rest = s.drop_last();
        assert forall|j: int| p <= j < rest.len() implies (#[trigger] rest[j]).0 < e.0 by {
            assert(rest[j] == s[j]);
        }
        lemma_insert_position(rest, e, p);
        assert(rest.insert(p, e).push(s.last()) =~= s.insert(p, e));
    }
}

/// Sorts by falling score, keeping the order of equal scores.
fn sort_by_score(entries: Vec<ScoreLevel>) -> (r: Vec<ScoreLevel>)
    ensures
        r@ == by_score(entries@),
{
    let mut r: Vec<ScoreLevel> = Vec::new();
    let mut i: usize = 0;
    while i < entries.len()
        invariant
            i <= entries@.len(),
            r@ == by_score(entries@.subrange(0, i as int)),
        decreases entries@.len() - i,
    {
        let e: ScoreLevel = entries[i];
        let ghost prefix = entries@.subrange(0, i as int);
        proof {
            assert(entries@.subrange(0, i + 1).drop_last() =~= prefix);
        }
        let mut p: usize = r.len();
        while p > 0 && r[p - 1].0 < e.0
            invariant
                p <= r@.len(),
                forall|j: int| p <= j < r@.len() ==> (#[trigger] r@[j]).0 < e.0,
            decreases p,
        {
            p = p - 1;
        }
        proof {
            lemma_insert_position(r@, e, p as int);
        }
        r.insert(p, e);
        i = i + 1;
    }
    proof {
        assert(entries@.subrange(0, i as int) =~= entries@);
    }
    r
}

/// The larger of two numbers.
fn larger(a: u64, b: u64) -> (r: u64)
    ensures
        r == if a >= b {
            a
        } else {
            b
        },
{
    if a >= b {
        a
    } else {
        b
    }
}

/// A selector whose levels grow by a constant factor from a base level on that
/// moves with the amount of data.
pub struct DynamicLevelSelector<S> {
    pub config: Arc<CompactionConfig>,
    pub overlap_strategy: S,
}

impl Default for DynamicLevelSelector<RangeOverlapStrategy> {
    fn default() -> (r: Self)
        ensures
            call_ensures(CompactionConfig::default, (), *r.config),
    {
        DynamicLevelSelector { config: Arc::new(CompactionConfig::default()), overlap_strategy: RangeOverlapStrategy {  } }
    }
}

impl<S: OverlapStrategy + Copy> DynamicLevelSelector<S> {
    /// The parameters of the selector.
    pub open spec fn params(&self) -> CompactionConfig {
        *self.config
    }

    /// A selector with the given parameters.
    pub fn new(config: Arc<CompactionConfig>, overlap_strategy: S) -> (r: Self)
        ensures
            r.config == config,
            r.overlap_strategy == overlap_strategy,
    {
        DynamicLevelSelector { config, overlap_strategy }
    }

    /// The base level of the version, and how much each level should hold at most.
    pub fn calculate_level_base_size(&self, levels: &Levels) -> (r: SelectContext)
        requires
            sizes_defined(*self.config, levels@.levels),
        ensures
            r.base_level == base_level_of(*self.config, levels@.levels),
            r.level_max_bytes@ == level_limits(*self.config, levels@.levels),
            r.score_levels@.len() == 0,
    {
        let ghost config = self.params();
        let ghost lv = levels@.levels;
        let max_level: usize = self.config.max_level as usize;
        let multiplier: u64 = self.config.max_bytes_for_level_multiplier;
        let mut first_non_empty_level: usize = 0;
        let mut max_size: u64 = 0;
        let mut i: usize = 0;
        while i < levels.levels.len()
            invariant
                i <= levels.levels@.len(),
                lv == levels@.levels,
                first_non_empty_level == 0 ==> first_non_empty(lv, 0) == first_non_empty(lv, i as int),
                first_non_empty_level != 0 ==> first_non_empty(lv, 0) == first_non_empty_level,
                max_size == max_level_size(lv.subrange(0, i as int)),
            decreases levels.levels@.len() - i,
        {
            let level = &levels.levels[i];
            proof {
                assert(lv[i as int] == level@);
                assert(lv.subrange(0, i + 1).drop_last() =~= lv.subrange(0, i as int));
            }
            if level.total_file_size > 0 && first_non_empty_level == 0 {
                first_non_empty_level = level.level_idx as usize;
            }
            max_size = larger(max_size, level.total_file_size);
            i = i + 1;
        }
        proof {
            assert(lv.subrange(0, i as int) =~= lv);
        }
        let mut level_max_bytes: Vec<u64> = Vec::new();
        level_max_bytes.resize(max_level + 1, u64::MAX);
        if max_size == 0 {
            // Use the bottommost level.
            proof {
                assert(level_max_bytes@ =~= level_limits(config, lv));
            }
            return SelectContext { level_max_bytes, base_level: max_level, score_levels: Vec::new() };
        }
        let base_bytes_max: u64 = self.config.max_bytes_for_level_base;
        let base_bytes_min: u64 = base_bytes_max / multiplier;
        let mut cur_level_size: u64 = max_size;
        let mut step: usize = first_non_empty_level;
        while step < max_level
            invariant
                first_non_empty_level <= step,
                step <= max_level || step == first_non_empty_level,
                multiplier > 0,
                cur_level_size == shrunk(
                    max_size as nat,
                    multiplier as nat,
                    (step - first_non_empty_level) as nat,
                ),
            decreases max_level - step,
        {
            cur_level_size = cur_level_size / multiplier;
            step = step + 1;
        }
        proof {
            assert(cur_level_size == ideal_size(config, lv));
        }
        let mut base_level: usize = first_non_empty_level;
        let base_level_size: u64 = if cur_level_size <= base_bytes_min {
            // If we make target size of last level to be max_level_size, target size of the first
            // non-empty level would be smaller than base_bytes_min. We set it be base_bytes_min.
            base_bytes_min + 1
        } else {
            while base_level > 1 && cur_level_size > base_bytes_max
                invariant
                    multiplier > 0,
                    climb(
                        first_non_empty_level as int,
                        ideal_size(config, lv),
                        base_bytes_max as nat,
                        multiplier as nat,
                    ) == climb(
                        base_level as int,
                        cur_level_size as nat,
                        base_bytes_max as nat,
                        multiplier as nat,
                    ),
                decreases base_level,
            {
                base_level = base_level - 1;
                cur_level_size = cur_level_size / multiplier;
            }
            if base_bytes_max <= cur_level_size {
                base_bytes_max
            } else {
                cur_level_size
            }
        };
        let mut level_size: u64 = base_level_size;
        let ghost before = level_max_bytes@;
        let mut k: usize = base_level;
        while k <= max_level
            invariant
                base_level <= k,
                max_level < usize::MAX,
                k <= max_level + 1 || k == base_level,
                before.len() == max_level + 1,
                level_max_bytes@.len() == max_level + 1,
                forall|j: int| 0 <= j < before.len() ==> #[trigger] before[j] == u64::MAX,
                level_size == scaled_size(base_level_size, multiplier, (k - base_level) as nat),
                forall|j: int|
                    0 <= j <= max_level ==> #[trigger] level_max_bytes@[j] == if j < base_level || j >= k {
                        u64::MAX
                    } else if scaled_size(base_level_size, multiplier, (j - base_level) as nat) >= base_bytes_max {
                        scaled_size(base_level_size, multiplier, (j - base_level) as nat)
                    } else {
                        base_bytes_max
                    },
            decreases max_level + 1 - k,
        {
            // Don't set any level below base_bytes_max. Otherwise, the LSM can
            // assume an hourglass shape where L1+ sizes are smaller than L0. This
            // causes compaction scoring, which depends on level sizes, to favor L1+
            // at the expense of L0, which may fill up and stall.
            level_max_bytes.set(k, larger(level_size, base_bytes_max));
            level_size = scale_level_size(level_size, multiplier);
            k = k + 1;
        }
        proof {
            assert(level_max_bytes@ =~= level_limits(config, lv));
        }
        SelectContext { level_max_bytes, base_level, score_levels: Vec::new() }
    }

    /// All levels that can be compacted, the most urgent one first.
    pub fn get_priority_levels(&self, levels: &Levels, handlers: &Vec<LevelHandler>) -> (r: SelectContext)
        requires
            scores_defined(*self.config, levels@, handler_views(handlers@)),
        ensures
            r.base_level == base_level_of(*self.config, levels@.levels),
            r.level_max_bytes@ == level_limits(*self.config, levels@.levels),
            r.score_levels@ == priorities(*self.config, levels@, handler_views(handlers@)),
    {
        let ghost config = self.params();
        let ghost lv = levels@;
        let ghost hv = handler_views(handlers@);
        let mut ctx = self.calculate_level_base_size(levels);
        let number: u64 = self.config.level0_tier_compact_file_number;
        proof {
            assert(hv[0] == handlers@[0]@);
            assert(lv.sub_levels.subrange(0, lv.sub_levels.len() as int) =~= lv.sub_levels);
        }
        let file_count: usize = count_tables(&levels.l0.sub_levels, 0, levels.l0.sub_levels.len());
        let idle_file_count: usize = file_count - handlers[0].get_pending_file_count();
        let max_l0_score: u64 = larger(SCORE_BASE * 2, levels.l0.sub_levels.len() as u64 * SCORE_BASE / number);
        let total_size: u64 = levels.l0.total_file_size - handlers[0].get_pending_file_size();
        let mut scores: Vec<ScoreLevel> = Vec::new();
        if idle_file_count > 0 {
            // trigger intra-l0 compaction at first when the number of files is too large.
            let l0_score: u64 = idle_file_count as u64 * SCORE_BASE / number;
            let capped: u64 = if l0_score <= max_l0_score {
                l0_score
            } else {
                max_l0_score
            };
            scores.push((capped, 0, 0));
            let score: u64 = total_size * SCORE_BASE / self.config.max_bytes_for_level_base;
            scores.push((score, 0, ctx.base_level));
        }
        let ghost head = l0_scores(config, lv, hv);
        proof {
            assert(scores@ =~= head);
        }
        // The bottommost level can not be input level.
        let mut i: usize = 0;
        proof {
            assert(scores@ =~= head + level_scores(config, lv.levels, hv, 0));
        }
        while i < levels.levels.len()
            invariant
                i <= levels.levels@.len(),
                config == self.params(),
                lv == levels@,
                hv == handler_views(handlers@),
                scores_defined(config, lv, hv),
                ctx.base_level == base_level_of(config, lv.levels),
                ctx.level_max_bytes@ == level_limits(config, lv.levels),
                scores@ == head + level_scores(config, lv.levels, hv, i as int),
            decreases levels.levels@.len() - i,
        {
            let level = &levels.levels[i];
            let level_idx: usize = level.level_idx as usize;
            proof {
                assert(lv.levels[i as int] == level@);
            }
            let ghost scored_i = scored(config, lv.levels, i as int);
            if level_idx >= ctx.base_level && (level_idx as u64) < self.config.max_level {
                let upper: usize = if level_idx == ctx.base_level {
                    0
                } else {
                    level_idx - 1
                };
                proof {
                    assert(hv[upper as int] == handlers@[upper as int]@);
                    assert(hv[level_idx as int] == handlers@[level_idx as int]@);
                }
                let size: u64 = level.total_file_size + handlers[upper].get_pending_output_file_size(
                    level.level_idx,
                ) - handlers[level_idx].get_pending_output_file_size(level.level_idx + 1);
                if size != 0 {
                    let limit: u64 = ctx.level_max_bytes[level_idx];
                    proof {
                        assert(limit > 0);
                    }
                    scores.push((size * SCORE_BASE / limit, level_idx, level_idx + 1));
                }
            }
            i = i + 1;
            proof {
                assert(scores@ =~= head + level_scores(config, lv.levels, hv, i as int));
            }
        }
        // sort reverse to pick the largest one.
        ctx.score_levels = sort_by_score(scores);
        ctx
    }
}

/// The order of byte strings as a relation that is reflexive.
pub open spec fn bytes_le() -> spec_fn(Seq<u8>, Seq<u8>) -> bool {
    |a: Seq<u8>, b: Seq<u8>| !bytes_lt(b, a)
}

proof fn lemma_bytes_le_total()
    ensures
        total_ordering(bytes_le()),
{
    let leq = bytes_le();
    assert forall|a: Seq<u8>| #[trigger] leq(a, a) by {
        lemma_bytes_lt_irreflexive(a, 0);
    }
    assert forall|a: Seq<u8>, b: Seq<u8>| #[trigger] leq(a, b) && #[trigger] leq(b, a) implies a == b by {
        lemma_bytes_trichotomy(a, b);
    }
    assert forall|a: Seq<u8>, b: Seq<u8>, c: Seq<u8>| #[trigger] leq(a, b) && #[trigger] leq(b, c) implies leq(
        a,
        c,
    ) by {
        lemma_bytes_trichotomy(a, b);
        lemma_bytes_trichotomy(b, c);
        if bytes_lt(c, a) {
            if a != b {
                lemma_bytes_lt_transitive(c, a, b);
            }
        }
    }
    assert forall|a: Seq<u8>, b: Seq<u8>| #[trigger] leq(a, b) || #[trigger] leq(b, a) by {
        lemma_bytes_trichotomy(a, b);
        if bytes_lt(a, b) && bytes_lt(b, a) {
            lemma_bytes_lt_transitive(a, b, a);
            lemma_bytes_lt_irreflexive(a, 0);
        }
    }
}

/// The values of a sequence of byte strings.
pub open spec fn key_views(keys: Seq<Vec<u8>>) -> Seq<Seq<u8>> {
    Seq::new(keys.len(), |i: int| keys[i]@)
}

/// Sorts byte strings.
fn sort_keys(keys: &Vec<Vec<u8>>) -> (r: Vec<Vec<u8>>)
    ensures
        key_views(r@) == key_views(keys@).sort_by(bytes_le()),
{
    let ghost leq = bytes_le();
    let ghost views = key_views(keys@);
    let mut r: Vec<Vec<u8>> = Vec::new();
    let mut i: usize = 0;
    proof {
        lemma_bytes_le_total();
        assert(key_views(r@) =~= views.subrange(0, 0));
    }
    while i < keys.len()
        invariant
            i <= keys@.len(),
            views == key_views(keys@),
            leq == bytes_le(),
            total_ordering(leq),
            sorted_by(key_views(r@), leq),
            key_views(r@).to_multiset() == views.subrange(0, i as int).to_multiset(),
        decreases keys@.len() - i,
    {
        let key: Vec<u8> = copy_bytes(keys[i].as_slice());
        let ghost kv = key@;
        let ghost before = key_views(r@);
        let mut p: usize = r.len();
        while p > 0 && bytes_less(key.as_slice(), r[p - 1].as_slice())
            invariant
                p <= r@.len(),
                kv == key@,
                before == key_views(r@),
                forall|j: int| p <= j < before.len() ==> bytes_lt(kv, #[trigger] before[j]),
            decreases p,
        {
            p = p - 1;
        }
        r.insert(p, key);
        proof {
            assert(key_views(r@) =~= before.insert(p as int, kv));
            broadcast use vstd::seq_lib::group_to_multiset_ensures;

            assert(views.subrange(0, i + 1) =~= views.subrange(0, i as int).push(kv));
            let after = before.insert(p as int, kv);
            assert forall|x: int, y: int| 0 <= x < y < after.len() implies #[trigger] leq(after[x], after[y]) by {
                if x < p && y == p {
                    assert(leq(before[p - 1], kv));
                    if x < p - 1 {
                        assert(leq(before[x], before[p - 1]));
                    }
                } else if x == p {
                    assert(after[y] == before[y - 1]);
                    if bytes_lt(after[y], kv) {
                        lemma_bytes_lt_transitive(kv, after[y], kv);
                        lemma_bytes_lt_irreflexive(kv, 0);
                    }
                } else {
                    let bx = if x < p {
                        x
                    } else {
                        x - 1
                    };
                    let by_ = if y < p {
                        y
                    } else {
                        y - 1
                    };
                    assert(leq(before[bx], before[by_]));
                }
            }
        }
        i = i + 1;
    }
    proof {
        assert(views.subrange(0, i as int) =~= views);
        views.lemma_sort_by_ensures(leq);
        lemma_sorted_unique(key_views(r@), views.sort_by(leq), leq);
    }
    r
}

/// The size of everything that a task reads.
pub open spec fn inputs_size(inputs: Seq<InputLevelView>) -> nat
    decreases inputs.len(),
{
    if inputs.len() == 0 {
        0
    } else {
        inputs_size(inputs.drop_last()) + total_size(inputs.last().tables)
    }
}

/// The user keys at which the tables start that a task reads.
pub open spec fn start_keys(inputs: Seq<InputLevelView>) -> Seq<Seq<u8>>
    decreases inputs.len(),
{
    if inputs.len() == 0 {
        Seq::empty()
    } else {
        start_keys(inputs.drop_last()) + table_start_keys(inputs.last().tables)
    }
}

/// The user keys at which `tables` start.
pub open spec fn table_start_keys(tables: Seq<SstView>) -> Seq<Seq<u8>> {
    Seq::new(tables.len(), |j: int| user_key_of(tables[j].key_range.left))
}

/// Every table starts at a full key.
pub open spec fn starts_defined(tables: Seq<SstView>) -> bool {
    forall|j: int| 0 <= j < tables.len() ==> is_full_key((#[trigger] tables[j]).key_range.left)
}

/// The file size that a task aims at.
pub open spec fn target_file_size_of(config: CompactionConfig, target_level: int, base_level: int) -> u64 {
    if target_level == 0 {
        config.target_file_size_base
    } else {
        config.target_file_size_base << ((target_level - base_level) as u64)
    }
}

/// Which compression algorithm a task uses.
pub open spec fn algorithm_index(target_level: int, base_level: int) -> int {
    if target_level == 0 {
        0
    } else {
        target_level - base_level + 1
    }
}

/// A task is large enough to be carried out in parts.
pub open spec fn is_split(config: CompactionConfig, inputs: Seq<InputLevelView>) -> bool {
    &&& inputs_size(inputs) > config.sub_level_max_compaction_bytes || inputs_size(inputs)
        > config.max_bytes_for_level_base
    &&& start_keys(inputs).len() >= 2 * SPLIT_RANGE_STEP
}

/// How many tables start in each part.
pub open spec fn split_step(config: CompactionConfig, n: int) -> int {
    let concurrency = min_int(n / SPLIT_RANGE_STEP as int, config.max_sub_compaction as int);
    (n + concurrency - 1) / concurrency
}

/// The key ranges of the parts: they start at every `step`-th of the sorted
/// start keys, and together cover all keys.
pub open spec fn split_ranges(keys: Seq<Seq<u8>>, step: int) -> Seq<KeyRangeView> {
    Seq::new(
        ((keys.len() - 1) / step + 1) as nat,
        |j: int|
            KeyRangeView {
                left: if j == 0 {
                    Seq::empty()
                } else {
                    full_key_spec(keys[j * step], u64::MAX)
                },
                right: if (j + 1) * step >= keys.len() {
                    Seq::empty()
                } else {
                    full_key_spec(keys[(j + 1) * step], u64::MAX)
                },
                inf: false,
            },
    )
}

/// The parts in which a task is carried out; none if it is not split.
pub open spec fn splits_of(config: CompactionConfig, inputs: Seq<InputLevelView>) -> Seq<KeyRangeView> {
    if is_split(config, inputs) {
        split_ranges(
            start_keys(inputs).sort_by(bytes_le()),
            split_step(config, start_keys(inputs).len() as int),
        )
    } else {
        Seq::empty()
    }
}

/// The values of a sequence of key ranges.
pub open spec fn range_views(ranges: Seq<KeyRange>) -> Seq<KeyRangeView> {
    Seq::new(ranges.len(), |i: int| ranges[i]@)
}

/// The parts of a split follow each other without a gap: the first one is
/// unbounded below, the last one above, and each ends where the next starts.
pub proof fn law_splits_cover(keys: Seq<Seq<u8>>, step: int)
    requires
        keys.len() > 0,
        step > 0,
    ensures
        ({
            let ranges = split_ranges(keys, step);
            &&& ranges.len() > 0
            &&& ranges[0].left == Seq::<u8>::empty()
            &&& ranges.last().right == Seq::<u8>::empty()
            &&& forall|j: int|
                #![trigger ranges[j]]
                0 <= j < ranges.len() - 1 ==> ranges[j].right == ranges[j + 1].left
        }),
{
    let n = keys.len() as int;
    let ranges = split_ranges(keys, step);
    let m = (n - 1) / step;
    assert(m >= 0 && m * step <= n - 1 < (m + 1) * step) by (nonlinear_arith)
        requires
            m == (n - 1) / step,
            n >= 1,
            step > 0,
    ;
    assert forall|j: int| 0 <= j < ranges.len() - 1 implies #[trigger] ranges[j].right == ranges[j + 1].left by {
        assert((j + 1) * step <= m * step) by (nonlinear_arith)
            requires
                j + 1 <= m,
                step > 0,
        ;
    }
}

/// A task can be carried out: its target level has a file size and a
/// compression algorithm, and the tables that it reads start at full keys.
pub open spec fn task_defined(config: CompactionConfig, input: CompactionInputView, base_level: int) -> bool {
    &&& input.target_level > 0 ==> base_level <= input.target_level < base_level + 64
    &&& algorithm_index(input.target_level as int, base_level) < config.compression_algorithm@.len()
    &&& forall|i: int| 0 <= i < input.input_levels.len() ==> starts_defined((#[trigger] input.input_levels[i]).tables)
    &&& inputs_size(input.input_levels) <= u64::MAX
    &&& is_split(config, input.input_levels) ==> config.max_sub_compaction > 0
}

/// A task is what the parameters say about its input.
pub open spec fn is_task(config: CompactionConfig, task: CompactionTask, input: CompactionInputView, base_level: int) -> bool {
    &&& task.input@ == input
    &&& task.compression_algorithm@ == config.compression_algorithm@[algorithm_index(
        input.target_level as int,
        base_level,
    )]@
    &&& task.target_file_size == target_file_size_of(config, input.target_level as int, base_level)
    &&& range_views(task.splits@) == splits_of(config, input.input_levels)
}

proof fn lemma_inputs_size_prefix(inputs: Seq<InputLevelView>, n: int)
    requires
        0 <= n <= inputs.len(),
    ensures
        inputs_size(inputs.subrange(0, n)) <= inputs_size(inputs),
    decreases inputs.len(),
{
    if n < inputs.len() {
        lemma_inputs_size_prefix(inputs.drop_last(), n);
        assert(inputs.drop_last().subrange(0, n) =~= inputs.subrange(0, n));
    } else {
        assert(inputs.subrange(0, n) =~= inputs);
    }
}

/// The start keys of all tables that `inputs` hold, and the size of the tables.
fn collect_start_keys(inputs: &Vec<InputLevel>) -> (r: (Vec<Vec<u8>>, u64))
    requires
        forall|i: int| 0 <= i < inputs@.len() ==> starts_defined((#[trigger] inputs@[i])@.tables),
        inputs_size(input_level_views(inputs@)) <= u64::MAX,
    ensures
        key_views(r.0@) == start_keys(input_level_views(inputs@)),
        r.1 == inputs_size(input_level_views(inputs@)),
{
    let ghost views = input_level_views(inputs@);
    let mut keys: Vec<Vec<u8>> = Vec::new();
    let mut size: u64 = 0;
    let mut i: usize = 0;
    proof {
        assert(key_views(keys@) =~= start_keys(views.subrange(0, 0)));
    }
    while i < inputs.len()
        invariant
            i <= inputs@.len(),
            views == input_level_views(inputs@),
            inputs_size(views) <= u64::MAX,
            forall|k: int| 0 <= k < inputs@.len() ==> starts_defined((#[trigger] inputs@[k])@.tables),
            key_views(keys@) == start_keys(views.subrange(0, i as int)),
            size == inputs_size(views.subrange(0, i as int)),
        decreases inputs@.len() - i,
    {
        let tables = &inputs[i].table_infos;
        let ghost tv = inputs@[i as int]@.tables;
        let ghost (keys0, size0) = (key_views(keys@), size as nat);
        proof {
            assert(views.subrange(0, i + 1).drop_last() =~= views.subrange(0, i as int));
            assert(views.subrange(0, i + 1).last() == inputs@[i as int]@);
            lemma_inputs_size_prefix(views, i + 1);
            assert(starts_defined(tv));
        }
        let mut j: usize = 0;
        proof {
            assert(key_views(keys@) =~= keys0 + table_start_keys(tv.subrange(0, 0)));
        }
        while j < tables.len()
            invariant
                j <= tables@.len(),
                tv == sst_views(tables@),
                starts_defined(tv),
                size0 + total_size(tv) <= u64::MAX,
                key_views(keys@) == keys0 + table_start_keys(tv.subrange(0, j as int)),
                size == size0 + total_size(tv.subrange(0, j as int)),
            decreases tables@.len() - j,
        {
            let table = &tables[j];
            proof {
                assert(tv[j as int] == table@);
                assert(tv.subrange(0, j + 1) =~= tv.subrange(0, j as int).push(tv[j as int]));
                lemma_total_size_push(tv.subrange(0, j as int), tv[j as int]);
                crate::hummock::version::lemma_total_size_prefix(tv, j + 1);
            }
            let ghost before = keys@;
            keys.push(user_key(table.key_range.left.as_slice()));
            size = size + table.file_size;
            proof {
                assert(key_views(keys@) =~= key_views(before).push(user_key_of(table@.key_range.left)));
                assert(table_start_keys(tv.subrange(0, j + 1)) =~= table_start_keys(tv.subrange(0, j as int)).push(
                    user_key_of(table@.key_range.left),
                ));
                assert(key_views(keys@) =~= keys0 + table_start_keys(tv.subrange(0, j + 1)));
            }
            j = j + 1;
        }
        proof {
            assert(tv.subrange(0, j as int) =~= tv);
        }
        i = i + 1;
    }
    proof {
        assert(views.subrange(0, i as int) =~= views);
    }
    (keys, size)
}

/// The key ranges that start at every `step`-th of `keys`.
fn make_splits(keys: &Vec<Vec<u8>>, step: usize) -> (r: Vec<KeyRange>)
    requires
        keys@.len() > 0,
        step > 0,
    ensures
        range_views(r@) == split_ranges(key_views(keys@), step as int),
{
    let ghost kv = key_views(keys@);
    let ghost want = split_ranges(kv, step as int);
    let ghost s = step as int;
    let n: usize = keys.len();
    let mut r: Vec<KeyRange> = Vec::new();
    let mut left: Vec<u8> = Vec::new();
    let mut boundary: usize = 0;
    let ghost mut j: int = 0;
    let ghost m = (n - 1) / s;
    proof {
        assert(m * s <= n - 1 < (m + 1) * s) by (nonlinear_arith)
            requires
                m == (n - 1) / s,
                n >= 1,
                s > 0,
        ;
        assert(0 * s == 0);
    }
    while n - boundary > step
        invariant
            n == keys@.len(),
            kv == key_views(keys@),
            want == split_ranges(kv, s),
            s == step,
            step > 0,
            0 <= j <= m,
            m == (n - 1) / s,
            m * s <= n - 1 < (m + 1) * s,
            boundary == j * s,
            boundary < n,
            r@.len() == j,
            left@ == want[j].left,
            forall|k: int| 0 <= k < j ==> (#[trigger] r@[k])@ == want[k],
        decreases n - boundary,
    {
        boundary = boundary + step;
        let key: Vec<u8> = full_key(keys[boundary].as_slice(), u64::MAX);
        proof {
            assert((j + 1) * s == j * s + s) by (nonlinear_arith);
            assert(j + 1 <= m) by (nonlinear_arith)
                requires
                    (j + 1) * s <= n - 1,
                    n - 1 < (m + 1) * s,
                    s > 0,
            ;
        }
        r.push(KeyRange::new(left, copy_bytes(key.as_slice())));
        proof {
            assert(r@[j]@ == want[j]);
            j = j + 1;
        }
        left = key;
    }
    proof {
        assert((j + 1) * s == j * s + s) by (nonlinear_arith);
        assert(j == m) by (nonlinear_arith)
            requires
                j <= m,
                (j + 1) * s >= n,
                m * s <= n - 1,
                s > 0,
        ;
    }
    r.push(KeyRange::new(left, Vec::new()));
    proof {
        assert(r@[j]@ =~= want[j]);
        assert(range_views(r@) =~= want);
    }
    r
}

impl<S: OverlapStrategy + Copy> DynamicLevelSelector<S> {
    /// The task that carries out `input`.
    pub fn generate_task_by_compaction_config(&self, input: CompactionInput, base_level: usize) -> (r: CompactionTask)
        requires
            task_defined(*self.config, input@, base_level as int),
        ensures
            is_task(*self.config, r, input@, base_level as int),
    {
        let target_file_size: u64 = if input.target_level == 0 {
            self.config.target_file_size_base
        } else {
            self.config.target_file_size_base << ((input.target_level - base_level) as u64)
        };
        let algorithm: usize = if input.target_level == 0 {
            0
        } else {
            input.target_level - base_level + 1
        };
        let compression_algorithm: String = self.config.compression_algorithm[algorithm].clone();
        proof {
            assert forall|i: int| 0 <= i < input.input_levels@.len() implies starts_defined(
                (#[trigger] input.input_levels@[i])@.tables,
            ) by {
                assert(input@.input_levels[i] == input.input_levels@[i]@);
            }
        }
        let (keys, total_file_size) = collect_start_keys(&input.input_levels);
        let ghost inputs = input@.input_levels;
        let mut splits: Vec<KeyRange> = Vec::new();
        proof {
            assert(keys@.len() == key_views(keys@).len());
            assert(range_views(splits@) =~= Seq::<KeyRangeView>::empty());
        }
        if (total_file_size > self.config.sub_level_max_compaction_bytes || total_file_size
            > self.config.max_bytes_for_level_base) && keys.len() >= SPLIT_RANGE_STEP * 2 {
            let sorted = sort_keys(&keys);
            proof {
                let before = key_views(keys@);
                lemma_bytes_le_total();
                before.lemma_sort_by_ensures(bytes_le());
                broadcast use vstd::seq_lib::group_to_multiset_ensures;

                assert(before.to_multiset().len() == key_views(sorted@).to_multiset().len());
                assert(sorted@.len() == key_views(sorted@).len());
            }
            let parts: usize = keys.len() / SPLIT_RANGE_STEP;
            let concurrency: usize = if (parts as u64) <= self.config.max_sub_compaction as u64 {
                parts
            } else {
                self.config.max_sub_compaction as usize
            };
            let step: usize = (keys.len() - 1) / concurrency + 1;
            proof {
                let n = keys@.len() as int;
                let c = concurrency as int;
                assert((n + c - 1) / c == (n - 1) / c + 1) by (nonlinear_arith)
                    requires
                        c > 0,
                ;
            }
            splits = make_splits(&sorted, step);
        }
        CompactionTask { input, compression_algorithm, target_file_size, splits }
    }
}

/// The size of all tables of the levels.
pub open spec fn stored_size(levels: Seq<LevelView>) -> nat
    decreases levels.len(),
{
    if levels.len() == 0 {
        0
    } else {
        stored_size(levels.drop_last()) + total_size(levels.last().tables)
    }
}

/// Every table of every level starts at a full key.
pub open spec fn all_starts_defined(levels: Seq<LevelView>) -> bool {
    forall|i: int| 0 <= i < levels.len() ==> starts_defined((#[trigger] levels[i]).tables)
}

/// A version that the selector can work on: it has the levels that the
/// parameters speak of, and the numbers computed of it fit the machine's.
pub open spec fn selectable(config: CompactionConfig, levels: LevelsView, handlers: Seq<HandlerView>) -> bool {
    let base = base_level_of(config, levels.levels);
    &&& scores_defined(config, levels, handlers)
    &&& version_wf(levels)
    &&& 0 < config.max_level <= u32::MAX
    &&& levels.levels.len() == config.max_level
    &&& handlers.len() > config.max_level
    &&& forall|i: int| 0 <= i < levels.levels.len() ==> (#[trigger] levels.levels[i]).level_idx == i + 1
    &&& all_starts_defined(levels.sub_levels)
    &&& all_starts_defined(levels.levels)
    &&& stored_size(levels.sub_levels) + stored_size(levels.levels) <= u64::MAX
    &&& config.max_level - base < 64
    &&& config.max_level - base + 1 < config.compression_algorithm@.len()
}

/// Decides which level is compacted next.
pub trait LevelSelector {
    /// What the selector asks of the version and of the handlers.
    spec fn select_requires(&self, task_id: u64, levels: LevelsView, handlers: Seq<HandlerView>) -> bool;

    /// What the selector asks of the version and of the handlers to rate the levels.
    spec fn rate_requires(&self, levels: LevelsView, handlers: Seq<HandlerView>) -> bool;

    /// What the selector asks of the version to find the base level.
    spec fn base_requires(&self, levels: LevelsView) -> bool;

    /// Some level holds more than it should.
    spec fn urgent(&self, levels: LevelsView, handlers: Seq<HandlerView>) -> bool;

    /// The input of the next task, with the handlers after it has been marked.
    spec fn selected(&self, task_id: u64, levels: LevelsView, handlers: Seq<HandlerView>) -> Option<
        (CompactionInputView, Seq<HandlerView>),
    >;

    /// `task` carries out `input` on the version `levels`.
    spec fn carries_out(&self, levels: LevelsView, task: CompactionTask, input: CompactionInputView) -> bool;

    /// `input` can be carried out on the version `levels`.
    spec fn can_carry_out(&self, levels: LevelsView, input: CompactionInputView) -> bool;

    /// The level into which a manual compaction of `level` writes.
    spec fn manual_target(&self, levels: LevelsView, level: int) -> int;

    /// Whether some level holds more than it should.
    fn need_compaction(&self, levels: &Levels, level_handlers: &Vec<LevelHandler>) -> (r: bool)
        requires
            self.rate_requires(levels@, handler_views(level_handlers@)),
        ensures
            r == self.urgent(levels@, handler_views(level_handlers@)),
    ;

    /// The next task. Without one the handlers stay as they were.
    fn pick_compaction(&self, task_id: u64, levels: &Levels, level_handlers: &mut Vec<LevelHandler>) -> (r: Option<
        CompactionTask,
    >)
        requires
            self.select_requires(task_id, levels@, handler_views(old(level_handlers)@)),
        ensures
            match (r, self.selected(task_id, levels@, handler_views(old(level_handlers)@))) {
                (None, None) => handler_views(final(level_handlers)@) == handler_views(
                    old(level_handlers)@,
                ),
                (Some(task), Some((input, marked))) => self.carries_out(levels@, task, input)
                    && handler_views(final(level_handlers)@) == marked,
                _ => false,
            },
    ;

    /// The level into which a manual compaction of `level` writes.
    fn manual_target_level(&self, levels: &Levels, level: usize) -> (r: usize)
        requires
            self.base_requires(levels@),
            level < usize::MAX,
        ensures
            r == self.manual_target(levels@, level as int),
    ;

    /// The task that carries out what a manual picker picked.
    fn manual_pick_compaction(&self, levels: &Levels, picked: Option<CompactionInput>) -> (r: Option<CompactionTask>)
        requires
            self.base_requires(levels@),
            picked matches Some(input) ==> self.can_carry_out(levels@, input@),
        ensures
            match (r, picked) {
                (None, None) => true,
                (Some(task), Some(input)) => self.carries_out(levels@, task, input@),
                _ => false,
            },
    ;

    /// The name of the selector.
    fn name(&self) -> (r: &'static str);
}

impl<S: OverlapStrategy + Copy> DynamicLevelSelector<S> {
    /// The picker for compactions within level 0.
    pub open spec fn tier_picker(&self, task_id: u64) -> TierCompactionPicker<S> {
        TierCompactionPicker {
            compact_task_id: task_id,
            config: self.config,
            overlap_strategy: self.overlap_strategy,
        }
    }

    /// The picker for compactions from level 0 to `target_level`.
    pub open spec fn level_picker(&self, task_id: u64, target_level: usize) -> LevelCompactionPicker<S> {
        LevelCompactionPicker {
            compact_task_id: task_id,
            target_level,
            overlap_strategy: self.overlap_strategy,
            config: self.config,
        }
    }

    /// The picker for compactions from `level` to the next one.
    pub open spec fn lower_picker(&self, task_id: u64, level: usize) -> MinOverlappingPicker<S> {
        MinOverlappingPicker {
            compact_task_id: task_id,
            level,
            target_level: (level + 1) as usize,
            overlap_strategy: self.overlap_strategy,
        }
    }

    /// What is picked for one entry of the priorities.
    pub open spec fn picked_for(&self, task_id: u64, entry: ScoreLevel, levels: LevelsView, handlers: Seq<HandlerView>) -> Option<
        (CompactionInputView, Seq<HandlerView>),
    > {
        if entry.1 == 0 && entry.2 == 0 {
            self.tier_picker(task_id).picked(levels, handlers)
        } else if entry.1 == 0 {
            self.level_picker(task_id, entry.2).picked(levels, handlers)
        } else {
            self.lower_picker(task_id, entry.1).picked(levels, handlers)
        }
    }

    /// What is picked for the entries from `k` on: the first entry for which
    /// there is a task, as long as the scores are above the limit.
    pub open spec fn selected_from(
        &self,
        task_id: u64,
        entries: Seq<ScoreLevel>,
        levels: LevelsView,
        handlers: Seq<HandlerView>,
        k: int,
    ) -> Option<(CompactionInputView, Seq<HandlerView>)>
        decreases entries.len() - k,
    {
        if k >= entries.len() || entries[k].0 <= SCORE_BASE {
            None
        } else {
            match self.picked_for(task_id, entries[k], levels, handlers) {
                Some(picked) => Some(picked),
                None => self.selected_from(task_id, entries, levels, handlers, k + 1),
            }
        }
    }

    /// Picks a task from `select_level` to `target_level`.
    fn pick_for_level(&self, task_id: u64, select_level: usize, target_level: usize, levels: &Levels, level_handlers: &mut Vec<LevelHandler>) -> (r: Option<
        CompactionInput,
    >)
        requires
            selectable(*self.config, levels@, handler_views(old(level_handlers)@)),
            self.level_picker(task_id, base_level_of(*self.config, levels@.levels) as usize).amplification_defined(
                levels@,
                handler_views(old(level_handlers)@),
            ),
            entry_valid(*self.config, levels@.levels, (0, select_level, target_level)),
        ensures
            crate::hummock::tier_compaction_picker::outcome_is(
                r,
                final(level_handlers)@,
                old(level_handlers)@,
                self.picked_for(task_id, (0, select_level, target_level), levels@, handler_views(old(level_handlers)@)),
            ),
    {
        proof {
            lemma_base_level_bounds(self.params(), levels@.levels);
        }
        if select_level == 0 {
            if target_level == 0 {
                let picker = TierCompactionPicker::new(task_id, self.config.clone(), self.overlap_strategy);
                picker.pick_compaction(levels, level_handlers)
            } else {
                let picker = LevelCompactionPicker::new(
                    task_id,
                    target_level,
                    self.config.clone(),
                    self.overlap_strategy,
                );
                picker.pick_compaction(levels, level_handlers)
            }
        } else {
            let picker = MinOverlappingPicker::new(
                task_id,
                select_level,
                select_level + 1,
                self.overlap_strategy,
            );
            picker.pick_compaction(levels, level_handlers)
        }
    }
}

/// The entry names levels between which a compaction can run.
pub open spec fn entry_valid(config: CompactionConfig, levels: Seq<LevelView>, entry: ScoreLevel) -> bool {
    let base = base_level_of(config, levels);
    ||| entry.1 == 0 && entry.2 == 0
    ||| entry.1 == 0 && entry.2 == base
    ||| base <= entry.1 < config.max_level && entry.2 == entry.1 + 1
}

proof fn lemma_first_non_empty_bounds(levels: Seq<LevelView>, i: int)
    requires
        0 <= i <= levels.len(),
        forall|j: int| 0 <= j < levels.len() ==> (#[trigger] levels[j]).level_idx == j + 1,
    ensures
        0 <= first_non_empty(levels, i) <= levels.len(),
        first_non_empty(levels, i) == 0 ==> forall|j: int|
            i <= j < levels.len() ==> (#[trigger] levels[j]).total_file_size == 0,
    decreases levels.len() - i,
{
    if i < levels.len() && levels[i].total_file_size == 0 {
        lemma_first_non_empty_bounds(levels, i + 1);
    }
}

proof fn lemma_all_empty(levels: Seq<LevelView>)
    requires
        forall|j: int| 0 <= j < levels.len() ==> (#[trigger] levels[j]).total_file_size == 0,
    ensures
        max_level_size(levels) == 0,
    decreases levels.len(),
{
    if levels.len() > 0 {
        let rest = levels.drop_last();
        assert forall|j: int| 0 <= j < rest.len() implies (#[trigger] rest[j]).total_file_size == 0 by {
            assert(rest[j] == levels[j]);
        }
        lemma_all_empty(rest);
    }
}

proof fn lemma_climb_bounds(base: int, size: nat, limit: nat, m: nat)
    requires
        base >= 1,
        m > 0,
    ensures
        1 <= climb(base, size, limit, m).0 <= base,
    decreases base,
{
    if base > 1 && size > limit {
        assert(climb(base, size, limit, m) == climb(base - 1, size / m, limit, m));
        lemma_climb_bounds(base - 1, size / m, limit, m);
    }
}

/// The base level is one of the levels below level 0.
pub proof fn lemma_base_level_bounds(config: CompactionConfig, levels: Seq<LevelView>)
    requires
        0 < config.max_level,
        sizes_defined(config, levels),
        levels.len() == config.max_level,
        forall|j: int| 0 <= j < levels.len() ==> (#[trigger] levels[j]).level_idx == j + 1,
    ensures
        1 <= base_level_of(config, levels) <= config.max_level,
{
    if max_level_size(levels) != 0 {
        lemma_first_non_empty_bounds(levels, 0);
        if first_non_empty(levels, 0) == 0 {
            lemma_all_empty(levels);
        }
        lemma_climb_bounds(
            first_non_empty(levels, 0),
            ideal_size(config, levels),
            config.max_bytes_for_level_base as nat,
            config.max_bytes_for_level_multiplier as nat,
        );
    }
}

proof fn lemma_level_scores_valid(config: CompactionConfig, levels: Seq<LevelView>, handlers: Seq<HandlerView>, n: int)
    requires
        0 <= n <= levels.len(),
        config.max_level < usize::MAX,
    ensures
        forall|k: int|
            0 <= k < level_scores(config, levels, handlers, n).len() ==> entry_valid(
                config,
                levels,
                #[trigger] level_scores(config, levels, handlers, n)[k],
            ),
    decreases n,
{
    if n > 0 {
        lemma_level_scores_valid(config, levels, handlers, n - 1);
        let rest = level_scores(config, levels, handlers, n - 1);
        let all = level_scores(config, levels, handlers, n);
        assert forall|k: int| 0 <= k < all.len() implies entry_valid(config, levels, #[trigger] all[k]) by {
            if k < rest.len() {
                assert(all[k] == rest[k]);
            }
        }
    }
}

proof fn lemma_insert_valid(config: CompactionConfig, levels: Seq<LevelView>, s: Seq<ScoreLevel>, e: ScoreLevel)
    requires
        forall|k: int| 0 <= k < s.len() ==> entry_valid(config, levels, #[trigger] s[k]),
        entry_valid(config, levels, e),
    ensures
        forall|k: int|
            0 <= k < insert_by_score(s, e).len() ==> entry_valid(config, levels, #[trigger] insert_by_score(s, e)[k]),
    decreases s.len(),
{
    if s.len() > 0 && s.last().0 < e.0 {
        let rest = s.drop_last();
        assert forall|k: int| 0 <= k < rest.len() implies entry_valid(config, levels, #[trigger] rest[k]) by {
            assert(rest[k] == s[k]);
        }
        lemma_insert_valid(config, levels, rest, e);
        let inner = insert_by_score(rest, e);
        let all = insert_by_score(s, e);
        assert forall|k: int| 0 <= k < all.len() implies entry_valid(config, levels, #[trigger] all[k]) by {
            if k < inner.len() {
                assert(all[k] == inner[k]);
            }
        }
    }
}

proof fn lemma_by_score_valid(config: CompactionConfig, levels: Seq<LevelView>, s: Seq<ScoreLevel>)
    requires
        forall|k: int| 0 <= k < s.len() ==> entry_valid(config, levels, #[trigger] s[k]),
    ensures
        forall|k: int| 0 <= k < by_score(s).len() ==> entry_valid(config, levels, #[trigger] by_score(s)[k]),
    decreases s.len(),
{
    if s.len() > 0 {
        let rest = s.drop_last();
        assert forall|k: int| 0 <= k < rest.len() implies entry_valid(config, levels, #[trigger] rest[k]) by {
            assert(rest[k] == s[k]);
        }
        lemma_by_score_valid(config, levels, rest);
        lemma_insert_valid(config, levels, by_score(rest), s.last());
    }
}

/// Every entry of the priorities names levels between which a compaction can run.
pub proof fn lemma_priorities_valid(config: CompactionConfig, levels: LevelsView, handlers: Seq<HandlerView>)
    requires
        selectable(config, levels, handlers),
    ensures
        forall|k: int|
            0 <= k < priorities(config, levels, handlers).len() ==> entry_valid(
                config,
                levels.levels,
                #[trigger] priorities(config, levels, handlers)[k],
            ),
{
    let lv = levels.levels;
    lemma_base_level_bounds(config, lv);
    lemma_level_scores_valid(config, lv, handlers, lv.len() as int);
    let head = l0_scores(config, levels, handlers);
    let tail = level_scores(config, lv, handlers, lv.len() as int);
    let s = head + tail;
    assert forall|k: int| 0 <= k < s.len() implies entry_valid(config, lv, #[trigger] s[k]) by {
        if k < head.len() {
            assert(s[k] == head[k]);
        } else {
            assert(s[k] == tail[k - head.len()]);
        }
    }
    lemma_by_score_valid(config, lv, s);
}

proof fn lemma_stored_size_member(levels: Seq<LevelView>, i: int)
    requires
        0 <= i < levels.len(),
    ensures
        total_size(levels[i].tables) <= stored_size(levels),
    decreases levels.len(),
{
    if i < levels.len() - 1 {
        lemma_stored_size_member(levels.drop_last(), i);
    }
}

proof fn lemma_stored_size_two(levels: Seq<LevelView>, i: int, j: int)
    requires
        0 <= i < j < levels.len(),
    ensures
        total_size(levels[i].tables) + total_size(levels[j].tables) <= stored_size(levels),
    decreases levels.len(),
{
    if j < levels.len() - 1 {
        lemma_stored_size_two(levels.drop_last(), i, j);
    } else {
        lemma_stored_size_member(levels.drop_last(), i);
    }
}

proof fn lemma_stored_size_run(levels: Seq<LevelView>, from: int, to: int)
    requires
        0 <= from <= to <= levels.len(),
    ensures
        stored_size(levels.subrange(from, to)) <= stored_size(levels),
    decreases levels.len(), levels.len() - from,
{
    if to < levels.len() {
        lemma_stored_size_run(levels.drop_last(), from, to);
        assert(levels.drop_last().subrange(from, to) =~= levels.subrange(from, to));
    } else if from < to {
        lemma_stored_size_run(levels.drop_last(), from, to - 1);
        assert(levels.subrange(from, to).drop_last() =~= levels.drop_last().subrange(from, to - 1));
    } else {
        assert(levels.subrange(from, to) =~= Seq::<LevelView>::empty());
    }
}

/// Inputs with the tables of the levels `from..to` have their size.
proof fn lemma_inputs_size_run(inputs: Seq<InputLevelView>, levels: Seq<LevelView>, from: int)
    requires
        0 <= from,
        from + inputs.len() <= levels.len(),
        forall|i: int| 0 <= i < inputs.len() ==> (#[trigger] inputs[i]).tables == levels[from + i].tables,
    ensures
        inputs_size(inputs) == stored_size(levels.subrange(from, from + inputs.len())),
    decreases inputs.len(),
{
    let to = from + inputs.len();
    let run = levels.subrange(from, to);
    if inputs.len() > 0 {
        let rest = inputs.drop_last();
        assert forall|i: int| 0 <= i < rest.len() implies (#[trigger] rest[i]).tables == levels[from + i].tables by {
            assert(rest[i] == inputs[i]);
        }
        lemma_inputs_size_run(rest, levels, from);
        assert(run.drop_last() =~= levels.subrange(from, to - 1));
        assert(inputs.last().tables == levels[from + (inputs.len() - 1)].tables);
        assert(run.last() == levels[to - 1]);
    } else {
        assert(run =~= Seq::<LevelView>::empty());
    }
}

proof fn lemma_inputs_size_two(a: InputLevelView, b: InputLevelView)
    ensures
        inputs_size(seq![a, b]) == total_size(a.tables) + total_size(b.tables),
{
    let two = seq![a, b];
    assert(two.drop_last() =~= seq![a]);
    assert(seq![a].drop_last() =~= Seq::<InputLevelView>::empty());
    assert(inputs_size(seq![a].drop_last()) == 0);
    assert(inputs_size(seq![a]) == total_size(a.tables));
}

proof fn lemma_filter_starts(tables: Seq<SstView>, p: spec_fn(SstView) -> bool)
    requires
        starts_defined(tables),
    ensures
        starts_defined(tables.filter(p)),
    decreases tables.len(),
{
    reveal(Seq::filter);
    if tables.len() > 0 {
        let rest = tables.drop_last();
        assert forall|j: int| 0 <= j < rest.len() implies is_full_key((#[trigger] rest[j]).key_range.left) by {
            assert(rest[j] == tables[j]);
        }
        lemma_filter_starts(rest, p);
    }
}

/// What is picked for the least overlap starts at full keys if all tables do.
proof fn lemma_min_overlap_starts<S: OverlapStrategy>(
    s: S,
    tables: Seq<SstView>,
    targets: Seq<SstView>,
    handler: HandlerView,
    target_handler: HandlerView,
)
    requires
        starts_defined(tables),
        starts_defined(targets),
    ensures
        ({
            let (select, target) = min_overlap(s, tables, targets, handler, target_handler);
            starts_defined(select) && starts_defined(target)
        }),
{
    if exists|i: int| is_choice(s, tables, targets, handler, target_handler, i) {
        let i = choose|i: int| is_choice(s, tables, targets, handler, target_handler, i);
        lemma_filter_starts(targets, |t: SstView| s.overlaps(tables[i], t));
    }
}

impl<S: OverlapStrategy + Copy> DynamicLevelSelector<S> {
    /// What is picked for an entry of the priorities can be carried out.
    proof fn lemma_picked_defined(&self, task_id: u64, entry: ScoreLevel, levels: LevelsView, handlers: Seq<HandlerView>)
        requires
            selectable(*self.config, levels, handlers),
            entry_valid(*self.config, levels.levels, entry),
            self.picked_for(task_id, entry, levels, handlers) is Some,
            is_split(
                *self.config,
                self.picked_for(task_id, entry, levels, handlers).unwrap().0.input_levels,
            ) ==> self.config.max_sub_compaction > 0,
        ensures
            task_defined(
                *self.config,
                self.picked_for(task_id, entry, levels, handlers).unwrap().0,
                base_level_of(*self.config, levels.levels),
            ),
    {
        let config = *self.config;
        let base = base_level_of(config, levels.levels);
        let input = self.picked_for(task_id, entry, levels, handlers).unwrap().0;
        let subs = levels.sub_levels;
        let s = self.overlap_strategy;
        lemma_base_level_bounds(config, levels.levels);
        if entry.1 == 0 && entry.2 == 0 {
            self.lemma_tier_defined(task_id, levels, handlers);
        } else if entry.1 == 0 {
            let picker = self.level_picker(task_id, entry.2);
            let t = entry.2 as int;
            let lower = levels.levels[t - 1].tables;
            if input.input_levels.len() == 2 && input.input_levels[0].tables == subs[0].tables
                && input.input_levels[1].tables.len() == 0 {
                lemma_stored_size_member(subs, 0);
                lemma_inputs_size_two(input.input_levels[0], input.input_levels[1]);
                assert(input.input_levels =~= seq![input.input_levels[0], input.input_levels[1]]);
                assert(starts_defined(subs[0].tables));
                assert(total_size(input.input_levels[1].tables) == 0);
            } else if picker.least_amplification(levels, handlers)
                < crate::hummock::tier_compaction_picker::MAX_WRITE_AMPLIFICATION {
                lemma_min_overlap_sizes(s, subs[0].tables, lower, handlers[0], handlers[t]);
                lemma_min_overlap_starts(s, subs[0].tables, lower, handlers[0], handlers[t]);
                lemma_stored_size_member(subs, 0);
                lemma_stored_size_member(levels.levels, t - 1);
                lemma_inputs_size_two(input.input_levels[0], input.input_levels[1]);
                assert(input.input_levels =~= seq![input.input_levels[0], input.input_levels[1]]);
            } else {
                let inputs = whole_inputs(config, t as u32, levels, handlers);
                let end = whole_run(config, levels, handlers);
                lemma_run_end_bounds(subs, handlers[0], subs[0].total_file_size as int, config.max_compaction_bytes, 1);
                lemma_inputs_size_run(inputs.drop_last(), subs, 0);
                lemma_stored_size_run(subs, 0, end);
                lemma_stored_size_member(levels.levels, t - 1);
                assert(inputs.last().tables == lower);
                assert forall|i: int| 0 <= i < inputs.len() implies starts_defined((#[trigger] inputs[i]).tables) by {
                    if i < end {
                        assert(inputs[i].tables == subs[i].tables);
                    }
                }
            }
        } else {
            let l = entry.1 as int;
            let (upper, lower) = (levels.levels[l - 1].tables, levels.levels[l].tables);
            lemma_min_overlap_sizes(s, upper, lower, handlers[l], handlers[l + 1]);
            lemma_min_overlap_starts(s, upper, lower, handlers[l], handlers[l + 1]);
            lemma_stored_size_two(levels.levels, l - 1, l);
            lemma_inputs_size_two(input.input_levels[0], input.input_levels[1]);
            assert(input.input_levels =~= seq![input.input_levels[0], input.input_levels[1]]);
        }
    }

    proof fn lemma_tier_defined(&self, task_id: u64, levels: LevelsView, handlers: Seq<HandlerView>)
        requires
            selectable(*self.config, levels, handlers),
            self.tier_picker(task_id).picked(levels, handlers) is Some,
            is_split(
                *self.config,
                self.tier_picker(task_id).picked(levels, handlers).unwrap().0.input_levels,
            ) ==> self.config.max_sub_compaction > 0,
        ensures
            task_defined(
                *self.config,
                self.tier_picker(task_id).picked(levels, handlers).unwrap().0,
                base_level_of(*self.config, levels.levels),
            ),
    {
        let config = *self.config;
        let subs = levels.sub_levels;
        let s = self.overlap_strategy;
        let h = handlers[0];
        let n = subs.len() as int;
        let input = self.tier_picker(task_id).picked(levels, handlers).unwrap().0;
        lemma_base_level_bounds(config, levels.levels);
        let p_move = |i: int| crate::hummock::tier_compaction_picker::trivial_move_candidate(s, subs, h, i);
        let p_over = |i: int| crate::hummock::tier_compaction_picker::overlapping_candidate(config, subs, h, i);
        let p_shard = |i: int| crate::hummock::tier_compaction_picker::sharding_candidate(config, subs, h, i);
        lemma_first_from(p_move, 0, n);
        lemma_first_from(p_over, 0, n);
        lemma_first_from(p_shard, 0, n);
        if let Some(idx) = first_from(p_move, 0, n) {
            lemma_min_overlap_sizes(s, subs[idx + 1].tables, subs[idx].tables, h, h);
            lemma_min_overlap_starts(s, subs[idx + 1].tables, subs[idx].tables, h, h);
            lemma_stored_size_member(subs, idx + 1);
            lemma_inputs_size_two(input.input_levels[0], input.input_levels[1]);
            assert(input.input_levels =~= seq![input.input_levels[0], input.input_levels[1]]);
            assert(total_size(Seq::<SstView>::empty()) == 0);
        } else {
            let (idx, end) = match first_from(p_over, 0, n) {
                Some(idx) => (idx, crate::hummock::tier_compaction_picker::overlapping_run(config, subs, h, idx)),
                None => {
                    let idx = first_from(p_shard, 0, n).unwrap();
                    (idx, crate::hummock::tier_compaction_picker::sharding_run(config, subs, h, idx))
                },
            };
            let max = match first_from(p_over, 0, n) {
                Some(_) => min_u64(config.max_compaction_bytes, config.sub_level_max_compaction_bytes),
                None => min_u64(config.max_compaction_bytes, config.max_bytes_for_level_base),
            };
            lemma_run_end_bounds(subs, h, subs[idx].total_file_size as int, max, idx + 1);
            let inputs = sub_level_inputs(subs, idx, end);
            assert(input.input_levels == inputs);
            lemma_inputs_size_run(inputs, subs, idx);
            lemma_stored_size_run(subs, idx, end);
            assert forall|i: int| 0 <= i < inputs.len() implies starts_defined((#[trigger] inputs[i]).tables) by {
                assert(inputs[i].tables == subs[idx + i].tables);
            }
        }
    }
}

impl<S: OverlapStrategy + Copy> LevelSelector for DynamicLevelSelector<S> {
    open spec fn select_requires(&self, task_id: u64, levels: LevelsView, handlers: Seq<HandlerView>) -> bool {
        &&& selectable(*self.config, levels, handlers)
        &&& self.level_picker(task_id, base_level_of(*self.config, levels.levels) as usize).amplification_defined(
            levels,
            handlers,
        )
        &&& self.selected(task_id, levels, handlers) matches Some((input, _)) ==> is_split(
            *self.config,
            input.input_levels,
        ) ==> self.config.max_sub_compaction > 0
    }

    open spec fn rate_requires(&self, levels: LevelsView, handlers: Seq<HandlerView>) -> bool {
        scores_defined(*self.config, levels, handlers)
    }

    open spec fn base_requires(&self, levels: LevelsView) -> bool {
        sizes_defined(*self.config, levels.levels)
    }

    open spec fn urgent(&self, levels: LevelsView, handlers: Seq<HandlerView>) -> bool {
        let entries = priorities(*self.config, levels, handlers);
        entries.len() > 0 && entries[0].0 > SCORE_BASE
    }

    open spec fn selected(&self, task_id: u64, levels: LevelsView, handlers: Seq<HandlerView>) -> Option<
        (CompactionInputView, Seq<HandlerView>),
    > {
        self.selected_from(task_id, priorities(*self.config, levels, handlers), levels, handlers, 0)
    }

    open spec fn carries_out(&self, levels: LevelsView, task: CompactionTask, input: CompactionInputView) -> bool {
        is_task(*self.config, task, input, base_level_of(*self.config, levels.levels))
    }

    open spec fn can_carry_out(&self, levels: LevelsView, input: CompactionInputView) -> bool {
        task_defined(*self.config, input, base_level_of(*self.config, levels.levels))
    }

    open spec fn manual_target(&self, levels: LevelsView, level: int) -> int {
        if level == 0 {
            base_level_of(*self.config, levels.levels)
        } else if level == self.config.max_level {
            level
        } else {
            level + 1
        }
    }

    fn need_compaction(&self, levels: &Levels, level_handlers: &Vec<LevelHandler>) -> (r: bool) {
        let ctx = self.get_priority_levels(levels, level_handlers);
        ctx.score_levels.len() > 0 && ctx.score_levels[0].0 > SCORE_BASE
    }

    fn pick_compaction(&self, task_id: u64, levels: &Levels, level_handlers: &mut Vec<LevelHandler>) -> (r: Option<
        CompactionTask,
    >) {
        let ctx = self.get_priority_levels(levels, level_handlers);
        let ghost lv = levels@;
        let ghost hv = handler_views(level_handlers@);
        let ghost entries = ctx.score_levels@;
        proof {
            lemma_priorities_valid(self.params(), lv, hv);
        }
        let mut k: usize = 0;
        while k < ctx.score_levels.len()
            invariant
                k <= ctx.score_levels@.len(),
                entries == ctx.score_levels@,
                entries == priorities(*self.config, lv, hv),
                lv == levels@,
                hv == handler_views(old(level_handlers)@),
                handler_views(level_handlers@) == hv,
                self.select_requires(task_id, lv, hv),
                ctx.base_level == base_level_of(*self.config, lv.levels),
                forall|j: int| 0 <= j < entries.len() ==> entry_valid(*self.config, lv.levels, #[trigger] entries[j]),
                self.selected(task_id, lv, hv) == self.selected_from(task_id, entries, lv, hv, k as int),
            decreases ctx.score_levels@.len() - k,
        {
            let (score, select_level, target_level) = ctx.score_levels[k];
            proof {
                assert(entry_valid(*self.config, lv.levels, entries[k as int]));
            }
            if score <= SCORE_BASE {
                return None;
            }
            match self.pick_for_level(task_id, select_level, target_level, levels, level_handlers) {
                Some(input) => {
                    proof {
                        self.lemma_picked_defined(task_id, (0, select_level, target_level), lv, hv);
                    }
                    return Some(self.generate_task_by_compaction_config(input, ctx.base_level));
                },
                None => {},
            }
            k = k + 1;
        }
        None
    }

    fn manual_target_level(&self, levels: &Levels, level: usize) -> (r: usize) {
        if level == 0 {
            self.calculate_level_base_size(levels).base_level
        } else if level as u64 == self.config.max_level {
            level
        } else {
            level + 1
        }
    }

    fn manual_pick_compaction(&self, levels: &Levels, picked: Option<CompactionInput>) -> (r: Option<CompactionTask>) {
        match picked {
            None => None,
            Some(input) => {
                let base_level: usize = self.calculate_level_base_size(levels).base_level;
                Some(self.generate_task_by_compaction_config(input, base_level))
            },
        }
    }

    fn name(&self) -> (r: &'static str)
        ensures
            r@ == "DynamicLevelSelector"@,
    {
        "DynamicLevelSelector"
    }
}

proof fn lemma_level_scored(config: CompactionConfig, levels: Seq<LevelView>, handlers: Seq<HandlerView>, n: int, i: int)
    requires
        0 <= i < n <= levels.len(),
        scored(config, levels, i),
        settled_size(config, levels, handlers, i) != 0,
    ensures
        level_scores(config, levels, handlers, n).contains(
            (
                (settled_size(config, levels, handlers, i) * SCORE_BASE / level_limits(
                    config,
                    levels,
                )[levels[i].level_idx as int] as int) as u64,
                levels[i].level_idx as usize,
                (levels[i].level_idx + 1) as usize,
            ),
        ),
    decreases n,
{
    let list = level_scores(config, levels, handlers, n);
    if i < n - 1 {
        lemma_level_scored(config, levels, handlers, n - 1, i);
        let rest = level_scores(config, levels, handlers, n - 1);
        let e = (
            (settled_size(config, levels, handlers, i) * SCORE_BASE / level_limits(
                config,
                levels,
            )[levels[i].level_idx as int] as int) as u64,
            levels[i].level_idx as usize,
            (levels[i].level_idx + 1) as usize,
        );
        let k = rest.index_of(e);
        assert(list[k] == e);
    } else {
        assert(list[list.len() - 1] == list.last());
    }
}

proof fn lemma_by_score_holds(s: Seq<ScoreLevel>, e: ScoreLevel)
    ensures
        by_score(s).contains(e) == s.contains(e),
{
    broadcast use vstd::seq_lib::group_to_multiset_ensures;

    law_by_score_sorts(s);
    assert(by_score(s).to_multiset().count(e) == s.to_multiset().count(e));
    assert(by_score(s).contains(e) <==> by_score(s).to_multiset().count(e) > 0);
    assert(s.contains(e) <==> s.to_multiset().count(e) > 0);
}

/// The bytes that a level holds once the running tasks are done: those that it holds now, with
/// those that come from the level above it (level 0 for the base level), without those that go
/// to the level below it.
pub open spec fn bytes_to_be(base_level: int, level: LevelView, handlers: Seq<HandlerView>) -> int {
    let above = if level.level_idx == base_level {
        0
    } else {
        level.level_idx - 1
    };
    level.total_file_size + task_size(tasks_to(handlers[above].tasks, level.level_idx)) - task_size(
        tasks_to(handlers[level.level_idx as int].tasks, (level.level_idx + 1) as u32),
    )
}

/// Every level from the base level on, but for the last one, that is not empty once the running
/// tasks are done can be compacted into the next one. Its score says how full it is in percent
/// of its limit.
pub proof fn law_every_level_has_its_score(config: CompactionConfig, levels: LevelsView, handlers: Seq<HandlerView>, i: int)
    requires
        scores_defined(config, levels, handlers),
        0 <= i < levels.levels.len(),
        base_level_of(config, levels.levels) <= levels.levels[i].level_idx,
        levels.levels[i].level_idx < config.max_level,
        bytes_to_be(base_level_of(config, levels.levels), levels.levels[i], handlers) != 0,
    ensures
        exists|k: int|
            #![trigger priorities(config, levels, handlers)[k]]
            {
                let p = priorities(config, levels, handlers);
                let level = levels.levels[i];
                &&& 0 <= k < p.len()
                &&& p[k].1 == level.level_idx
                &&& p[k].2 == level.level_idx + 1
                &&& p[k].0 == bytes_to_be(base_level_of(config, levels.levels), level, handlers) * 100 / level_limits(
                    config,
                    levels.levels,
                )[level.level_idx as int] as int
            },
{
    let p = priorities(config, levels, handlers);
    let lv = levels.levels;
    let n = lv.len() as int;
    let size = settled_size(config, lv, handlers, i);
    let limit = level_limits(config, lv)[lv[i].level_idx as int] as int;
    let e = ((size * SCORE_BASE / limit) as u64, lv[i].level_idx as usize, (lv[i].level_idx + 1) as usize);
    let low = level_scores(config, lv, handlers, n);
    let all = l0_scores(config, levels, handlers) + low;
    assert(scored(config, lv, i));
    assert(size == bytes_to_be(base_level_of(config, lv), lv[i], handlers));
    lemma_level_scored(config, lv, handlers, n, i);
    let at = low.index_of(e);
    assert(all[l0_scores(config, levels, handlers).len() + at] == e);
    assert(all.contains(e));
    lemma_by_score_holds(all, e);
    let k = p.index_of(e);
    assert(p[k] == e);
    assert(0 <= size * SCORE_BASE / limit <= size * SCORE_BASE) by (nonlinear_arith)
        requires
            size > 0,
            limit > 0,
    ;
}

/// A level from the base level on, but for the last one, that will hold at least a hundredth more
/// than its limit makes the first of the priorities one that is carried out.
pub proof fn law_overfull_level_is_urgent(config: CompactionConfig, levels: LevelsView, handlers: Seq<HandlerView>, i: int)
    requires
        scores_defined(config, levels, handlers),
        0 <= i < levels.levels.len(),
        base_level_of(config, levels.levels) <= levels.levels[i].level_idx,
        levels.levels[i].level_idx < config.max_level,
        bytes_to_be(base_level_of(config, levels.levels), levels.levels[i], handlers) > 0,
        bytes_to_be(base_level_of(config, levels.levels), levels.levels[i], handlers) * 100 >= level_limits(
            config,
            levels.levels,
        )[levels.levels[i].level_idx as int] * 101,
    ensures
        priorities(config, levels, handlers).len() > 0,
        priorities(config, levels, handlers)[0].0 > 100,
{
    let p = priorities(config, levels, handlers);
    let size = bytes_to_be(base_level_of(config, levels.levels), levels.levels[i], handlers);
    let limit = level_limits(config, levels.levels)[levels.levels[i].level_idx as int] as int;
    law_every_level_has_its_score(config, levels, handlers, i);
    let k = choose|k: int|
        #![trigger p[k]]
        {
            &&& 0 <= k < p.len()
            &&& p[k].1 == levels.levels[i].level_idx
            &&& p[k].2 == levels.levels[i].level_idx + 1
            &&& p[k].0 == size * 100 / limit
        };
    assert(scored(config, levels.levels, i));
    assert(limit > 0);
    assert(size * 100 / limit >= 101) by (nonlinear_arith)
        requires
            size * 100 >= limit * 101,
            limit > 0,
    ;
    law_by_score_sorts(
        l0_scores(config, levels, handlers) + level_scores(
            config,
            levels.levels,
            handlers,
            levels.levels.len() as int,
        ),
    );
    assert(k == 0 || p[0].0 >= p[k].0);
}

/// Where level 0 has idle tables, it can be compacted within itself and into the base level. More
/// idle tables than one compaction takes, or more idle bytes than the base level takes, by at
/// least a hundredth, make the first of the priorities one that is carried out.
#[verifier::spinoff_prover]
#[verifier::rlimit(50)]
pub proof fn law_level_0_has_its_scores(config: CompactionConfig, levels: LevelsView, handlers: Seq<HandlerView>)
    requires
        scores_defined(config, levels, handlers),
        base_level_of(config, levels.levels) >= 0,
        base_level_of(config, levels.levels) <= usize::MAX,
        idle_files(levels, handlers) > 0,
    ensures
        ({
            let p = priorities(config, levels, handlers);
            let files = table_count(levels.sub_levels) - handlers[0].compacting.dom().len();
            let bytes = levels.l0_total_file_size - task_size(handlers[0].tasks);
            &&& p.len() >= 2
            &&& exists|k: int| 0 <= k < p.len() && (#[trigger] p[k]).1 == 0 && p[k].2 == 0
            &&& exists|k: int|
                0 <= k < p.len() && (#[trigger] p[k]).1 == 0 && p[k].2 == base_level_of(config, levels.levels) && p[k].0
                    == bytes * 100 / config.max_bytes_for_level_base as int
            &&& files * 100 >= config.level0_tier_compact_file_number * 101 ==> p[0].0 > 100
            &&& bytes * 100 >= config.max_bytes_for_level_base * 101 ==> p[0].0 > 100
        }),
{
    let p = priorities(config, levels, handlers);
    let head = l0_scores(config, levels, handlers);
    let low = level_scores(config, levels.levels, handlers, levels.levels.len() as int);
    let all = head + low;
    let number = config.level0_tier_compact_file_number as int;
    let base_bytes = config.max_bytes_for_level_base as int;
    let files = idle_files(levels, handlers);
    let bytes = idle_bytes(levels, handlers);
    law_by_score_sorts(all);
    assert(all[0] == head[0] && all[1] == head[1]);
    assert(all.contains(head[0]) && all.contains(head[1]));
    lemma_by_score_holds(all, head[0]);
    lemma_by_score_holds(all, head[1]);
    let a = p.index_of(head[0]);
    let b = p.index_of(head[1]);
    assert(p[a] == head[0] && p[b] == head[1]);
    assert(0 <= files * 100 / number <= files * 100) by (nonlinear_arith)
        requires
            files >= 0,
            number > 0,
    ;
    assert(0 <= bytes * 100 / base_bytes <= bytes * 100) by (nonlinear_arith)
        requires
            bytes >= 0,
            base_bytes > 0,
    ;
    if files * 100 >= number * 101 {
        assert(files * 100 / number >= 101) by (nonlinear_arith)
            requires
                files * 100 >= number * 101,
                number > 0,
        ;
        assert(head[0].0 >= 101);
        assert(a == 0 || p[0].0 >= p[a].0);
    }
    if bytes * 100 >= base_bytes * 101 {
        assert(bytes * 100 / base_bytes >= 101) by (nonlinear_arith)
            requires
                bytes * 100 >= base_bytes * 101,
                base_bytes > 0,
        ;
        assert(b == 0 || p[0].0 >= p[b].0);
    }
}

proof fn lemma_scores_only(config: CompactionConfig, levels: Seq<LevelView>, handlers: Seq<HandlerView>, n: int, e: ScoreLevel)
    requires
        0 <= n <= levels.len(),
        level_scores(config, levels, handlers, n).contains(e),
    ensures
        exists|i: int|
            #![trigger levels[i]]
            {
                &&& 0 <= i < n
                &&& scored(config, levels, i)
                &&& settled_size(config, levels, handlers, i) != 0
                &&& e == (
                    (settled_size(config, levels, handlers, i) * SCORE_BASE / level_limits(
                        config,
                        levels,
                    )[levels[i].level_idx as int] as int) as u64,
                    levels[i].level_idx as usize,
                    (levels[i].level_idx + 1) as usize,
                )
            },
    decreases n,
{
    if n > 0 {
        let list = level_scores(config, levels, handlers, n);
        let rest = level_scores(config, levels, handlers, n - 1);
        let k = list.index_of(e);
        if k < rest.len() {
            assert(rest[k] == e);
            lemma_scores_only(config, levels, handlers, n - 1, e);
        } else {
            assert(levels[n - 1] == levels[n - 1]);
        }
    }
}

/// The priorities hold nothing else: an entry is a compaction within level 0 or from it into the
/// base level, and then level 0 has idle tables; or it is one from a level between the base level
/// and the last one, which is not empty once the running tasks are done, into the next level, and
/// its score says how full the level is in percent of its limit.
pub proof fn law_only_such_levels_are_scored(config: CompactionConfig, levels: LevelsView, handlers: Seq<HandlerView>, k: int)
    requires
        scores_defined(config, levels, handlers),
        0 <= base_level_of(config, levels.levels) <= usize::MAX,
        0 <= k < priorities(config, levels, handlers).len(),
    ensures
        ({
            let e = priorities(config, levels, handlers)[k];
            let base = base_level_of(config, levels.levels);
            ||| e.1 == 0 && (e.2 == 0 || e.2 == base) && table_count(levels.sub_levels)
                > handlers[0].compacting.dom().len()
            ||| exists|i: int|
                #![trigger levels.levels[i]]
                {
                    &&& 0 <= i < levels.levels.len()
                    &&& base <= levels.levels[i].level_idx < config.max_level
                    &&& e.1 == levels.levels[i].level_idx
                    &&& e.2 == levels.levels[i].level_idx + 1
                    &&& bytes_to_be(base, levels.levels[i], handlers) > 0
                    &&& e.0 == bytes_to_be(base, levels.levels[i], handlers) * 100 / level_limits(
                        config,
                        levels.levels,
                    )[e.1 as int] as int
                }
        }),
{
    let p = priorities(config, levels, handlers);
    let head = l0_scores(config, levels, handlers);
    let lv = levels.levels;
    let low = level_scores(config, lv, handlers, lv.len() as int);
    let all = head + low;
    let e = p[k];
    assert(p.contains(e));
    lemma_by_score_holds(all, e);
    let at = all.index_of(e);
    if at < head.len() {
        assert(head[at] == e);
    } else {
        assert(low[at - head.len()] == e);
        assert(low.contains(e));
        lemma_scores_only(config, lv, handlers, lv.len() as int, e);
        let i = choose|i: int|
            #![trigger lv[i]]
            {
                &&& 0 <= i < lv.len()
                &&& scored(config, lv, i)
                &&& settled_size(config, lv, handlers, i) != 0
                &&& e == (
                    (settled_size(config, lv, handlers, i) * SCORE_BASE / level_limits(
                        config,
                        lv,
                    )[lv[i].level_idx as int] as int) as u64,
                    lv[i].level_idx as usize,
                    (lv[i].level_idx + 1) as usize,
                )
            };
        let size = settled_size(config, lv, handlers, i);
        let limit = level_limits(config, lv)[lv[i].level_idx as int] as int;
        assert(size == bytes_to_be(base_level_of(config, lv), lv[i], handlers));
        assert(0 <= size * SCORE_BASE / limit <= size * SCORE_BASE) by (nonlinear_arith)
            requires
                size > 0,
                limit > 0,
        ;
    }
}

proof fn lemma_first_non_empty_is_first(levels: Seq<LevelView>, i: int, j: int)
    requires
        0 <= i <= j < levels.len(),
        forall|k: int| 0 <= k < levels.len() ==> (#[trigger] levels[k]).level_idx == k + 1,
        levels[j].total_file_size > 0,
    ensures
        1 <= first_non_empty(levels, i) <= levels[j].level_idx,
    decreases levels.len() - i,
{
    if levels[i].total_file_size == 0 {
        lemma_first_non_empty_is_first(levels, i + 1, j);
    }
}

proof fn lemma_max_level_size(levels: Seq<LevelView>, j: int)
    requires
        0 <= j < levels.len(),
    ensures
        levels[j].total_file_size <= max_level_size(levels),
    decreases levels.len(),
{
    if j < levels.len() - 1 {
        lemma_max_level_size(levels.drop_last(), j);
    }
}

proof fn lemma_climb_falls(base: int, size: nat, limit: nat, m: nat)
    requires
        m > 0,
    ensures
        climb(base, size, limit, m).0 <= base,
    decreases base,
{
    if base > 1 && size > limit {
        lemma_climb_falls(base - 1, size / m, limit, m);
    }
}

/// No level above the base level holds data: the base level is the first one that does, or one
/// above it. Without any data it is the last level.
pub proof fn law_no_data_above_base_level(config: CompactionConfig, levels: Seq<LevelView>, j: int)
    requires
        sizes_defined(config, levels),
        levels.len() == config.max_level,
        forall|k: int| 0 <= k < levels.len() ==> (#[trigger] levels[k]).level_idx == k + 1,
        0 <= j < levels.len(),
    ensures
        levels[j].total_file_size > 0 ==> base_level_of(config, levels) <= levels[j].level_idx,
        (forall|k: int| 0 <= k < levels.len() ==> (#[trigger] levels[k]).total_file_size == 0) ==> base_level_of(
            config,
            levels,
        ) == config.max_level,
{
    if levels[j].total_file_size > 0 {
        lemma_max_level_size(levels, j);
        lemma_first_non_empty_is_first(levels, 0, j);
        lemma_climb_falls(
            first_non_empty(levels, 0),
            ideal_size(config, levels),
            config.max_bytes_for_level_base as nat,
            config.max_bytes_for_level_multiplier as nat,
        );
    }
    if forall|k: int| 0 <= k < levels.len() ==> (#[trigger] levels[k]).total_file_size == 0 {
        lemma_all_empty(levels);
    }
}

/// Dividing again and again is dividing by the power.
pub proof fn law_shrunk_is_quotient(n: nat, m: nat, times: nat)
    requires
        m > 0,
    ensures
        shrunk(n, m, times) == n as int / vstd::arithmetic::power::pow(m as int, times),
    decreases times,
{
    if times == 0 {
        vstd::arithmetic::power::lemma_pow0(m as int);
    } else {
        let t = (times - 1) as nat;
        law_shrunk_is_quotient(n, m, t);
        vstd::arithmetic::power::lemma_pow_positive(m as int, t);
        vstd::arithmetic::div_mod::lemma_div_denominator(n as int, vstd::arithmetic::power::pow(m as int, t), m as int);
        vstd::arithmetic::power::lemma_pow1(m as int);
        vstd::arithmetic::power::lemma_pow_adds(m as int, t, 1);
    }
}

proof fn lemma_climb(base: int, size: nat, limit: nat, m: nat)
    requires
        base >= 1,
        m > 0,
    ensures
        ({
            let (b, s) = climb(base, size, limit, m);
            &&& 1 <= b <= base
            &&& s == shrunk(size, m, (base - b) as nat)
            &&& b > 1 ==> s <= limit
            &&& b < base ==> shrunk(size, m, (base - b - 1) as nat) > limit
        }),
    decreases base,
{
    if base > 1 && size > limit {
        lemma_climb(base - 1, size / m, limit, m);
        let (b, s) = climb(base - 1, size / m, limit, m);
        lemma_shrunk_first(size, m, (base - 1 - b) as nat);
        if b < base - 1 {
            lemma_shrunk_first(size, m, (base - 2 - b) as nat);
        }
    }
}

proof fn lemma_shrunk_first(n: nat, m: nat, times: nat)
    requires
        m > 0,
    ensures
        shrunk(n / m, m, times) == shrunk(n, m, times + 1),
    decreases times,
{
    if times > 0 {
        lemma_shrunk_first(n, m, (times - 1) as nat);
    } else {
        assert(shrunk(n, m, 0) == n);
        assert(shrunk(n, m, 1) == shrunk(n, m, 0) / m);
    }
}

/// The base level lies as deep as it can: each level above the first one with data is taken only
/// if the level below it would have to hold more than `max_bytes_for_level_base`, where each
/// level is `max_bytes_for_level_multiplier` times as large as the one above it and the last
/// level is as large as the largest level is now.
pub proof fn law_base_level_fits_the_data(config: CompactionConfig, levels: Seq<LevelView>)
    requires
        levels.len() == config.max_level,
        config.max_bytes_for_level_multiplier > 0,
        forall|k: int| 0 <= k < levels.len() ==> (#[trigger] levels[k]).level_idx == k + 1,
        max_level_size(levels) > 0,
    ensures
        ({
            let base = base_level_of(config, levels);
            let first = first_non_empty(levels, 0);
            let m = config.max_bytes_for_level_multiplier as nat;
            let limit = config.max_bytes_for_level_base;
            &&& 1 <= base <= first <= config.max_level
            &&& base < first ==> shrunk(max_level_size(levels), m, (config.max_level - base - 1) as nat) > limit
            &&& 1 < base < first ==> shrunk(max_level_size(levels), m, (config.max_level - base) as nat) <= limit
            &&& base == first && base > 1 ==> shrunk(
                max_level_size(levels),
                m,
                (config.max_level - base) as nat,
            ) <= limit
        }),
{
    let first = first_non_empty(levels, 0);
    let m = config.max_bytes_for_level_multiplier as nat;
    let limit = config.max_bytes_for_level_base as nat;
    let max = max_level_size(levels);
    lemma_first_non_empty_bounds(levels, 0);
    if first == 0 {
        lemma_all_empty(levels);
    }
    let times = (config.max_level - first) as nat;
    let ideal = shrunk(max, m, times);
    lemma_climb(first, ideal, limit, m);
    let (b, s) = climb(first, ideal, limit, m);
    lemma_shrunk_adds(max, m, times, (first - b) as nat);
    if b < first {
        lemma_shrunk_adds(max, m, times, (first - b - 1) as nat);
    }
    assert(limit / m <= limit) by (nonlinear_arith)
        requires
            m > 0,
    ;
}

proof fn lemma_shrunk_adds(n: nat, m: nat, a: nat, b: nat)
    ensures
        shrunk(shrunk(n, m, a), m, b) == shrunk(n, m, a + b),
    decreases b,
{
    if b > 0 {
        lemma_shrunk_adds(n, m, a, (b - 1) as nat);
        assert((a + b - 1) as nat == a + (b - 1) as nat);
    }
}

/// Levels above the base level have no limit. From the base level on the limit is never below
/// `max_bytes_for_level_base`; that of the base level is just that, and each further limit above
/// it is the one before, multiplied.
pub proof fn law_limits_grow_from_base_level(config: CompactionConfig, levels: Seq<LevelView>, j: int)
    requires
        0 <= j <= config.max_level,
        config.max_bytes_for_level_multiplier > 1,
        config.max_bytes_for_level_base > 0,
        max_level_size(levels) > 0,
    ensures
        ({
            let limits = level_limits(config, levels);
            let base = base_level_of(config, levels);
            let least = config.max_bytes_for_level_base;
            &&& limits.len() == config.max_level + 1
            &&& j < base ==> limits[j] == u64::MAX
            &&& j >= base ==> limits[j] >= least
            &&& j == base ==> limits[j] == least
            &&& base <= j < config.max_level && limits[j] > least ==> limits[j + 1] == max_int(
                least as int,
                double_product(limits[j], config.max_bytes_for_level_multiplier) as int,
            )
        }),
{
    let (base, size) = base_level_and_size(config, levels);
    let base_max = config.max_bytes_for_level_base;
    let m = config.max_bytes_for_level_multiplier;
    assert(base_max / m < base_max) by (nonlinear_arith)
        requires
            m > 1,
            base_max > 0,
    ;
    assert(size <= base_max);
    assert(scaled_size(size as u64, m, 0) == size);
    if base <= j < config.max_level {
        assert((j + 1 - base - 1) as nat == (j - base) as nat);
        assert(scaled_size(size as u64, m, (j + 1 - base) as nat) == double_product(
            scaled_size(size as u64, m, (j - base) as nat),
            m,
        ));
    }
}

proof fn lemma_selected_from<S: OverlapStrategy + Copy>(
    selector: DynamicLevelSelector<S>,
    task_id: u64,
    entries: Seq<ScoreLevel>,
    levels: LevelsView,
    handlers: Seq<HandlerView>,
    from: int,
)
    requires
        0 <= from <= entries.len(),
        falling(entries),
    ensures
        match selector.selected_from(task_id, entries, levels, handlers, from) {
            Some(picked) => exists|k: int|
                #![trigger entries[k]]
                {
                    &&& from <= k < entries.len()
                    &&& entries[k].0 > 100
                    &&& selector.picked_for(task_id, entries[k], levels, handlers) == Some(picked)
                    &&& forall|j: int|
                        from <= j < k ==> selector.picked_for(task_id, #[trigger] entries[j], levels, handlers) is None
                },
            None => forall|k: int|
                #![trigger entries[k]]
                from <= k < entries.len() && entries[k].0 > 100 ==> selector.picked_for(
                    task_id,
                    entries[k],
                    levels,
                    handlers,
                ) is None,
        },
    decreases entries.len() - from,
{
    if from < entries.len() {
        if entries[from].0 > 100 {
            match selector.picked_for(task_id, entries[from], levels, handlers) {
                Some(picked) => {
                    assert(entries[from].0 > 100);
                },
                None => {
                    lemma_selected_from(selector, task_id, entries, levels, handlers, from + 1);
                    if let Some(picked) = selector.selected_from(task_id, entries, levels, handlers, from + 1) {
                        let k = choose|k: int|
                            #![trigger entries[k]]
                            {
                                &&& from + 1 <= k < entries.len()
                                &&& entries[k].0 > 100
                                &&& selector.picked_for(task_id, entries[k], levels, handlers) == Some(picked)
                                &&& forall|j: int|
                                    from + 1 <= j < k ==> selector.picked_for(
                                        task_id,
                                        #[trigger] entries[j],
                                        levels,
                                        handlers,
                                    ) is None
                            };
                        assert(entries[k].0 > 100);
                    }
                },
            }
        } else {
            assert forall|k: int| #![trigger entries[k]] from <= k < entries.len() implies entries[k].0 <= 100 by {
                assert(k == from || entries[from].0 >= entries[k].0);
            }
        }
    }
}

/// The task that is selected is that of the most urgent entry above the limit for which there is
/// one. Without a task there is none for any entry above the limit.
pub proof fn law_most_urgent_task_is_selected<S: OverlapStrategy + Copy>(
    selector: DynamicLevelSelector<S>,
    task_id: u64,
    levels: LevelsView,
    handlers: Seq<HandlerView>,
)
    ensures
        ({
            let p = priorities(*selector.config, levels, handlers);
            match selector.selected(task_id, levels, handlers) {
                Some(picked) => exists|k: int|
                    #![trigger p[k]]
                    {
                        &&& 0 <= k < p.len()
                        &&& p[k].0 > 100
                        &&& selector.picked_for(task_id, p[k], levels, handlers) == Some(picked)
                        &&& forall|j: int|
                            0 <= j < k ==> p[j].0 >= p[k].0 && selector.picked_for(
                                task_id,
                                #[trigger] p[j],
                                levels,
                                handlers,
                            ) is None
                    },
                None => forall|k: int|
                    #![trigger p[k]]
                    0 <= k < p.len() && p[k].0 > 100 ==> selector.picked_for(task_id, p[k], levels, handlers) is None,
            }
        }),
{
    let p = priorities(selector.params(), levels, handlers);
    law_by_score_sorts(
        l0_scores(selector.params(), levels, handlers) + level_scores(
            selector.params(),
            levels.levels,
            handlers,
            levels.levels.len() as int,
        ),
    );
    lemma_selected_from(selector, task_id, p, levels, handlers, 0);
}

/// A task that is picked for an entry of the priorities reads the level that the entry names
/// first, and writes into the one that it names second; it reads no other levels.
pub proof fn law_task_moves_between_named_levels<S: OverlapStrategy + Copy>(
    selector: DynamicLevelSelector<S>,
    task_id: u64,
    entry: ScoreLevel,
    levels: LevelsView,
    handlers: Seq<HandlerView>,
    i: int,
)
    requires
        selector.picked_for(task_id, entry, levels, handlers) is Some,
        selectable(*selector.config, levels, handlers),
        entry_valid(*selector.config, levels.levels, entry),
        0 <= i < selector.picked_for(task_id, entry, levels, handlers).unwrap().0.input_levels.len(),
    ensures
        ({
            let input = selector.picked_for(task_id, entry, levels, handlers).unwrap().0;
            &&& input.target_level == entry.2
            &&& input.input_levels[0].level_idx == entry.1
            &&& input.input_levels[i].level_idx == entry.1 || input.input_levels[i].level_idx == entry.2
        }),
{
    lemma_base_level_bounds(selector.params(), levels.levels);
    let input = selector.picked_for(task_id, entry, levels, handlers).unwrap().0;
    if entry.1 == 0 && entry.2 != 0 {
        let run = whole_run(selector.params(), levels, handlers);
        lemma_run_end_bounds(
            levels.sub_levels,
            handlers[0],
            levels.sub_levels[0].total_file_size as int,
            selector.config.max_compaction_bytes,
            1,
        );
    } else if entry.1 == 0 {
        let subs = levels.sub_levels;
        let h = handlers[0];
        let n = subs.len() as int;
        let config = selector.params();
        let s = selector.overlap_strategy;
        let p_move = |k: int| crate::hummock::tier_compaction_picker::trivial_move_candidate(s, subs, h, k);
        let p_over = |k: int| crate::hummock::tier_compaction_picker::overlapping_candidate(config, subs, h, k);
        let p_shard = |k: int| crate::hummock::tier_compaction_picker::sharding_candidate(config, subs, h, k);
        lemma_first_from(p_move, 0, n);
        lemma_first_from(p_over, 0, n);
        lemma_first_from(p_shard, 0, n);
    }
}

/// The files of a task grow with the depth of its target level: in level 0 and in the base level
/// they have the base size, and in each further level twice the size of those in the one above.
pub proof fn law_files_double_per_level(config: CompactionConfig, base_level: int, target_level: int)
    requires
        0 < base_level <= target_level < base_level + 63,
    ensures
        target_file_size_of(config, 0, base_level) == config.target_file_size_base,
        target_file_size_of(config, base_level, base_level) == config.target_file_size_base,
        config.target_file_size_base * vstd::arithmetic::power2::pow2((target_level + 1 - base_level) as nat) <= u64::MAX
            ==> target_file_size_of(config, target_level + 1, base_level) == 2 * target_file_size_of(
            config,
            target_level,
            base_level,
        ),
        algorithm_index(0, base_level) == 0,
        algorithm_index(base_level, base_level) == 1,
        algorithm_index(target_level + 1, base_level) == algorithm_index(target_level, base_level) + 1,
{
    let x = config.target_file_size_base;
    let k = (target_level - base_level) as u64;
    assert(x << 0u64 == x) by (bit_vector);
    if x * vstd::arithmetic::power2::pow2((k + 1) as nat) <= u64::MAX {
        vstd::arithmetic::power2::lemma_pow2_unfold((k + 1) as nat);
        let p = vstd::arithmetic::power2::pow2(k as nat);
        assert(x * p <= x * (2 * p)) by (nonlinear_arith);
        assert(x * (2 * p) == 2 * (x * p)) by (nonlinear_arith);
        vstd::bits::lemma_u64_shl_is_mul(x, k);
        vstd::bits::lemma_u64_shl_is_mul(x, (k + 1) as u64);
    }
}

/// The score of a compaction within level 0 is the number of idle tables in percent of what one compaction
/// takes, but at most twice that or the number of sub-levels in percent of it, whichever is more.
#[verifier::spinoff_prover]
#[verifier::rlimit(50)]
pub proof fn law_level_0_score_counts_files(config: CompactionConfig, levels: LevelsView, handlers: Seq<HandlerView>)
    requires
        scores_defined(config, levels, handlers),
        idle_files(levels, handlers) > 0,
    ensures
        exists|k: int|
            #![trigger priorities(config, levels, handlers)[k]]
            {
                let p = priorities(config, levels, handlers);
                let number = config.level0_tier_compact_file_number as int;
                let files = (table_count(levels.sub_levels) - handlers[0].compacting.dom().len()) * 100 / number;
                let subs = levels.sub_levels.len() as int * 100 / number;
                &&& 0 <= k < p.len()
                &&& p[k].1 == 0
                &&& p[k].2 == 0
                &&& files <= 200 ==> p[k].0 == files
                &&& files > 200 && subs <= 200 ==> p[k].0 == 200
                &&& files > 200 && subs > 200 && files <= subs ==> p[k].0 == files
                &&& files > 200 && subs > 200 && files > subs ==> p[k].0 == subs
            },
{
    let p = priorities(config, levels, handlers);
    let head = l0_scores(config, levels, handlers);
    let low = level_scores(config, levels.levels, handlers, levels.levels.len() as int);
    let all = head + low;
    let number = config.level0_tier_compact_file_number as int;
    let files = idle_files(levels, handlers);
    let subs = levels.sub_levels.len() as int;
    law_by_score_sorts(all);
    assert(all[0] == head[0]);
    assert(all.contains(head[0]));
    lemma_by_score_holds(all, head[0]);
    let a = p.index_of(head[0]);
    assert(p[a] == head[0]);
    assert(0 <= files * 100 / number <= files * 100) by (nonlinear_arith)
        requires
            files >= 0,
            number > 0,
    ;
    assert(0 <= subs * 100 / number <= subs * 100) by (nonlinear_arith)
        requires
            subs >= 0,
            number > 0,
    ;
}

/// The base level is as large as the largest level is now, divided once for each level that is below the base
/// level; but not larger than `max_bytes_for_level_base`. If it is the first level with data, it is larger than
/// that divided once. The sizes of the levels below it follow from its size, each multiplied from the one before.
pub proof fn law_limits_follow_from_base_size(config: CompactionConfig, levels: Seq<LevelView>, j: int)
    requires
        levels.len() == config.max_level,
        config.max_bytes_for_level_multiplier > 0,
        forall|k: int| 0 <= k < levels.len() ==> (#[trigger] levels[k]).level_idx == k + 1,
        max_level_size(levels) > 0,
        base_level_of(config, levels) <= j <= config.max_level,
    ensures
        ({
            let base = base_level_of(config, levels);
            let m = config.max_bytes_for_level_multiplier;
            let most = config.max_bytes_for_level_base;
            let wanted = shrunk(max_level_size(levels), m as nat, (config.max_level - base) as nat);
            let size = if base == first_non_empty(levels, 0) && wanted <= most / m {
                most / m + 1
            } else if wanted < most {
                wanted as int
            } else {
                most as int
            };
            let scaled = scaled_size(size as u64, m, (j - base) as nat);
            &&& level_limits(config, levels)[j] == if scaled < most {
                most
            } else {
                scaled
            }
            &&& scaled_size(size as u64, m, 0) == size as u64
            &&& scaled_size(size as u64, m, (j - base + 1) as nat) == double_product(scaled, m)
        }),
{
    let first = first_non_empty(levels, 0);
    let m = config.max_bytes_for_level_multiplier as nat;
    let limit = config.max_bytes_for_level_base as nat;
    let max = max_level_size(levels);
    lemma_first_non_empty_bounds(levels, 0);
    if first == 0 {
        lemma_all_empty(levels);
    }
    let times = (config.max_level - first) as nat;
    let ideal = shrunk(max, m, times);
    lemma_climb(first, ideal, limit, m);
    let (b, s) = climb(first, ideal, limit, m);
    lemma_shrunk_adds(max, m, times, (first - b) as nat);
    let base = base_level_of(config, levels);
    assert((j - base + 1 - 1) as nat == (j - base) as nat);
}

/// Each part but the first starts at the newest version of the key that is `step` keys behind the start of the
/// part before, which ends there; the last part has at most `step` keys.
pub proof fn law_parts_start_at_keys(keys: Seq<Seq<u8>>, step: int, j: int)
    requires
        keys.len() > 0,
        step > 0,
        0 < j < split_ranges(keys, step).len(),
    ensures
        ({
            let parts = split_ranges(keys, step);
            &&& (parts.len() - 1) * step < keys.len() <= parts.len() * step
            &&& j * step < keys.len()
            &&& parts[j].left == full_key_spec(keys[j * step], u64::MAX)
            &&& parts[j - 1].right == full_key_spec(keys[j * step], u64::MAX)
        }),
{
    let n = keys.len() as int;
    let m = (n - 1) / step;
    assert(m >= 0 && m * step <= n - 1 < (m + 1) * step) by (nonlinear_arith)
        requires
            m == (n - 1) / step,
            n >= 1,
            step > 0,
    ;
    assert(j * step <= m * step) by (nonlinear_arith)
        requires
            j <= m,
            step > 0,
    ;
}

/// A task is carried out in parts exactly if it reads more bytes than a sub-level or the base level takes, and
/// at least sixteen tables. There are at most `max_sub_compaction` parts, and at most one for every eight tables.
pub proof fn law_only_large_tasks_are_split(config: CompactionConfig, inputs: Seq<InputLevelView>)
    requires
        config.max_sub_compaction > 0,
    ensures
        ({
            let parts = splits_of(config, inputs);
            let n = start_keys(inputs).len();
            let size = inputs_size(inputs);
            &&& parts.len() > 0 <==> (size > config.sub_level_max_compaction_bytes || size > config.max_bytes_for_level_base)
                && n >= 16
            &&& parts.len() <= config.max_sub_compaction
            &&& parts.len() * 8 <= n
        }),
{
    if is_split(config, inputs) {
        let keys = start_keys(inputs).sort_by(bytes_le());
        let n = start_keys(inputs).len() as int;
        lemma_sorted_len(start_keys(inputs));
        let c = min_int(n / 8, config.max_sub_compaction as int);
        let step = split_step(config, n);
        assert(step >= 1 && c * step >= n) by (nonlinear_arith)
            requires
                step == (n + c - 1) / c,
                c >= 1,
                n >= 1,
        ;
        let m = (n - 1) / step;
        assert(m >= 0 && m < c) by (nonlinear_arith)
            requires
                m == (n - 1) / step,
                c * step >= n,
                n >= 1,
                step >= 1,
        ;
        assert(splits_of(config, inputs).len() == m + 1);
    }
}

proof fn lemma_sorted_len(keys: Seq<Seq<u8>>)
    ensures
        keys.sort_by(bytes_le()).len() == keys.len(),
{
    broadcast use vstd::seq_lib::group_to_multiset_ensures;

    lemma_bytes_le_total();
    keys.lemma_sort_by_ensures(bytes_le());
    assert(keys.to_multiset().len() == keys.len());
    assert(keys.sort_by(bytes_le()).to_multiset().len() == keys.sort_by(bytes_le()).len());
}

/// The start keys of the inputs are the user keys at which their tables start, one for each table.
pub proof fn law_each_table_gives_start_key(inputs: Seq<InputLevelView>, i: int, k: int)
    requires
        0 <= i < inputs.len(),
        0 <= k < inputs[i].tables.len(),
    ensures
        start_keys(inputs).contains(user_key_of(inputs[i].tables[k].key_range.left)),
        start_keys(inputs).len() == start_keys(inputs.drop_last()).len() + inputs.last().tables.len(),
    decreases inputs.len(),
{
    let key = user_key_of(inputs[i].tables[k].key_range.left);
    let rest = start_keys(inputs.drop_last());
    let own = table_start_keys(inputs.last().tables);
    if i < inputs.len() - 1 {
        law_each_table_gives_start_key(inputs.drop_last(), i, k);
        let at = rest.index_of(key);
        assert((rest + own)[at] == key);
    } else {
        assert(own[k] == key);
        assert((rest + own)[rest.len() + k] == key);
    }
}

} // verus!

//! Compaction within level 0 and from level 0 to the base level.

use std::sync::Arc;
use vstd::prelude::*;

use crate::hummock::compaction_config::CompactionConfig;
use crate::hummock::level_handler::{HandlerView, LevelHandler};
use crate::hummock::min_overlap_compaction_picker::{
    is_choice, law_min_overlap_avoids_pending, lemma_min_overlap_sizes, min_overlap,
    MinOverlappingPicker,
};
use crate::hummock::overlap_strategy::OverlapStrategy;
use crate::hummock::picker::{
    collect_run, count_tables, counts_task, first_from, handler_views, law_marked_inputs_are_counted,
    lemma_empty_input_counts, lemma_first_from, lemma_one_input_counts, lemma_run_end_bounds,
    levels_wf, mark_all, mark_inputs, mark_tables, recorded_size, run_end, run_from,
    table_count, tables_fit, version_wf, CompactionPicker,
};
use crate::hummock::version::{
    cal_file_size, copy_tables, input_level_views, level_views, sst_views, total_size,
    CompactionInput, CompactionInputView, InputLevel, InputLevelView, Level, LevelType, LevelView,
    Levels, LevelsView, OverlappingLevel, SstView, SstableInfo,
};

verus! {

/// A level-0 task is not worth its writes when it rewrites this many percent
/// of what it reads from level 0.
pub const MAX_WRITE_AMPLIFICATION: u64 = 150;

/// Picks compactions within level 0.
pub struct TierCompactionPicker<S> {
    pub compact_task_id: u64,
    pub config: Arc<CompactionConfig>,
    pub overlap_strategy: S,
}

/// The smaller of two numbers.
pub open spec fn min_u64(a: u64, b: u64) -> u64 {
    if a <= b {
        a
    } else {
        b
    }
}

/// The sub-levels `from..to` as inputs of a task.
pub open spec fn sub_level_inputs(subs: Seq<LevelView>, from: int, to: int) -> Seq<InputLevelView> {
    Seq::new(
        (to - from) as nat,
        |i: int|
            InputLevelView {
                level_idx: 0,
                level_type: subs[from + i].level_type,
                tables: subs[from + i].tables,
            },
    )
}

/// The end of the run that starts with the overlapping sub-level `idx`.
pub open spec fn overlapping_run(config: CompactionConfig, subs: Seq<LevelView>, handler: HandlerView, idx: int) -> int {
    run_from(
        subs,
        handler,
        idx,
        min_u64(config.max_compaction_bytes, config.sub_level_max_compaction_bytes),
    )
}

/// A run that starts with the overlapping sub-level `idx` is worth compacting.
pub open spec fn overlapping_candidate(config: CompactionConfig, subs: Seq<LevelView>, handler: HandlerView, idx: int) -> bool {
    &&& subs[idx].level_type == LevelType::Overlapping
    &&& !handler.any_pending(subs[idx].tables)
    &&& table_count(subs.subrange(idx, overlapping_run(config, subs, handler, idx)))
        >= config.level0_tier_compact_file_number
}

/// The end of the run that starts with the non-overlapping sub-level `idx`.
pub open spec fn sharding_run(config: CompactionConfig, subs: Seq<LevelView>, handler: HandlerView, idx: int) -> int {
    run_from(
        subs,
        handler,
        idx,
        min_u64(config.max_compaction_bytes, config.max_bytes_for_level_base),
    )
}

/// A run that starts with the non-overlapping sub-level `idx` is worth compacting.
pub open spec fn sharding_candidate(config: CompactionConfig, subs: Seq<LevelView>, handler: HandlerView, idx: int) -> bool {
    let end = sharding_run(config, subs, handler, idx);
    &&& subs[idx].level_type == LevelType::Nonoverlapping
    &&& subs[idx].total_file_size <= config.sub_level_max_compaction_bytes
    &&& !handler.any_pending(subs[idx].tables)
    &&& table_count(subs.subrange(idx, end)) >= config.level0_tier_compact_file_number
    &&& end - idx > config.level0_tier_compact_file_number / 2
}

/// What the sub-level above `idx` can move down into sub-level `idx`.
pub open spec fn trivial_move<S: OverlapStrategy>(s: S, subs: Seq<LevelView>, handler: HandlerView, idx: int) -> (
    Seq<SstView>,
    Seq<SstView>,
) {
    min_overlap(s, subs[idx + 1].tables, subs[idx].tables, handler, handler)
}

/// A table of the sub-level above `idx` overlaps nothing in sub-level `idx`.
pub open spec fn trivial_move_candidate<S: OverlapStrategy>(s: S, subs: Seq<LevelView>, handler: HandlerView, idx: int) -> bool {
    &&& subs[idx].level_type == LevelType::Nonoverlapping
    &&& idx + 1 < subs.len()
    &&& subs[idx + 1].level_type == LevelType::Nonoverlapping
    &&& trivial_move(s, subs, handler, idx).0.len() > 0
    &&& trivial_move(s, subs, handler, idx).1.len() == 0
}

/// A task within level 0 that reads `inputs`.
pub open spec fn tier_input(inputs: Seq<InputLevelView>, sub_level_id: u64) -> CompactionInputView {
    CompactionInputView { input_levels: inputs, target_level: 0, target_sub_level_id: sub_level_id }
}

/// The inputs of a move of `tables` without rewriting.
pub open spec fn move_inputs(tables: Seq<SstView>) -> Seq<InputLevelView> {
    seq![
        InputLevelView { level_idx: 0, level_type: LevelType::Nonoverlapping, tables },
        InputLevelView { level_idx: 0, level_type: LevelType::Nonoverlapping, tables: Seq::empty() },
    ]
}

/// The first move without rewriting.
pub open spec fn picked_trivial_move<S: OverlapStrategy>(s: S, task_id: u64, subs: Seq<LevelView>, handlers: Seq<HandlerView>) -> Option<
    (CompactionInputView, Seq<HandlerView>),
> {
    match first_from(|i: int| trivial_move_candidate(s, subs, handlers[0], i), 0, subs.len() as int) {
        Some(idx) => {
            let tables = trivial_move(s, subs, handlers[0], idx).0;
            Some(
                (
                    tier_input(move_inputs(tables), subs[idx].sub_level_id),
                    handlers.update(0, handlers[0].add_task(task_id, 0, tables)),
                ),
            )
        },
        None => None,
    }
}

/// The first run of overlapping sub-levels that is worth compacting.
pub open spec fn picked_overlapping(config: CompactionConfig, task_id: u64, subs: Seq<LevelView>, handlers: Seq<HandlerView>) -> Option<
    (CompactionInputView, Seq<HandlerView>),
> {
    match first_from(|i: int| overlapping_candidate(config, subs, handlers[0], i), 0, subs.len() as int) {
        Some(idx) => {
            let inputs = sub_level_inputs(subs, idx, overlapping_run(config, subs, handlers[0], idx));
            Some((tier_input(inputs, subs[idx].sub_level_id), mark_all(handlers, task_id, 0, inputs)))
        },
        None => None,
    }
}

/// The first run of non-overlapping sub-levels that is worth compacting.
pub open spec fn picked_sharding(config: CompactionConfig, task_id: u64, subs: Seq<LevelView>, handlers: Seq<HandlerView>) -> Option<
    (CompactionInputView, Seq<HandlerView>),
> {
    match first_from(|i: int| sharding_candidate(config, subs, handlers[0], i), 0, subs.len() as int) {
        Some(idx) => {
            let inputs = sub_level_inputs(subs, idx, sharding_run(config, subs, handlers[0], idx));
            Some((tier_input(inputs, subs[idx].sub_level_id), mark_all(handlers, task_id, 0, inputs)))
        },
        None => None,
    }
}

/// The outcome of a picker agrees with the model.
pub open spec fn outcome_is(
    r: Option<CompactionInput>,
    after: Seq<LevelHandler>,
    before: Seq<LevelHandler>,
    model: Option<(CompactionInputView, Seq<HandlerView>)>,
) -> bool {
    match (r, model) {
        (None, None) => handler_views(after) == handler_views(before),
        (Some(input), Some((view, marked))) => input@ == view && handler_views(after) == marked,
        _ => false,
    }
}

/// The sub-levels `from..to` as inputs of a task.
fn copy_sub_levels(sub_levels: &Vec<Level>, from: usize, to: usize) -> (r: Vec<InputLevel>)
    requires
        from <= to <= sub_levels@.len(),
    ensures
        input_level_views(r@) == sub_level_inputs(level_views(sub_levels@), from as int, to as int),
{
    let ghost subs = level_views(sub_levels@);
    let mut r: Vec<InputLevel> = Vec::new();
    let mut i: usize = from;
    while i < to
        invariant
            from <= i <= to <= sub_levels@.len(),
            subs == level_views(sub_levels@),
            r@.len() == i - from,
            forall|j: int|
                0 <= j < r@.len() ==> (#[trigger] r@[j])@ == sub_level_inputs(subs, from as int, to as int)[j],
        decreases to - i,
    {
        let level = &sub_levels[i];
        r.push(
            InputLevel {
                level_idx: 0,
                level_type: level.level_type,
                table_infos: copy_tables(&level.table_infos),
            },
        );
        i = i + 1;
    }
    proof {
        assert(input_level_views(r@) =~= sub_level_inputs(subs, from as int, to as int));
    }
    r
}

/// Marks a run of sub-levels and makes the task that reads it.
fn take_run(task_id: u64, sub_levels: &Vec<Level>, from: usize, to: usize, level_handlers: &mut Vec<LevelHandler>) -> (r: CompactionInput)
    requires
        from < to <= sub_levels@.len(),
        levels_wf(level_views(sub_levels@)),
        old(level_handlers)@.len() > 0,
    ensures
        r@ == tier_input(
            sub_level_inputs(level_views(sub_levels@), from as int, to as int),
            sub_levels@[from as int].sub_level_id,
        ),
        handler_views(final(level_handlers)@) == mark_all(
            handler_views(old(level_handlers)@),
            task_id,
            0,
            sub_level_inputs(level_views(sub_levels@), from as int, to as int),
        ),
{
    let ghost subs = level_views(sub_levels@);
    let input_levels = copy_sub_levels(sub_levels, from, to);
    proof {
        assert(input_level_views(input_levels@).len() == to - from);
        assert forall|i: int| 0 <= i < input_levels@.len() implies (#[trigger] input_levels@[i]).level_idx
            < level_handlers@.len() && total_size(input_levels@[i]@.tables) <= u64::MAX by {
            assert(input_levels@[i]@ == input_level_views(input_levels@)[i]);
            assert(tables_fit(subs[from + i].tables));
        }
    }
    mark_inputs(level_handlers, task_id, 0, &input_levels);
    CompactionInput { input_levels, target_level: 0, target_sub_level_id: sub_levels[from].sub_level_id }
}

/// The smaller of two numbers.
fn smaller(a: u64, b: u64) -> (r: u64)
    ensures
        r == min_u64(a, b),
{
    if a <= b {
        a
    } else {
        b
    }
}

impl<S: OverlapStrategy + Copy> TierCompactionPicker<S> {
    /// A picker of tasks called `compact_task_id`.
    pub fn new(compact_task_id: u64, config: Arc<CompactionConfig>, overlap_strategy: S) -> (r: Self)
        ensures
            r.compact_task_id == compact_task_id,
            r.config == config,
            r.overlap_strategy == overlap_strategy,
    {
        TierCompactionPicker { compact_task_id, config, overlap_strategy }
    }

    fn pick_overlapping_level(&self, l0: &OverlappingLevel, level_handlers: &mut Vec<LevelHandler>) -> (r: Option<
        CompactionInput,
    >)
        requires
            levels_wf(level_views(l0.sub_levels@)),
            old(level_handlers)@.len() > 0,
        ensures
            outcome_is(
                r,
                final(level_handlers)@,
                old(level_handlers)@,
                picked_overlapping(
                    *self.config,
                    self.compact_task_id,
                    level_views(l0.sub_levels@),
                    handler_views(old(level_handlers)@),
                ),
            ),
    {
        let ghost subs = level_views(l0.sub_levels@);
        let ghost h = level_handlers@[0]@;
        let ghost p = |i: int| overlapping_candidate(*self.config, subs, h, i);
        let ghost n = subs.len() as int;
        let max_compaction_bytes: u64 = smaller(
            self.config.max_compaction_bytes,
            self.config.sub_level_max_compaction_bytes,
        );
        let mut idx: usize = 0;
        while idx < l0.sub_levels.len()
            invariant
                idx <= l0.sub_levels@.len(),
                subs == level_views(l0.sub_levels@),
                n == subs.len(),
                levels_wf(subs),
                level_handlers@ == old(level_handlers)@,
                level_handlers@.len() > 0,
                h == level_handlers@[0]@,
                p == (|i: int| overlapping_candidate(*self.config, subs, h, i)),
                max_compaction_bytes == min_u64(
                    self.config.max_compaction_bytes,
                    self.config.sub_level_max_compaction_bytes,
                ),
                first_from(p, 0, n) == first_from(p, idx as int, n),
            decreases l0.sub_levels@.len() - idx,
        {
            let level = &l0.sub_levels[idx];
            proof {
                assert(subs[idx as int] == level@);
            }
            if level.level_type == LevelType::Overlapping && !level_handlers[0].is_level_pending_compact(level) {
                let (end, _) = collect_run(&l0.sub_levels, &level_handlers[0], idx, max_compaction_bytes);
                let count: usize = count_tables(&l0.sub_levels, idx, end);
                if count as u64 >= self.config.level0_tier_compact_file_number {
                    proof {
                        assert(p(idx as int));
                        assert(h == handler_views(old(level_handlers)@)[0]);
                    }
                    return Some(take_run(self.compact_task_id, &l0.sub_levels, idx, end, level_handlers));
                }
            }
            proof {
                assert(!p(idx as int));
            }
            idx = idx + 1;
        }
        proof {
            assert(h == handler_views(old(level_handlers)@)[0]);
        }
        None
    }

    fn pick_sharding_level(&self, l0: &OverlappingLevel, level_handlers: &mut Vec<LevelHandler>) -> (r: Option<
        CompactionInput,
    >)
        requires
            levels_wf(level_views(l0.sub_levels@)),
            old(level_handlers)@.len() > 0,
        ensures
            outcome_is(
                r,
                final(level_handlers)@,
                old(level_handlers)@,
                picked_sharding(
                    *self.config,
                    self.compact_task_id,
                    level_views(l0.sub_levels@),
                    handler_views(old(level_handlers)@),
                ),
            ),
    {
        let ghost subs = level_views(l0.sub_levels@);
        let ghost h = level_handlers@[0]@;
        let ghost p = |i: int| sharding_candidate(*self.config, subs, h, i);
        let ghost n = subs.len() as int;
        let max_compaction_bytes: u64 = smaller(
            self.config.max_compaction_bytes,
            self.config.max_bytes_for_level_base,
        );
        let mut idx: usize = 0;
        while idx < l0.sub_levels.len()
            invariant
                idx <= l0.sub_levels@.len(),
                subs == level_views(l0.sub_levels@),
                n == subs.len(),
                levels_wf(subs),
                level_handlers@ == old(level_handlers)@,
                level_handlers@.len() > 0,
                h == level_handlers@[0]@,
                p == (|i: int| sharding_candidate(*self.config, subs, h, i)),
                max_compaction_bytes == min_u64(
                    self.config.max_compaction_bytes,
                    self.config.max_bytes_for_level_base,
                ),
                first_from(p, 0, n) == first_from(p, idx as int, n),
            decreases l0.sub_levels@.len() - idx,
        {
            let level = &l0.sub_levels[idx];
            proof {
                assert(subs[idx as int] == level@);
            }
            if level.level_type == LevelType::Nonoverlapping && level.total_file_size
                <= self.config.sub_level_max_compaction_bytes && !level_handlers[0].is_level_pending_compact(level) {
                let (end, _) = collect_run(&l0.sub_levels, &level_handlers[0], idx, max_compaction_bytes);
                let count: usize = count_tables(&l0.sub_levels, idx, end);
                if count as u64 >= self.config.level0_tier_compact_file_number && (end - idx) as u64
                    > self.config.level0_tier_compact_file_number / 2 {
                    proof {
                        assert(p(idx as int));
                        assert(h == handler_views(old(level_handlers)@)[0]);
                    }
                    return Some(take_run(self.compact_task_id, &l0.sub_levels, idx, end, level_handlers));
                }
            }
            proof {
                assert(!p(idx as int));
            }
            idx = idx + 1;
        }
        proof {
            assert(h == handler_views(old(level_handlers)@)[0]);
        }
        None
    }

    fn pick_trivial_move_file(&self, l0: &OverlappingLevel, level_handlers: &mut Vec<LevelHandler>) -> (r: Option<
        CompactionInput,
    >)
        requires
            levels_wf(level_views(l0.sub_levels@)),
            old(level_handlers)@.len() > 0,
        ensures
            outcome_is(
                r,
                final(level_handlers)@,
                old(level_handlers)@,
                picked_trivial_move(
                    self.overlap_strategy,
                    self.compact_task_id,
                    level_views(l0.sub_levels@),
                    handler_views(old(level_handlers)@),
                ),
            ),
    {
        let ghost subs = level_views(l0.sub_levels@);
        let ghost h = level_handlers@[0]@;
        let ghost s = self.overlap_strategy;
        let ghost p = |i: int| trivial_move_candidate(s, subs, h, i);
        let ghost n = subs.len() as int;
        let picker = MinOverlappingPicker::new(self.compact_task_id, 0, 0, self.overlap_strategy);
        let mut idx: usize = 0;
        while idx < l0.sub_levels.len()
            invariant
                idx <= l0.sub_levels@.len(),
                subs == level_views(l0.sub_levels@),
                n == subs.len(),
                levels_wf(subs),
                level_handlers@ == old(level_handlers)@,
                level_handlers@.len() > 0,
                h == level_handlers@[0]@,
                s == self.overlap_strategy,
                p == (|i: int| trivial_move_candidate(s, subs, h, i)),
                picker.level == 0,
                picker.target_level == 0,
                picker.overlap_strategy == s,
                first_from(p, 0, n) == first_from(p, idx as int, n),
            decreases l0.sub_levels@.len() - idx,
        {
            let level = &l0.sub_levels[idx];
            proof {
                assert(subs[idx as int] == level@);
                assert(tables_fit(subs[idx as int].tables));
            }
            if level.level_type == LevelType::Nonoverlapping && idx + 1 < l0.sub_levels.len() {
                let upper = &l0.sub_levels[idx + 1];
                proof {
                    assert(subs[idx + 1] == upper@);
                    assert(tables_fit(subs[idx + 1].tables));
                }
                if upper.level_type == LevelType::Nonoverlapping {
                    let (select_tables, target_tables) = picker.pick_tables(
                        &upper.table_infos,
                        &level.table_infos,
                        level_handlers,
                    );
                    // only pick tables for trivial move
                    if select_tables.len() > 0 && target_tables.len() == 0 {
                        proof {
                            assert(p(idx as int));
                            assert(h == handler_views(old(level_handlers)@)[0]);
                            lemma_min_overlap_sizes(
                                s,
                                subs[idx + 1].tables,
                                subs[idx as int].tables,
                                h,
                                h,
                            );
                        }
                        let ghost moved = sst_views(select_tables@);
                        mark_tables(level_handlers, 0, self.compact_task_id, 0, &select_tables);
                        let mut input_levels: Vec<InputLevel> = Vec::new();
                        input_levels.push(
                            InputLevel {
                                level_idx: 0,
                                level_type: LevelType::Nonoverlapping,
                                table_infos: select_tables,
                            },
                        );
                        input_levels.push(
                            InputLevel {
                                level_idx: 0,
                                level_type: LevelType::Nonoverlapping,
                                table_infos: target_tables,
                            },
                        );
                        let input = CompactionInput {
                            input_levels,
                            target_level: 0,
                            target_sub_level_id: level.sub_level_id,
                        };
                        proof {
                            assert(sst_views(target_tables@) =~= Seq::<SstView>::empty());
                            assert(input@.input_levels =~= move_inputs(moved));
                        }
                        return Some(input);
                    }
                }
            }
            proof {
                assert(!p(idx as int));
            }
            idx = idx + 1;
        }
        proof {
            assert(h == handler_views(old(level_handlers)@)[0]);
        }
        None
    }
}

impl<S: OverlapStrategy + Copy> CompactionPicker for TierCompactionPicker<S> {
    open spec fn pick_requires(&self, levels: LevelsView, handlers: Seq<HandlerView>) -> bool {
        levels_wf(levels.sub_levels) && handlers.len() > 0
    }

    /// A move without rewriting goes before a run of overlapping sub-levels,
    /// and that before a run of non-overlapping ones.
    open spec fn picked(&self, levels: LevelsView, handlers: Seq<HandlerView>) -> Option<
        (CompactionInputView, Seq<HandlerView>),
    > {
        let subs = levels.sub_levels;
        match picked_trivial_move(self.overlap_strategy, self.compact_task_id, subs, handlers) {
            Some(picked) => Some(picked),
            None => match picked_overlapping(*self.config, self.compact_task_id, subs, handlers) {
                Some(picked) => Some(picked),
                None => picked_sharding(*self.config, self.compact_task_id, subs, handlers),
            },
        }
    }

    fn pick_compaction(&self, levels: &Levels, level_handlers: &mut Vec<LevelHandler>) -> (r: Option<
        CompactionInput,
    >) {
        let l0 = &levels.l0;
        let ghost before = level_handlers@;
        if l0.sub_levels.len() == 0 {
            return None;
        }
        let moved = self.pick_trivial_move_file(l0, level_handlers);
        if moved.is_some() {
            return moved;
        }
        proof {
            assert(handler_views(level_handlers@).len() == handler_views(before).len());
        }
        let overlapping = self.pick_overlapping_level(l0, level_handlers);
        if overlapping.is_some() {
            return overlapping;
        }
        proof {
            assert(handler_views(level_handlers@).len() == handler_views(before).len());
        }
        self.pick_sharding_level(l0, level_handlers)
    }
}

/// Picks compactions from level 0 to a lower level.
pub struct LevelCompactionPicker<S> {
    pub compact_task_id: u64,
    pub target_level: usize,
    pub overlap_strategy: S,
    pub config: Arc<CompactionConfig>,
}

/// Which tables of the oldest sub-level and of the target level are read
/// together, if the task rewrites as little as possible.
pub open spec fn level_overlap<S: OverlapStrategy>(s: S, target: int, levels: LevelsView, handlers: Seq<HandlerView>) -> (
    Seq<SstView>,
    Seq<SstView>,
) {
    min_overlap(s, levels.sub_levels[0].tables, levels.levels[target - 1].tables, handlers[0], handlers[target])
}

/// The whole oldest sub-level can move into an empty target level.
pub open spec fn moves_sub_level(target: int, levels: LevelsView, handlers: Seq<HandlerView>) -> bool {
    &&& !handlers[0].any_pending(levels.sub_levels[0].tables)
    &&& levels.levels[target - 1].tables.len() == 0
}

/// How many percent of what it reads from level 0 a task rewrites.
pub open spec fn amplification(select: int, target: int) -> int {
    target * 100 / select
}

/// A hundred times the size of the tables is a 64-bit number.
pub open spec fn percent_fits(tables: Seq<SstView>) -> bool {
    total_size(tables) * 100 <= u64::MAX
}

/// The end of the run of sub-levels that is compacted into the whole target level.
pub open spec fn whole_run(config: CompactionConfig, levels: LevelsView, handlers: Seq<HandlerView>) -> int {
    run_from(levels.sub_levels, handlers[0], 0, config.max_compaction_bytes)
}

/// The inputs of a task that reads a run of sub-levels and the whole target level.
pub open spec fn whole_inputs(config: CompactionConfig, target: u32, levels: LevelsView, handlers: Seq<HandlerView>) -> Seq<
    InputLevelView,
> {
    Seq::new(
        whole_run(config, levels, handlers) as nat,
        |i: int|
            InputLevelView {
                level_idx: 0,
                level_type: LevelType::Nonoverlapping,
                tables: levels.sub_levels[i].tables,
            },
    ).push(
        InputLevelView {
            level_idx: target,
            level_type: LevelType::Nonoverlapping,
            tables: levels.levels[target - 1].tables,
        },
    )
}

/// A task into `target_level` that reads `inputs`.
pub open spec fn level_input(inputs: Seq<InputLevelView>, target_level: usize) -> CompactionInputView {
    CompactionInputView { input_levels: inputs, target_level, target_sub_level_id: 0 }
}

impl<S: OverlapStrategy + Copy> LevelCompactionPicker<S> {
    /// The amplification of the task that rewrites the least.
    pub open spec fn least_amplification(&self, levels: LevelsView, handlers: Seq<HandlerView>) -> int {
        let (select, target) = level_overlap(self.overlap_strategy, self.target_level as int, levels, handlers);
        amplification(total_size(select) as int, total_size(target) as int)
    }

    /// The amplification of a task that reads the whole target level.
    pub open spec fn whole_amplification(&self, levels: LevelsView, handlers: Seq<HandlerView>) -> int {
        amplification(
            recorded_size(levels.sub_levels.subrange(0, whole_run(*self.config, levels, handlers))) as int,
            total_size(levels.levels[self.target_level - 1].tables) as int,
        )
    }

    /// The inputs of a task that reads the whole target level.
    pub open spec fn whole_level_inputs(&self, levels: LevelsView, handlers: Seq<HandlerView>) -> Seq<InputLevelView> {
        whole_inputs(*self.config, self.target_level as u32, levels, handlers)
    }

    /// The oldest sub-level can be compacted at all.
    pub open spec fn applies(&self, levels: LevelsView) -> bool {
        &&& levels.sub_levels.len() > 0
        &&& levels.sub_levels[0].level_type == LevelType::Nonoverlapping
    }

    /// Neither the oldest sub-level nor the target level is being compacted.
    pub open spec fn idle(&self, levels: LevelsView, handlers: Seq<HandlerView>) -> bool {
        &&& !handlers[0].any_pending(levels.sub_levels[0].tables)
        &&& handlers[self.target_level as int].compacting.dom().len() == 0
    }

    /// Amplifications are in percent of what is read from level 0: that is not
    /// empty wherever it is divided by, and a hundred times what is rewritten
    /// is a 64-bit number.
    pub open spec fn amplification_defined(&self, levels: LevelsView, handlers: Seq<HandlerView>) -> bool {
        let (select, target) = level_overlap(self.overlap_strategy, self.target_level as int, levels, handlers);
        self.applies(levels) && !moves_sub_level(self.target_level as int, levels, handlers) && select.len() > 0
            ==> {
            &&& total_size(select) > 0
            &&& percent_fits(target)
            &&& self.least_amplification(levels, handlers) >= MAX_WRITE_AMPLIFICATION && self.idle(
                levels,
                handlers,
            ) ==> {
                &&& recorded_size(levels.sub_levels.subrange(0, whole_run(*self.config, levels, handlers))) > 0
                &&& percent_fits(levels.levels[self.target_level - 1].tables)
            }
        }
    }

    /// A picker of tasks from level 0 to `target_level`.
    pub fn new(compact_task_id: u64, target_level: usize, config: Arc<CompactionConfig>, overlap_strategy: S) -> (r: Self)
        ensures
            r.compact_task_id == compact_task_id,
            r.target_level == target_level,
            r.config == config,
            r.overlap_strategy == overlap_strategy,
    {
        LevelCompactionPicker { compact_task_id, target_level, overlap_strategy, config }
    }

    /// The inputs of the task that rewrites the least; empty if there is none.
    fn pick_min_overlap_tables(&self, l0: &OverlappingLevel, levels: &Vec<Level>, level_handlers: &Vec<LevelHandler>) -> (r: Vec<
        InputLevel,
    >)
        requires
            0 < self.target_level <= levels@.len(),
            self.target_level < level_handlers@.len(),
            self.target_level <= u32::MAX,
            l0.sub_levels@.len() > 0,
            tables_fit(l0.sub_levels@[0]@.tables),
            tables_fit(levels@[self.target_level - 1]@.tables),
        ensures
            ({
                let (select, target) = min_overlap(
                    self.overlap_strategy,
                    l0.sub_levels@[0]@.tables,
                    levels@[self.target_level - 1]@.tables,
                    level_handlers@[0]@,
                    level_handlers@[self.target_level as int]@,
                );
                if select.len() == 0 {
                    r@.len() == 0
                } else {
                    input_level_views(r@) == seq![
                        InputLevelView { level_idx: 0, level_type: l0.sub_levels@[0].level_type, tables: select },
                        InputLevelView {
                            level_idx: self.target_level as u32,
                            level_type: levels@[self.target_level - 1].level_type,
                            tables: target,
                        },
                    ]
                }
            }),
    {
        let picker = MinOverlappingPicker::new(
            self.compact_task_id,
            0,
            self.target_level,
            self.overlap_strategy,
        );
        let (select_tables, target_tables) = picker.pick_tables(
            &l0.sub_levels[0].table_infos,
            &levels[self.target_level - 1].table_infos,
            level_handlers,
        );
        let mut r: Vec<InputLevel> = Vec::new();
        if select_tables.len() == 0 {
            return r;
        }
        let ghost (select, target) = (sst_views(select_tables@), sst_views(target_tables@));
        r.push(
            InputLevel {
                level_idx: 0,
                level_type: l0.sub_levels[0].level_type,
                table_infos: select_tables,
            },
        );
        r.push(
            InputLevel {
                level_idx: self.target_level as u32,
                level_type: levels[self.target_level - 1].level_type,
                table_infos: target_tables,
            },
        );
        proof {
            assert(input_level_views(r@) =~= seq![
                InputLevelView { level_idx: 0, level_type: l0.sub_levels@[0].level_type, tables: select },
                InputLevelView {
                    level_idx: self.target_level as u32,
                    level_type: levels@[self.target_level - 1].level_type,
                    tables: target,
                },
            ]);
        }
        r
    }

    /// The sub-levels `0..end` and the whole target level as inputs.
    fn collect_whole_level(&self, levels: &Levels, end: usize) -> (r: Vec<InputLevel>)
        requires
            end <= levels.l0.sub_levels@.len(),
            0 < self.target_level <= levels.levels@.len(),
            self.target_level <= u32::MAX,
        ensures
            r@.len() == end + 1,
            forall|i: int|
                0 <= i < end ==> (#[trigger] r@[i])@ == (InputLevelView {
                    level_idx: 0,
                    level_type: LevelType::Nonoverlapping,
                    tables: levels@.sub_levels[i].tables,
                }),
            r@[end as int]@ == (InputLevelView {
                level_idx: self.target_level as u32,
                level_type: LevelType::Nonoverlapping,
                tables: levels@.levels[self.target_level - 1].tables,
            }),
    {
        let mut r: Vec<InputLevel> = Vec::new();
        let mut i: usize = 0;
        while i < end
            invariant
                i <= end <= levels.l0.sub_levels@.len(),
                r@.len() == i,
                forall|j: int|
                    0 <= j < i ==> (#[trigger] r@[j])@ == (InputLevelView {
                        level_idx: 0,
                        level_type: LevelType::Nonoverlapping,
                        tables: levels@.sub_levels[j].tables,
                    }),
            decreases end - i,
        {
            let level = &levels.l0.sub_levels[i];
            proof {
                assert(levels@.sub_levels[i as int] == level@);
            }
            r.push(
                InputLevel {
                    level_idx: 0,
                    level_type: LevelType::Nonoverlapping,
                    table_infos: copy_tables(&level.table_infos),
                },
            );
            i = i + 1;
        }
        let base = &levels.levels[self.target_level - 1];
        proof {
            assert(levels@.levels[self.target_level - 1] == base@);
        }
        r.push(
            InputLevel {
                level_idx: self.target_level as u32,
                level_type: LevelType::Nonoverlapping,
                table_infos: copy_tables(&base.table_infos),
            },
        );
        r
    }
}

impl<S: OverlapStrategy + Copy> CompactionPicker for LevelCompactionPicker<S> {
    open spec fn pick_requires(&self, levels: LevelsView, handlers: Seq<HandlerView>) -> bool {
        &&& 0 < self.target_level <= levels.levels.len()
        &&& self.target_level < handlers.len()
        &&& self.target_level <= u32::MAX
        &&& version_wf(levels)
        &&& self.amplification_defined(levels, handlers)
    }

    /// Into an empty level the oldest sub-level moves as it is. Otherwise the
    /// task that rewrites the least is taken if its amplification is low. If
    /// it is high and everything is idle, the whole target level is compacted
    /// together with a run of sub-levels, unless that amplifies even more.
    open spec fn picked(&self, levels: LevelsView, handlers: Seq<HandlerView>) -> Option<
        (CompactionInputView, Seq<HandlerView>),
    > {
        let target = self.target_level as int;
        let (select_tables, target_tables) = level_overlap(self.overlap_strategy, target, levels, handlers);
        let least = self.least_amplification(levels, handlers);
        if !self.applies(levels) {
            None
        } else if moves_sub_level(target, levels, handlers) {
            let tables = levels.sub_levels[0].tables;
            Some(
                (
                    level_input(
                        seq![
                            InputLevelView { level_idx: 0, level_type: LevelType::Nonoverlapping, tables },
                            InputLevelView {
                                level_idx: target as u32,
                                level_type: LevelType::Nonoverlapping,
                                tables: Seq::empty(),
                            },
                        ],
                        self.target_level,
                    ),
                    handlers.update(0, handlers[0].add_task(self.compact_task_id, target as u32, tables)),
                ),
            )
        } else if select_tables.len() == 0 {
            None
        } else if least < MAX_WRITE_AMPLIFICATION {
            let inputs = seq![
                InputLevelView {
                    level_idx: 0,
                    level_type: levels.sub_levels[0].level_type,
                    tables: select_tables,
                },
                InputLevelView {
                    level_idx: target as u32,
                    level_type: levels.levels[target - 1].level_type,
                    tables: target_tables,
                },
            ];
            Some(
                (
                    level_input(inputs, self.target_level),
                    mark_all(handlers, self.compact_task_id, target as u32, inputs),
                ),
            )
        } else if !self.idle(levels, handlers) || least < self.whole_amplification(levels, handlers) {
            None
        } else {
            let inputs = whole_inputs(*self.config, target as u32, levels, handlers);
            Some(
                (
                    level_input(inputs, self.target_level),
                    mark_all(handlers, self.compact_task_id, target as u32, inputs),
                ),
            )
        }
    }

    fn pick_compaction(&self, levels: &Levels, level_handlers: &mut Vec<LevelHandler>) -> (r: Option<
        CompactionInput,
    >) {
        let ghost lv = levels@;
        let ghost hv = handler_views(level_handlers@);
        let ghost (select, target) = level_overlap(self.overlap_strategy, self.target_level as int, lv, hv);
        let l0 = &levels.l0;
        if l0.sub_levels.len() == 0 || l0.sub_levels[0].level_type != LevelType::Nonoverlapping {
            return None;
        }
        let base = &levels.levels[self.target_level - 1];
        proof {
            assert(lv.sub_levels[0] == l0.sub_levels@[0]@);
            assert(lv.levels[self.target_level - 1] == base@);
            assert(tables_fit(lv.sub_levels[0].tables));
            assert(tables_fit(lv.levels[self.target_level - 1].tables));
            assert(hv[0] == level_handlers@[0]@);
            assert(hv[self.target_level as int] == level_handlers@[self.target_level as int]@);
            lemma_min_overlap_sizes(
                self.overlap_strategy,
                lv.sub_levels[0].tables,
                lv.levels[self.target_level - 1].tables,
                hv[0],
                hv[self.target_level as int],
            );
        }
        let is_l0_pending_compact: bool = level_handlers[0].is_level_pending_compact(&l0.sub_levels[0]);
        if !is_l0_pending_compact && base.table_infos.len() == 0 {
            mark_tables(
                level_handlers,
                0,
                self.compact_task_id,
                self.target_level,
                &l0.sub_levels[0].table_infos,
            );
            let mut input_levels: Vec<InputLevel> = Vec::new();
            input_levels.push(
                InputLevel {
                    level_idx: 0,
                    level_type: LevelType::Nonoverlapping,
                    table_infos: copy_tables(&l0.sub_levels[0].table_infos),
                },
            );
            let none: Vec<SstableInfo> = Vec::new();
            proof {
                assert(sst_views(none@) =~= Seq::<SstView>::empty());
            }
            input_levels.push(
                InputLevel {
                    level_idx: self.target_level as u32,
                    level_type: LevelType::Nonoverlapping,
                    table_infos: none,
                },
            );
            let input = CompactionInput {
                input_levels,
                target_level: self.target_level,
                target_sub_level_id: 0,
            };
            proof {
                assert(input@.input_levels =~= self.picked(lv, hv).unwrap().0.input_levels);
            }
            return Some(input);
        }
        let mut input_levels = self.pick_min_overlap_tables(l0, &levels.levels, level_handlers);
        if input_levels.len() == 0 {
            return None;
        }
        proof {
            let views = input_level_views(input_levels@);
            assert(views[0].tables == select && views[1].tables == target);
            assert(input_levels@[0]@ == views[0] && input_levels@[1]@ == views[1]);
        }
        let write_amplification: u64 = cal_file_size(&input_levels[1].table_infos) * 100 / cal_file_size(
            &input_levels[0].table_infos,
        );
        if write_amplification >= MAX_WRITE_AMPLIFICATION {
            if is_l0_pending_compact || level_handlers[self.target_level].get_pending_file_count() != 0 {
                return None;
            }
            let (end, l0_total_file_size) = collect_run(
                &l0.sub_levels,
                &level_handlers[0],
                0,
                self.config.max_compaction_bytes,
            );
            let all_level_amplification: u64 = cal_file_size(&base.table_infos) * 100 / l0_total_file_size;
            if write_amplification < all_level_amplification {
                return None;
            }
            input_levels = self.collect_whole_level(levels, end);
            proof {
                assert(input_level_views(input_levels@) =~= whole_inputs(
                    *self.config,
                    self.target_level as u32,
                    lv,
                    hv,
                ));
            }
        }
        proof {
            assert forall|i: int| 0 <= i < input_levels@.len() implies (#[trigger] input_levels@[i]).level_idx
                < level_handlers@.len() && total_size(input_levels@[i]@.tables) <= u64::MAX by {
                assert(input_levels@[i]@ == input_level_views(input_levels@)[i]);
                if write_amplification >= MAX_WRITE_AMPLIFICATION && i < input_levels@.len() - 1 {
                    assert(tables_fit(lv.sub_levels[i].tables));
                }
            }
        }
        mark_inputs(level_handlers, self.compact_task_id, self.target_level, &input_levels);
        Some(CompactionInput { input_levels, target_level: self.target_level, target_sub_level_id: 0 })
    }
}

/// None of the tables that a task reads is being compacted.
pub open spec fn reads_idle_tables(input: CompactionInputView, handlers: Seq<HandlerView>) -> bool {
    forall|i: int|
        #![trigger input.input_levels[i]]
        0 <= i < input.input_levels.len() ==> !handlers[input.input_levels[i].level_idx as int].any_pending(
            input.input_levels[i].tables,
        )
}

proof fn lemma_run_idle(subs: Seq<LevelView>, handler: HandlerView, bytes: int, max: u64, k: int)
    requires
        0 <= k <= subs.len(),
    ensures
        forall|i: int|
            k <= i < run_end(subs, handler, bytes, max, k) ==> !handler.any_pending((#[trigger] subs[i]).tables),
    decreases subs.len() - k,
{
    if k < subs.len() && bytes < max && !handler.any_pending(subs[k].tables) {
        lemma_run_idle(subs, handler, bytes + subs[k].total_file_size, max, k + 1);
    }
}

/// A compaction within level 0 reads no table that another task reads.
pub proof fn law_tier_task_reads_idle_tables<S: OverlapStrategy + Copy>(
    picker: TierCompactionPicker<S>,
    levels: LevelsView,
    handlers: Seq<HandlerView>,
)
    requires
        picker.picked(levels, handlers) is Some,
    ensures
        reads_idle_tables(picker.picked(levels, handlers).unwrap().0, handlers),
{
    let config = *picker.config;
    let subs = levels.sub_levels;
    let s = picker.overlap_strategy;
    let h = handlers[0];
    let n = subs.len() as int;
    let input = picker.picked(levels, handlers).unwrap().0;
    let p_move = |i: int| trivial_move_candidate(s, subs, h, i);
    let p_over = |i: int| overlapping_candidate(config, subs, h, i);
    let p_shard = |i: int| sharding_candidate(config, subs, h, i);
    lemma_first_from(p_move, 0, n);
    lemma_first_from(p_over, 0, n);
    lemma_first_from(p_shard, 0, n);
    if let Some(idx) = first_from(p_move, 0, n) {
        law_min_overlap_avoids_pending(s, subs[idx + 1].tables, subs[idx].tables, h, h);
    } else {
        let (idx, max) = match first_from(p_over, 0, n) {
            Some(idx) => (
                idx,
                min_u64(config.max_compaction_bytes, config.sub_level_max_compaction_bytes),
            ),
            None => (
                first_from(p_shard, 0, n).unwrap(),
                min_u64(config.max_compaction_bytes, config.max_bytes_for_level_base),
            ),
        };
        lemma_run_end_bounds(subs, h, subs[idx].total_file_size as int, max, idx + 1);
        lemma_run_idle(subs, h, subs[idx].total_file_size as int, max, idx + 1);
        let end = run_from(subs, h, idx, max);
        let inputs = sub_level_inputs(subs, idx, end);
        assert(input.input_levels == inputs);
        assert forall|i: int| 0 <= i < inputs.len() implies !h.any_pending((#[trigger] inputs[i]).tables) by {
            assert(inputs[i].tables == subs[idx + i].tables);
        }
    }
}

/// A compaction from level 0 to a lower level reads no table that another task reads.
pub proof fn law_level_task_reads_idle_tables<S: OverlapStrategy + Copy>(
    picker: LevelCompactionPicker<S>,
    levels: LevelsView,
    handlers: Seq<HandlerView>,
)
    requires
        0 < picker.target_level < handlers.len(),
        picker.target_level <= u32::MAX,
        handlers[picker.target_level as int].compacting.dom().finite(),
        picker.picked(levels, handlers) is Some,
    ensures
        reads_idle_tables(picker.picked(levels, handlers).unwrap().0, handlers),
{
    let subs = levels.sub_levels;
    let t = picker.target_level as int;
    let lower = levels.levels[t - 1].tables;
    let input = picker.picked(levels, handlers).unwrap().0;
    law_min_overlap_avoids_pending(picker.overlap_strategy, subs[0].tables, lower, handlers[0], handlers[t]);
    if !moves_sub_level(t, levels, handlers) && picker.least_amplification(levels, handlers)
        >= MAX_WRITE_AMPLIFICATION {
        let inputs = picker.whole_level_inputs(levels, handlers);
        let max = picker.config.max_compaction_bytes;
        lemma_run_end_bounds(subs, handlers[0], subs[0].total_file_size as int, max, 1);
        lemma_run_idle(subs, handlers[0], subs[0].total_file_size as int, max, 1);
        assert(handlers[t].compacting.dom() =~= Set::empty());
        assert forall|i: int|
            #![trigger inputs[i]]
            0 <= i < inputs.len() implies !handlers[inputs[i].level_idx as int].any_pending(inputs[i].tables) by {
            if i < inputs.len() - 1 {
                assert(inputs[i].tables == subs[i].tables);
            } else {
                assert forall|j: int| 0 <= j < lower.len() implies !handlers[t].is_pending(#[trigger] lower[j].id) by {
                    assert(!handlers[t].compacting.dom().contains(lower[j].id));
                }
            }
        }
    }
}

/// A compaction from level 0 reads every table of the target level that
/// overlaps a table which it reads from the oldest sub-level.
pub proof fn law_level_task_reads_all_overlapped<S: OverlapStrategy + Copy>(
    picker: LevelCompactionPicker<S>,
    levels: LevelsView,
    handlers: Seq<HandlerView>,
    table: SstView,
    target: SstView,
)
    requires
        0 < picker.target_level < handlers.len(),
        picker.target_level <= u32::MAX,
        picker.target_level <= levels.levels.len(),
        picker.picked(levels, handlers) is Some,
        picker.picked(levels, handlers).unwrap().0.input_levels[0].tables.contains(table),
        levels.levels[picker.target_level - 1].tables.contains(target),
        picker.overlap_strategy.overlaps(table, target),
    ensures
        picker.picked(levels, handlers).unwrap().0.input_levels.last().tables.contains(target),
{
    let t = picker.target_level as int;
    let subs = levels.sub_levels;
    let lower = levels.levels[t - 1].tables;
    if !moves_sub_level(t, levels, handlers) && picker.least_amplification(levels, handlers)
        < MAX_WRITE_AMPLIFICATION {
        let s = picker.overlap_strategy;
        let (select, reads) = min_overlap(s, subs[0].tables, lower, handlers[0], handlers[t]);
        let i = choose|i: int| is_choice(s, subs[0].tables, lower, handlers[0], handlers[t], i);
        assert(select == seq![subs[0].tables[i]]);
        assert(table == subs[0].tables[i]);
        let p = |x: SstView| s.overlaps(table, x);
        broadcast use vstd::seq_lib::group_filter_ensures;

        let j = choose|j: int| 0 <= j < lower.len() && lower[j] == target;
        assert(p(lower[j]));
        assert(reads == lower.filter(p));
        assert(reads.contains(target));
    }
}

/// What a compaction within level 0 reads: either one table of a sub-level that overlaps nothing
/// in the sub-level below it, into which it moves; or a run of sub-levels with at least as many
/// tables as a compaction takes, which starts with the sub-level into which it writes. A run that
/// starts with a sub-level without overlap takes more than half as many sub-levels, and only if
/// that sub-level is not too large.
pub proof fn law_tier_task_is_move_or_run<S: OverlapStrategy + Copy>(
    picker: TierCompactionPicker<S>,
    levels: LevelsView,
    handlers: Seq<HandlerView>,
)
    requires
        picker.picked(levels, handlers) is Some,
    ensures
        ({
            let input = picker.picked(levels, handlers).unwrap().0;
            let subs = levels.sub_levels;
            let number = picker.config.level0_tier_compact_file_number;
            &&& input.target_level == 0
            &&& exists|idx: int, n: int|
                #![trigger subs.subrange(idx, n)]
                {
                    &&& 0 <= idx < n <= subs.len()
                    &&& input.target_sub_level_id == subs[idx].sub_level_id
                    &&& {
                        ||| {
                            &&& n == idx + 2
                            &&& subs[idx].level_type == LevelType::Nonoverlapping
                            &&& subs[idx + 1].level_type == LevelType::Nonoverlapping
                            &&& input.input_levels.len() == 2
                            &&& input.input_levels[0].tables.len() == 1
                            &&& subs[idx + 1].tables.contains(input.input_levels[0].tables[0])
                            &&& input.input_levels[1].tables.len() == 0
                            &&& forall|k: int|
                                0 <= k < subs[idx].tables.len() ==> !picker.overlap_strategy.overlaps(
                                    input.input_levels[0].tables[0],
                                    #[trigger] subs[idx].tables[k],
                                )
                        }
                        ||| {
                            &&& input.input_levels.len() == n - idx
                            &&& forall|i: int|
                                0 <= i < n - idx ==> (#[trigger] input.input_levels[i]).tables == subs[idx + i].tables
                                    && input.input_levels[i].level_type == subs[idx + i].level_type
                            &&& table_count(subs.subrange(idx, n)) >= number
                            &&& subs[idx].level_type == LevelType::Nonoverlapping ==> {
                                &&& n - idx > number / 2
                                &&& subs[idx].total_file_size <= picker.config.sub_level_max_compaction_bytes
                            }
                        }
                    }
                }
        }),
{
    broadcast use vstd::seq_lib::group_filter_ensures;

    let config = *picker.config;
    let subs = levels.sub_levels;
    let s = picker.overlap_strategy;
    let h = handlers[0];
    let n = subs.len() as int;
    let input = picker.picked(levels, handlers).unwrap().0;
    let p_move = |i: int| trivial_move_candidate(s, subs, h, i);
    let p_over = |i: int| overlapping_candidate(config, subs, h, i);
    let p_shard = |i: int| sharding_candidate(config, subs, h, i);
    lemma_first_from(p_move, 0, n);
    lemma_first_from(p_over, 0, n);
    lemma_first_from(p_shard, 0, n);
    if let Some(idx) = first_from(p_move, 0, n) {
        let (upper, lower) = (subs[idx + 1].tables, subs[idx].tables);
        let i = choose|i: int| is_choice(s, upper, lower, h, h, i);
        let p = |t: SstView| s.overlaps(upper[i], t);
        assert(input.input_levels[0].tables =~= seq![upper[i]]);
        assert forall|k: int| 0 <= k < lower.len() implies !s.overlaps(upper[i], #[trigger] lower[k]) by {
            if s.overlaps(upper[i], lower[k]) {
                assert(p(lower[k]));
                assert(lower.filter(p).contains(lower[k]));
            }
        }
        assert(subs.subrange(idx, idx + 2).len() == 2);
    } else {
        let (idx, max) = match first_from(p_over, 0, n) {
            Some(idx) => (
                idx,
                min_u64(config.max_compaction_bytes, config.sub_level_max_compaction_bytes),
            ),
            None => (
                first_from(p_shard, 0, n).unwrap(),
                min_u64(config.max_compaction_bytes, config.max_bytes_for_level_base),
            ),
        };
        lemma_run_end_bounds(subs, h, subs[idx].total_file_size as int, max, idx + 1);
        let end = run_from(subs, h, idx, max);
        let inputs = sub_level_inputs(subs, idx, end);
        assert(input.input_levels == inputs);
        assert(table_count(subs.subrange(idx, end)) >= config.level0_tier_compact_file_number);
    }
}

/// A compaction from level 0 that reads only what one table overlaps rewrites less than half as
/// much again as it reads from level 0. The whole target level is read only if that would be
/// exceeded, and if reading the whole level does not rewrite more in proportion.
pub proof fn law_level_task_limits_rewriting<S: OverlapStrategy + Copy>(
    picker: LevelCompactionPicker<S>,
    levels: LevelsView,
    handlers: Seq<HandlerView>,
)
    requires
        picker.pick_requires(levels, handlers),
        picker.picked(levels, handlers) is Some,
    ensures
        ({
            let input = picker.picked(levels, handlers).unwrap().0;
            let subs = levels.sub_levels;
            let lower = levels.levels[picker.target_level - 1].tables;
            let (select, target) = min_overlap(
                picker.overlap_strategy,
                subs[0].tables,
                lower,
                handlers[0],
                handlers[picker.target_level as int],
            );
            let n = input.input_levels.len() as int;
            &&& input.target_level == picker.target_level
            &&& n >= 2
            &&& input.input_levels[0].level_idx == 0
            &&& input.input_levels[n - 1].level_idx == picker.target_level
            &&& {
                ||| lower.len() == 0 && input.input_levels[0].tables == subs[0].tables && input.input_levels[1].tables.len()
                    == 0
                ||| input.input_levels[0].tables == select && input.input_levels[1].tables == target && (total_size(target)
                    * 100 / total_size(select)) < 150
                ||| (total_size(target) * 100 / total_size(select)) >= 150
                    && input.input_levels[n - 1].tables == lower && (forall|i: int|
                    0 <= i < n - 1 ==> (#[trigger] input.input_levels[i]).tables == subs[i].tables) && (total_size(lower)
                    * 100 / recorded_size(subs.subrange(0, n - 1))) <= (total_size(target) * 100 / total_size(select))
            }
        }),
{
    let subs = levels.sub_levels;
    let t = picker.target_level as int;
    let input = picker.picked(levels, handlers).unwrap().0;
    let max = picker.config.max_compaction_bytes;
    lemma_run_end_bounds(subs, handlers[0], subs[0].total_file_size as int, max, 1);
    let run = run_from(subs, handlers[0], 0, max);
    if !moves_sub_level(t, levels, handlers) && picker.least_amplification(levels, handlers)
        >= MAX_WRITE_AMPLIFICATION {
        let inputs = picker.whole_level_inputs(levels, handlers);
        assert(input.input_levels == inputs);
        assert(inputs.len() == run + 1);
    }
}

/// Where there is a task within level 0 there is always one found: without a task no sub-level
/// starts a run that is worth compacting, and no table can move down.
pub proof fn law_no_tier_task_is_missed<S: OverlapStrategy + Copy>(
    picker: TierCompactionPicker<S>,
    levels: LevelsView,
    handlers: Seq<HandlerView>,
    idx: int,
)
    requires
        picker.picked(levels, handlers) is None,
        0 <= idx < levels.sub_levels.len(),
        !handlers[0].any_pending(levels.sub_levels[idx].tables),
    ensures
        ({
            let subs = levels.sub_levels;
            let config = picker.config;
            let max = if subs[idx].level_type == LevelType::Overlapping {
                min_u64(config.max_compaction_bytes, config.sub_level_max_compaction_bytes)
            } else {
                min_u64(config.max_compaction_bytes, config.max_bytes_for_level_base)
            };
            let end = run_from(subs, handlers[0], idx, max);
            let few = table_count(subs.subrange(idx, end)) < config.level0_tier_compact_file_number;
            if subs[idx].level_type == LevelType::Overlapping {
                few
            } else {
                ||| few
                ||| end - idx <= config.level0_tier_compact_file_number / 2
                ||| subs[idx].total_file_size > config.sub_level_max_compaction_bytes
            }
        }),
{
    let config = *picker.config;
    let subs = levels.sub_levels;
    let h = handlers[0];
    let n = subs.len() as int;
    let p_move = |i: int| trivial_move_candidate(picker.overlap_strategy, subs, h, i);
    let p_over = |i: int| overlapping_candidate(config, subs, h, i);
    let p_shard = |i: int| sharding_candidate(config, subs, h, i);
    lemma_first_from(p_move, 0, n);
    lemma_first_from(p_over, 0, n);
    lemma_first_from(p_shard, 0, n);
    assert(!p_over(idx) && !p_shard(idx));
}

/// The handlers know of the task within level 0 that was picked.
pub proof fn law_tier_task_is_counted<S: OverlapStrategy + Copy>(
    picker: TierCompactionPicker<S>,
    levels: LevelsView,
    handlers: Seq<HandlerView>,
)
    requires
        picker.pick_requires(levels, handlers),
        picker.picked(levels, handlers) is Some,
    ensures
        ({
            let (input, marked) = picker.picked(levels, handlers).unwrap();
            counts_task(input.input_levels, 0, handlers, marked)
        }),
{
    let config = *picker.config;
    let subs = levels.sub_levels;
    let s = picker.overlap_strategy;
    let h = handlers[0];
    let n = subs.len() as int;
    let (input, marked) = picker.picked(levels, handlers).unwrap();
    let inputs = input.input_levels;
    let p_move = |i: int| trivial_move_candidate(s, subs, h, i);
    let p_over = |i: int| overlapping_candidate(config, subs, h, i);
    let p_shard = |i: int| sharding_candidate(config, subs, h, i);
    lemma_first_from(p_move, 0, n);
    lemma_first_from(p_over, 0, n);
    lemma_first_from(p_shard, 0, n);
    if let Some(idx) = first_from(p_move, 0, n) {
        lemma_min_overlap_sizes(s, subs[idx + 1].tables, subs[idx].tables, h, h);
        assert(tables_fit(subs[idx + 1].tables) && tables_fit(subs[idx].tables));
        lemma_one_input_counts(handlers, picker.compact_task_id, 0, inputs[0]);
        lemma_empty_input_counts(seq![inputs[0]], 0, handlers, marked, inputs[1]);
        assert(seq![inputs[0]].push(inputs[1]) =~= inputs);
    } else {
        let (idx, max) = match first_from(p_over, 0, n) {
            Some(idx) => (
                idx,
                min_u64(config.max_compaction_bytes, config.sub_level_max_compaction_bytes),
            ),
            None => (
                first_from(p_shard, 0, n).unwrap(),
                min_u64(config.max_compaction_bytes, config.max_bytes_for_level_base),
            ),
        };
        lemma_run_end_bounds(subs, h, subs[idx].total_file_size as int, max, idx + 1);
        assert forall|i: int| 0 <= i < inputs.len() implies (#[trigger] inputs[i]).level_idx < handlers.len() && total_size(
            inputs[i].tables,
        ) <= u64::MAX by {
            assert(tables_fit(subs[idx + i].tables));
        }
        law_marked_inputs_are_counted(handlers, picker.compact_task_id, 0, inputs);
    }
}

/// The handlers know of the task from level 0 to a lower level that was picked.
pub proof fn law_level_task_is_counted<S: OverlapStrategy + Copy>(
    picker: LevelCompactionPicker<S>,
    levels: LevelsView,
    handlers: Seq<HandlerView>,
)
    requires
        picker.pick_requires(levels, handlers),
        picker.picked(levels, handlers) is Some,
    ensures
        ({
            let (input, marked) = picker.picked(levels, handlers).unwrap();
            counts_task(input.input_levels, picker.target_level as int, handlers, marked)
        }),
{
    let subs = levels.sub_levels;
    let t = picker.target_level as int;
    let lower = levels.levels[t - 1].tables;
    let (input, marked) = picker.picked(levels, handlers).unwrap();
    let inputs = input.input_levels;
    assert(tables_fit(subs[0].tables) && tables_fit(lower));
    lemma_min_overlap_sizes(picker.overlap_strategy, subs[0].tables, lower, handlers[0], handlers[t]);
    if moves_sub_level(t, levels, handlers) {
        lemma_one_input_counts(handlers, picker.compact_task_id, t as u32, inputs[0]);
        lemma_empty_input_counts(seq![inputs[0]], t, handlers, marked, inputs[1]);
        assert(seq![inputs[0]].push(inputs[1]) =~= inputs);
    } else {
        let max = picker.config.max_compaction_bytes;
        lemma_run_end_bounds(subs, handlers[0], subs[0].total_file_size as int, max, 1);
        assert forall|i: int| 0 <= i < inputs.len() implies (#[trigger] inputs[i]).level_idx < handlers.len() && total_size(
            inputs[i].tables,
        ) <= u64::MAX by {
            if picker.least_amplification(levels, handlers) >= MAX_WRITE_AMPLIFICATION && i < inputs.len() - 1 {
                assert(tables_fit(subs[i].tables));
            }
        }
        law_marked_inputs_are_counted(handlers, picker.compact_task_id, t as u32, inputs);
    }
}

/// A table of the next sub-level can move into a sub-level: neither has overlapping tables, and the table that
/// overlaps least overlaps nothing there.
pub open spec fn table_can_move<S: OverlapStrategy>(s: S, subs: Seq<LevelView>, handler: HandlerView, idx: int) -> bool {
    &&& 0 <= idx < subs.len() - 1
    &&& subs[idx].level_type == LevelType::Nonoverlapping
    &&& subs[idx + 1].level_type == LevelType::Nonoverlapping
    &&& min_overlap(s, subs[idx + 1].tables, subs[idx].tables, handler, handler).0.len() > 0
    &&& min_overlap(s, subs[idx + 1].tables, subs[idx].tables, handler, handler).1.len() == 0
}

/// How far a run of sub-levels goes that begins at `idx`.
pub open spec fn run_to(config: CompactionConfig, subs: Seq<LevelView>, handler: HandlerView, idx: int) -> int {
    let own = if subs[idx].level_type == LevelType::Overlapping {
        config.sub_level_max_compaction_bytes
    } else {
        config.max_bytes_for_level_base
    };
    run_from(
        subs,
        handler,
        idx,
        if own < config.max_compaction_bytes {
            own
        } else {
            config.max_compaction_bytes
        },
    )
}

/// A run of sub-levels that begins at `idx` is worth a task: it is idle, it has enough tables, and, if the
/// tables of the first sub-level do not overlap, that one is not too large and there are enough sub-levels.
pub open spec fn run_is_ready(config: CompactionConfig, subs: Seq<LevelView>, handler: HandlerView, idx: int) -> bool {
    let end = run_to(config, subs, handler, idx);
    &&& 0 <= idx < subs.len()
    &&& !handler.any_pending(subs[idx].tables)
    &&& table_count(subs.subrange(idx, end)) >= config.level0_tier_compact_file_number
    &&& subs[idx].level_type == LevelType::Nonoverlapping ==> {
        &&& subs[idx].total_file_size <= config.sub_level_max_compaction_bytes
        &&& end - idx > config.level0_tier_compact_file_number / 2
    }
}

/// Within level 0 moving a table comes first, then a run of sub-levels that begins with one whose tables
/// overlap, and then one that begins with one whose tables do not; of several the first one is taken.
pub proof fn law_cheapest_tier_task_comes_first<S: OverlapStrategy + Copy>(
    picker: TierCompactionPicker<S>,
    levels: LevelsView,
    handlers: Seq<HandlerView>,
    idx: int,
)
    ensures
        ({
            let subs = levels.sub_levels;
            let h = handlers[0];
            let s = picker.overlap_strategy;
            let config = *picker.config;
            let picked = picker.picked(levels, handlers);
            let no_move = forall|j: int| !#[trigger] table_can_move(s, subs, h, j);
            let end = run_to(config, subs, h, idx);
            let takes_run = picked is Some && picked.unwrap().0.target_sub_level_id == subs[idx].sub_level_id
                && picked.unwrap().0.input_levels.len() == end - idx && forall|i: int|
                0 <= i < end - idx ==> (#[trigger] picked.unwrap().0.input_levels[i]).tables == subs[idx + i].tables;
            &&& table_can_move(s, subs, h, idx) && (forall|j: int| 0 <= j < idx ==> !#[trigger] table_can_move(s, subs, h, j))
                ==> picked is Some && picked.unwrap().0.target_sub_level_id == subs[idx].sub_level_id
                && picked.unwrap().0.input_levels.len() == 2 && picked.unwrap().0.input_levels[0].tables == min_overlap(
                s,
                subs[idx + 1].tables,
                subs[idx].tables,
                h,
                h,
            ).0
            &&& no_move && run_is_ready(config, subs, h, idx) && subs[idx].level_type == LevelType::Overlapping && (forall|j: int|
                0 <= j < idx && #[trigger] run_is_ready(config, subs, h, j) ==> subs[j].level_type
                    == LevelType::Nonoverlapping) ==> takes_run
            &&& no_move && run_is_ready(config, subs, h, idx) && subs[idx].level_type == LevelType::Nonoverlapping && (
            forall|j: int| #[trigger]
                run_is_ready(config, subs, h, j) ==> subs[j].level_type == LevelType::Nonoverlapping && j >= idx)
                ==> takes_run
        }),
{
    let config = *picker.config;
    let subs = levels.sub_levels;
    let s = picker.overlap_strategy;
    let h = handlers[0];
    let n = subs.len() as int;
    let p_move = |i: int| trivial_move_candidate(s, subs, h, i);
    let p_over = |i: int| overlapping_candidate(config, subs, h, i);
    let p_shard = |i: int| sharding_candidate(config, subs, h, i);
    lemma_first_from(p_move, 0, n);
    lemma_first_from(p_over, 0, n);
    lemma_first_from(p_shard, 0, n);
    assert forall|i: int| 0 <= i < n implies #[trigger] p_move(i) == table_can_move(s, subs, h, i) by {}
    assert forall|i: int| 0 <= i < n implies #[trigger] p_over(i) == (run_is_ready(config, subs, h, i) && subs[i].level_type
        == LevelType::Overlapping) by {}
    assert forall|i: int| 0 <= i < n implies #[trigger] p_shard(i) == (run_is_ready(config, subs, h, i)
        && subs[i].level_type == LevelType::Nonoverlapping) by {}
    if 0 <= idx < n {
        let max = min_u64(config.max_compaction_bytes, config.sub_level_max_compaction_bytes);
        let max_base = min_u64(config.max_compaction_bytes, config.max_bytes_for_level_base);
        lemma_run_end_bounds(subs, h, subs[idx].total_file_size as int, max, idx + 1);
        lemma_run_end_bounds(subs, h, subs[idx].total_file_size as int, max_base, idx + 1);
        assert(p_move(idx) == table_can_move(s, subs, h, idx));
        assert(p_over(idx) == (run_is_ready(config, subs, h, idx) && subs[idx].level_type == LevelType::Overlapping));
        assert(p_shard(idx) == (run_is_ready(config, subs, h, idx) && subs[idx].level_type
            == LevelType::Nonoverlapping));
    }
}

/// A task from level 0 is found unless the oldest sub-level has overlapping tables, no table of it can be read, or
/// every way to read tables would rewrite too much.
pub proof fn law_no_level_task_is_missed<S: OverlapStrategy + Copy>(
    picker: LevelCompactionPicker<S>,
    levels: LevelsView,
    handlers: Seq<HandlerView>,
)
    requires
        picker.pick_requires(levels, handlers),
        levels.sub_levels.len() > 0,
        levels.sub_levels[0].level_type == LevelType::Nonoverlapping,
        picker.picked(levels, handlers) is None,
    ensures
        ({
            let subs = levels.sub_levels;
            let t = picker.target_level as int;
            let lower = levels.levels[t - 1].tables;
            let (select, target) = min_overlap(picker.overlap_strategy, subs[0].tables, lower, handlers[0], handlers[t]);
            let end = run_from(subs, handlers[0], 0, picker.config.max_compaction_bytes);
            let least = total_size(target) * 100 / total_size(select);
            &&& lower.len() > 0 || handlers[0].any_pending(subs[0].tables)
            &&& {
                ||| select.len() == 0
                ||| least >= 150 && (handlers[0].any_pending(subs[0].tables) || handlers[t].compacting.dom().len() > 0
                    || least < total_size(lower) * 100 / recorded_size(subs.subrange(0, end)))
            }
        }),
{
}

} // verus!

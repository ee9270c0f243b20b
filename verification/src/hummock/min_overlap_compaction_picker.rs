//! Picks the table that rewrites the least of the next level for its size.

use vstd::prelude::*;

use crate::hummock::level_handler::{HandlerView, LevelHandler};
use crate::hummock::overlap_strategy::OverlapStrategy;
use crate::hummock::picker::{
    counts_task, handler_views, keys_wf, law_marked_inputs_are_counted, lemma_empty_input_counts,
    lemma_one_input_counts, levels_wf, mark_all, mark_tables, tables_fit, CompactionPicker,
};
use crate::hummock::version::{
    lemma_total_size_filter, lemma_total_size_member, lemma_total_size_push, sst_views, total_size,
    CompactionInput, CompactionInputView, InputLevel, InputLevelView, LevelType, Levels,
    LevelsView, SstView, SstableInfo,
};

verus! {

/// Picks one table of a level, and the tables of the target level that overlap it.
pub struct MinOverlappingPicker<S> {
    pub compact_task_id: u64,
    pub level: usize,
    pub target_level: usize,
    pub overlap_strategy: S,
}

/// The tables of `targets` that overlap `table`.
pub open spec fn overlapped<S: OverlapStrategy>(s: S, table: SstView, targets: Seq<SstView>) -> Seq<SstView> {
    targets.filter(|t: SstView| s.overlaps(table, t))
}

/// Table `i` may be picked: neither it nor any target table that it overlaps
/// is being compacted.
pub open spec fn pickable<S: OverlapStrategy>(
    s: S,
    tables: Seq<SstView>,
    targets: Seq<SstView>,
    handler: HandlerView,
    target_handler: HandlerView,
    i: int,
) -> bool {
    &&& 0 <= i < tables.len()
    &&& !handler.is_pending(tables[i].id)
    &&& !target_handler.any_pending(overlapped(s, tables[i], targets))
}

/// How much of the target level is rewritten per byte of the table, in percent.
pub open spec fn overlap_score<S: OverlapStrategy>(s: S, table: SstView, targets: Seq<SstView>) -> int {
    total_size(overlapped(s, table, targets)) as int * 100 / (table.file_size as int + 1)
}

/// Table `i` is a better choice than table `j`: a lower score; at equal scores
/// a smaller table; at equal sizes the earlier one.
pub open spec fn better<S: OverlapStrategy>(s: S, tables: Seq<SstView>, targets: Seq<SstView>, i: int, j: int) -> bool {
    let (a, b) = (overlap_score(s, tables[i], targets), overlap_score(s, tables[j], targets));
    ||| a < b
    ||| a == b && tables[i].file_size < tables[j].file_size
    ||| a == b && tables[i].file_size == tables[j].file_size && i < j
}

/// Table `i` is the best one that may be picked.
pub open spec fn is_choice<S: OverlapStrategy>(
    s: S,
    tables: Seq<SstView>,
    targets: Seq<SstView>,
    handler: HandlerView,
    target_handler: HandlerView,
    i: int,
) -> bool {
    &&& pickable(s, tables, targets, handler, target_handler, i)
    &&& forall|j: int|
        #![trigger pickable(s, tables, targets, handler, target_handler, j)]
        pickable(s, tables, targets, handler, target_handler, j) && j != i ==> better(s, tables, targets, i, j)
}

/// What is picked: one table and the target tables that it overlaps, or nothing.
pub open spec fn min_overlap<S: OverlapStrategy>(
    s: S,
    tables: Seq<SstView>,
    targets: Seq<SstView>,
    handler: HandlerView,
    target_handler: HandlerView,
) -> (Seq<SstView>, Seq<SstView>) {
    if exists|i: int| is_choice(s, tables, targets, handler, target_handler, i) {
        let i = choose|i: int| is_choice(s, tables, targets, handler, target_handler, i);
        (seq![tables[i]], overlapped(s, tables[i], targets))
    } else {
        (Seq::empty(), Seq::empty())
    }
}

/// A best table determines what is picked.
pub proof fn lemma_choice_unique<S: OverlapStrategy>(
    s: S,
    tables: Seq<SstView>,
    targets: Seq<SstView>,
    handler: HandlerView,
    target_handler: HandlerView,
    i: int,
)
    requires
        is_choice(s, tables, targets, handler, target_handler, i),
    ensures
        min_overlap(s, tables, targets, handler, target_handler) == (
            seq![tables[i]],
            overlapped(s, tables[i], targets),
        ),
{
    let k = choose|k: int| is_choice(s, tables, targets, handler, target_handler, k);
    assert(is_choice(s, tables, targets, handler, target_handler, k));
    assert(pickable(s, tables, targets, handler, target_handler, k));
    assert(pickable(s, tables, targets, handler, target_handler, i));
}

/// A task never reads a table that another task reads already.
pub proof fn law_min_overlap_avoids_pending<S: OverlapStrategy>(
    s: S,
    tables: Seq<SstView>,
    targets: Seq<SstView>,
    handler: HandlerView,
    target_handler: HandlerView,
)
    ensures
        ({
            let (select, target) = min_overlap(s, tables, targets, handler, target_handler);
            !handler.any_pending(select) && !target_handler.any_pending(target)
        }),
{
}

proof fn lemma_filter_step(targets: Seq<SstView>, p: spec_fn(SstView) -> bool, n: int)
    requires
        0 <= n < targets.len(),
    ensures
        targets.subrange(0, n + 1).filter(p) == if p(targets[n]) {
            targets.subrange(0, n).filter(p).push(targets[n])
        } else {
            targets.subrange(0, n).filter(p)
        },
{
    reveal(Seq::filter);
    assert(targets.subrange(0, n + 1).drop_last() =~= targets.subrange(0, n));
}

proof fn lemma_filter_prefix_size(targets: Seq<SstView>, p: spec_fn(SstView) -> bool, n: int)
    requires
        0 <= n <= targets.len(),
    ensures
        total_size(targets.subrange(0, n).filter(p)) <= total_size(targets.filter(p)),
    decreases targets.len() - n,
{
    if n < targets.len() {
        lemma_filter_step(targets, p, n);
        if p(targets[n]) {
            lemma_total_size_push(targets.subrange(0, n).filter(p), targets[n]);
        }
        lemma_filter_prefix_size(targets, p, n + 1);
    } else {
        assert(targets.subrange(0, n) =~= targets);
    }
}

proof fn lemma_filter_member(targets: Seq<SstView>, p: spec_fn(SstView) -> bool, n: int, m: int)
    requires
        0 <= n < m <= targets.len(),
        p(targets[n]),
    ensures
        exists|k: int| 0 <= k < targets.subrange(0, m).filter(p).len() && #[trigger] targets.subrange(0, m).filter(p)[k] == targets[n],
    decreases m,
{
    lemma_filter_step(targets, p, m - 1);
    let long = targets.subrange(0, m).filter(p);
    if n == m - 1 {
        assert(long[long.len() - 1] == targets[n]);
    } else {
        lemma_filter_member(targets, p, n, m - 1);
        let short = targets.subrange(0, m - 1).filter(p);
        let k = choose|k: int| 0 <= k < short.len() && #[trigger] short[k] == targets[n];
        assert(long[k] == targets[n]);
    }
}

impl<S: OverlapStrategy> MinOverlappingPicker<S> {
    /// A picker from `level` to `target_level`.
    pub fn new(compact_task_id: u64, level: usize, target_level: usize, overlap_strategy: S) -> (r: Self)
        ensures
            r.compact_task_id == compact_task_id,
            r.level == level,
            r.target_level == target_level,
            r.overlap_strategy == overlap_strategy,
    {
        MinOverlappingPicker { compact_task_id, level, target_level, overlap_strategy }
    }

    /// The size of the target tables that `table` overlaps; nothing if one of
    /// them is being compacted.
    pub fn idle_overlap_size(&self, table: &SstableInfo, target_tables: &Vec<SstableInfo>, target_handler: &LevelHandler) -> (r: Option<u64>)
        requires
            table@.key_range.wf(),
            tables_fit(sst_views(target_tables@)),
        ensures
            match r {
                None => target_handler@.any_pending(
                    overlapped(self.overlap_strategy, table@, sst_views(target_tables@)),
                ),
                Some(n) => !target_handler@.any_pending(
                    overlapped(self.overlap_strategy, table@, sst_views(target_tables@)),
                ) && n == total_size(overlapped(self.overlap_strategy, table@, sst_views(target_tables@))),
            },
    {
        let ghost targets = sst_views(target_tables@);
        let ghost p = |t: SstView| self.overlap_strategy.overlaps(table@, t);
        let mut total: u64 = 0;
        let mut i: usize = 0;
        proof {
            reveal(Seq::filter);
            assert(targets.subrange(0, 0).filter(p) =~= Seq::<SstView>::empty());
            lemma_total_size_filter(targets, p);
        }
        while i < target_tables.len()
            invariant
                targets == sst_views(target_tables@),
                p == (|t: SstView| self.overlap_strategy.overlaps(table@, t)),
                table@.key_range.wf(),
                tables_fit(targets),
                i <= target_tables@.len(),
                total_size(targets.filter(p)) <= u64::MAX,
                total == total_size(targets.subrange(0, i as int).filter(p)),
                !target_handler@.any_pending(targets.subrange(0, i as int).filter(p)),
            decreases target_tables@.len() - i,
        {
            let other = &target_tables[i];
            proof {
                assert(targets[i as int] == other@);
                lemma_filter_step(targets, p, i as int);
                lemma_filter_prefix_size(targets, p, i + 1);
                if p(targets[i as int]) {
                    lemma_total_size_push(targets.subrange(0, i as int).filter(p), targets[i as int]);
                }
            }
            if self.overlap_strategy.check_overlap(table, other) {
                if target_handler.is_pending_compact(&other.id) {
                    proof {
                        lemma_filter_member(targets, p, i as int, targets.len() as int);
                        assert(targets.subrange(0, targets.len() as int) =~= targets);
                        let all = targets.filter(p);
                        let k = choose|k: int| 0 <= k < all.len() && #[trigger] all[k] == targets[i as int];
                        assert(target_handler@.is_pending(all[k].id));
                    }
                    return None;
                }
                total = total + other.file_size;
                proof {
                    let short = targets.subrange(0, i as int).filter(p);
                    let long = targets.subrange(0, i + 1).filter(p);
                    assert forall|k: int| 0 <= k < long.len() implies !target_handler@.is_pending(#[trigger] long[k].id) by {
                        if k < short.len() {
                            assert(long[k] == short[k]);
                            assert(!target_handler@.is_pending(short[k].id));
                        }
                    }
                }
            }
            i = i + 1;
        }
        proof {
            assert(targets.subrange(0, i as int) =~= targets);
        }
        Some(total)
    }

    /// The tables of `target_tables` that overlap `table`.
    pub fn check_base_level_overlap(&self, table: &SstableInfo, target_tables: &Vec<SstableInfo>) -> (r: Vec<SstableInfo>)
        requires
            table@.key_range.wf(),
            keys_wf(sst_views(target_tables@)),
        ensures
            sst_views(r@) == overlapped(self.overlap_strategy, table@, sst_views(target_tables@)),
    {
        let ghost targets = sst_views(target_tables@);
        let ghost p = |t: SstView| self.overlap_strategy.overlaps(table@, t);
        let mut r: Vec<SstableInfo> = Vec::new();
        let mut i: usize = 0;
        proof {
            reveal(Seq::filter);
            assert(sst_views(r@) =~= targets.subrange(0, 0).filter(p));
        }
        while i < target_tables.len()
            invariant
                targets == sst_views(target_tables@),
                p == (|t: SstView| self.overlap_strategy.overlaps(table@, t)),
                table@.key_range.wf(),
                keys_wf(targets),
                i <= target_tables@.len(),
                sst_views(r@) == targets.subrange(0, i as int).filter(p),
            decreases target_tables@.len() - i,
        {
            let other = &target_tables[i];
            proof {
                assert(targets[i as int] == other@);
                lemma_filter_step(targets, p, i as int);
            }
            if self.overlap_strategy.check_overlap(table, other) {
                let ghost before = r@;
                r.push(other.copy());
                proof {
                    assert(sst_views(r@) =~= sst_views(before).push(other@));
                }
            }
            i = i + 1;
        }
        proof {
            assert(targets.subrange(0, i as int) =~= targets);
        }
        r
    }

    /// Picks one table of `select_tables` and the tables of `target_tables`
    /// that it overlaps; two empty lists if none can be picked.
    pub fn pick_tables(&self, select_tables: &Vec<SstableInfo>, target_tables: &Vec<SstableInfo>, level_handlers: &Vec<LevelHandler>) -> (r: (
        Vec<SstableInfo>,
        Vec<SstableInfo>,
    ))
        requires
            self.level < level_handlers@.len(),
            self.target_level < level_handlers@.len(),
            tables_fit(sst_views(select_tables@)),
            tables_fit(sst_views(target_tables@)),
        ensures
            (sst_views(r.0@), sst_views(r.1@)) == min_overlap(
                self.overlap_strategy,
                sst_views(select_tables@),
                sst_views(target_tables@),
                level_handlers@[self.level as int]@,
                level_handlers@[self.target_level as int]@,
            ),
    {
        let handler = &level_handlers[self.level];
        let target_handler = &level_handlers[self.target_level];
        let ghost s = self.overlap_strategy;
        let ghost tables = sst_views(select_tables@);
        let ghost targets = sst_views(target_tables@);
        let ghost (h, th) = (handler@, target_handler@);
        let mut best: Option<(usize, u128)> = None;
        let mut i: usize = 0;
        while i < select_tables.len()
            invariant
                s == self.overlap_strategy,
                tables == sst_views(select_tables@),
                targets == sst_views(target_tables@),
                h == handler@,
                th == target_handler@,
                tables_fit(tables),
                tables_fit(targets),
                i <= select_tables@.len(),
                match best {
                    None => forall|j: int|
                        #![trigger pickable(s, tables, targets, h, th, j)]
                        0 <= j < i ==> !pickable(s, tables, targets, h, th, j),
                    Some((b, score)) => {
                        &&& b < i
                        &&& score == overlap_score(s, tables[b as int], targets)
                        &&& pickable(s, tables, targets, h, th, b as int)
                        &&& forall|j: int|
                            #![trigger pickable(s, tables, targets, h, th, j)]
                            0 <= j < i && j != b && pickable(s, tables, targets, h, th, j) ==> better(
                                s,
                                tables,
                                targets,
                                b as int,
                                j,
                            )
                    },
                },
            decreases select_tables@.len() - i,
        {
            let table = &select_tables[i];
            proof {
                assert(tables[i as int] == table@);
                lemma_total_size_member(tables, i as int);
                lemma_total_size_filter(targets, |t: SstView| s.overlaps(table@, t));
            }
            if !handler.is_pending_compact(&table.id) {
                match self.idle_overlap_size(table, target_tables, target_handler) {
                    None => {},
                    Some(size) => {
                        let score: u128 = size as u128 * 100 / (table.file_size as u128 + 1);
                        let replace: bool = match best {
                            None => true,
                            Some((b, best_score)) => score < best_score || (score == best_score
                                && table.file_size < select_tables[b].file_size),
                        };
                        proof {
                            assert(pickable(s, tables, targets, h, th, i as int));
                            assert(score == overlap_score(s, tables[i as int], targets));
                        }
                        if replace {
                            best = Some((i, score));
                        }
                    },
                }
            }
            i = i + 1;
        }
        match best {
            None => {
                let r = (Vec::new(), Vec::new());
                proof {
                    assert(sst_views(r.0@) =~= Seq::<SstView>::empty());
                    assert(sst_views(r.1@) =~= Seq::<SstView>::empty());
                    assert forall|k: int| !is_choice(s, tables, targets, h, th, k) by {
                        assert(!pickable(s, tables, targets, h, th, k));
                    }
                }
                r
            },
            Some((b, _)) => {
                let mut select: Vec<SstableInfo> = Vec::new();
                select.push(select_tables[b].copy());
                let target = self.check_base_level_overlap(&select_tables[b], target_tables);
                proof {
                    assert(is_choice(s, tables, targets, h, th, b as int));
                    lemma_choice_unique(s, tables, targets, h, th, b as int);
                    assert(sst_views(select@) =~= seq![tables[b as int]]);
                }
                (select, target)
            },
        }
    }
}

/// The size of what is picked is bounded by the size of what it is picked from.
pub proof fn lemma_min_overlap_sizes<S: OverlapStrategy>(
    s: S,
    tables: Seq<SstView>,
    targets: Seq<SstView>,
    handler: HandlerView,
    target_handler: HandlerView,
)
    ensures
        ({
            let (select, target) = min_overlap(s, tables, targets, handler, target_handler);
            total_size(select) <= total_size(tables) && total_size(target) <= total_size(targets)
        }),
{
    if exists|i: int| is_choice(s, tables, targets, handler, target_handler, i) {
        let i = choose|i: int| is_choice(s, tables, targets, handler, target_handler, i);
        lemma_total_size_member(tables, i);
        lemma_total_size_filter(targets, |t: SstView| s.overlaps(tables[i], t));
        let one = seq![tables[i]];
        assert(one.drop_last() =~= Seq::<SstView>::empty());
        assert(total_size(one.drop_last()) == 0);
    } else {
        assert(total_size(Seq::<SstView>::empty()) == 0);
    }
}

impl<S: OverlapStrategy> CompactionPicker for MinOverlappingPicker<S> {
    open spec fn pick_requires(&self, levels: LevelsView, handlers: Seq<HandlerView>) -> bool {
        &&& 0 < self.level
        &&& 0 < self.target_level
        &&& self.level <= levels.levels.len()
        &&& self.target_level <= levels.levels.len()
        &&& self.level < handlers.len()
        &&& self.target_level < handlers.len()
        &&& self.level <= u32::MAX
        &&& self.target_level <= u32::MAX
        &&& levels_wf(levels.levels)
    }

    open spec fn picked(&self, levels: LevelsView, handlers: Seq<HandlerView>) -> Option<
        (CompactionInputView, Seq<HandlerView>),
    > {
        let (select, target) = min_overlap(
            self.overlap_strategy,
            levels.levels[self.level - 1].tables,
            levels.levels[self.target_level - 1].tables,
            handlers[self.level as int],
            handlers[self.target_level as int],
        );
        if select.len() == 0 {
            None
        } else {
            let input = CompactionInputView {
                input_levels: seq![
                    InputLevelView {
                        level_idx: self.level as u32,
                        level_type: LevelType::Nonoverlapping,
                        tables: select,
                    },
                    InputLevelView {
                        level_idx: self.target_level as u32,
                        level_type: LevelType::Nonoverlapping,
                        tables: target,
                    },
                ],
                target_level: self.target_level,
                target_sub_level_id: 0,
            };
            let selected = handlers.update(
                self.level as int,
                handlers[self.level as int].add_task(self.compact_task_id, self.target_level as u32, select),
            );
            let marked = if target.len() == 0 {
                selected
            } else {
                selected.update(
                    self.target_level as int,
                    selected[self.target_level as int].add_task(
                        self.compact_task_id,
                        self.target_level as u32,
                        target,
                    ),
                )
            };
            Some((input, marked))
        }
    }

    fn pick_compaction(&self, levels: &Levels, level_handlers: &mut Vec<LevelHandler>) -> (r: Option<
        CompactionInput,
    >) {
        let ghost lv = levels@;
        let ghost hv = handler_views(level_handlers@);
        proof {
            assert(tables_fit(lv.levels[self.level - 1].tables));
            assert(tables_fit(lv.levels[self.target_level - 1].tables));
            lemma_min_overlap_sizes(
                self.overlap_strategy,
                lv.levels[self.level - 1].tables,
                lv.levels[self.target_level - 1].tables,
                hv[self.level as int],
                hv[self.target_level as int],
            );
        }
        let (select, target) = self.pick_tables(
            &levels.levels[self.level - 1].table_infos,
            &levels.levels[self.target_level - 1].table_infos,
            level_handlers,
        );
        if select.len() == 0 {
            return None;
        }
        mark_tables(level_handlers, self.level, self.compact_task_id, self.target_level, &select);
        if target.len() > 0 {
            mark_tables(level_handlers, self.target_level, self.compact_task_id, self.target_level, &target);
        }
        let mut input_levels: Vec<InputLevel> = Vec::new();
        input_levels.push(
            InputLevel {
                level_idx: self.level as u32,
                level_type: LevelType::Nonoverlapping,
                table_infos: select,
            },
        );
        input_levels.push(
            InputLevel {
                level_idx: self.target_level as u32,
                level_type: LevelType::Nonoverlapping,
                table_infos: target,
            },
        );
        let input = CompactionInput { input_levels, target_level: self.target_level, target_sub_level_id: 0 };
        proof {
            let (view, marked) = self.picked(lv, hv).unwrap();
            assert(input@.input_levels =~= view.input_levels);
        }
        Some(input)
    }
}

/// The table that is picked rewrites the least of the target level per byte of its own among all
/// idle tables that overlap only idle tables; with it everything is read that it overlaps. Nothing
/// is picked only if there is no such table.
pub proof fn law_least_overlap_is_picked<S: OverlapStrategy>(
    s: S,
    tables: Seq<SstView>,
    targets: Seq<SstView>,
    handler: HandlerView,
    target_handler: HandlerView,
    i: int,
)
    requires
        is_choice(s, tables, targets, handler, target_handler, i),
    ensures
        ({
            let (select, target) = min_overlap(s, tables, targets, handler, target_handler);
            &&& select.len() == 1
            &&& tables.contains(select[0])
            &&& forall|t: SstView| #[trigger] target.contains(t) <==> targets.contains(t) && s.overlaps(select[0], t)
            &&& forall|j: int|
                #![trigger tables[j]]
                0 <= j < tables.len() && !handler.is_pending(tables[j].id) && !target_handler.any_pending(
                    targets.filter(|t: SstView| s.overlaps(tables[j], t)),
                ) ==> total_size(target) as int * 100 / (select[0].file_size + 1) <= total_size(
                    targets.filter(|t: SstView| s.overlaps(tables[j], t)),
                ) as int * 100 / (tables[j].file_size + 1)
        }),
{
    broadcast use vstd::seq_lib::group_filter_ensures;

    lemma_choice_unique(s, tables, targets, handler, target_handler, i);
    let (select, target) = min_overlap(s, tables, targets, handler, target_handler);
    let p = |t: SstView| s.overlaps(tables[i], t);
    assert(select[0] == tables[i]);
    assert forall|t: SstView| #[trigger] target.contains(t) <==> targets.contains(t) && s.overlaps(select[0], t) by {
        if targets.contains(t) && s.overlaps(select[0], t) {
            assert(p(t));
            let k = targets.index_of(t);
            assert(targets[k] == t);
        }
        if target.contains(t) {
            let k = target.index_of(t);
            assert(p(target[k]));
            targets.lemma_filter_contains_rev(p, t);
        }
    }
    assert forall|j: int|
        #![trigger tables[j]]
        0 <= j < tables.len() && !handler.is_pending(tables[j].id) && !target_handler.any_pending(
            targets.filter(|t: SstView| s.overlaps(tables[j], t)),
        ) implies total_size(target) as int * 100 / (select[0].file_size + 1) <= total_size(
        targets.filter(|t: SstView| s.overlaps(tables[j], t)),
    ) as int * 100 / (tables[j].file_size + 1) by {
        assert(pickable(s, tables, targets, handler, target_handler, j));
        if j != i {
            assert(better(s, tables, targets, i, j));
        }
    }
}

/// The handlers know of the task that was picked.
pub proof fn law_picked_task_is_counted<S: OverlapStrategy>(
    picker: MinOverlappingPicker<S>,
    levels: LevelsView,
    handlers: Seq<HandlerView>,
)
    requires
        picker.pick_requires(levels, handlers),
        picker.picked(levels, handlers) is Some,
    ensures
        ({
            let (input, marked) = picker.picked(levels, handlers).unwrap();
            &&& input.target_level == picker.target_level
            &&& input.input_levels.len() == 2
            &&& input.input_levels[0].level_idx == picker.level
            &&& input.input_levels[1].level_idx == picker.target_level
            &&& counts_task(input.input_levels, input.target_level as int, handlers, marked)
        }),
{
    let (input, marked) = picker.picked(levels, handlers).unwrap();
    let (a, b) = (input.input_levels[0], input.input_levels[1]);
    let target = picker.target_level as u32;
    lemma_min_overlap_sizes(
        picker.overlap_strategy,
        levels.levels[picker.level - 1].tables,
        levels.levels[picker.target_level - 1].tables,
        handlers[picker.level as int],
        handlers[picker.target_level as int],
    );
    assert(tables_fit(levels.levels[picker.level - 1].tables));
    assert(tables_fit(levels.levels[picker.target_level - 1].tables));
    if b.tables.len() == 0 {
        lemma_one_input_counts(handlers, picker.compact_task_id, target, a);
        lemma_empty_input_counts(seq![a], target as int, handlers, marked, b);
        assert(seq![a].push(b) =~= input.input_levels);
    } else {
        let inputs = input.input_levels;
        assert(inputs.drop_last() =~= seq![a]);
        assert(inputs.drop_last().drop_last() =~= Seq::<InputLevelView>::empty());
        reveal_with_fuel(mark_all, 3);
        assert(mark_all(handlers, picker.compact_task_id, target, inputs) =~= marked);
        law_marked_inputs_are_counted(handlers, picker.compact_task_id, target, inputs);
    }
}

} // verus!

//! Picks the table that overlaps the most of the next level.

use vstd::prelude::*;

use crate::hummock::level_handler::{HandlerView, LevelHandler};
use crate::hummock::min_overlap_compaction_picker::{overlapped, pickable, MinOverlappingPicker};
use crate::hummock::overlap_strategy::OverlapStrategy;
use crate::hummock::picker::{handler_views, mark_tables, tables_fit};
use crate::hummock::version::{
    lemma_total_size_filter, lemma_total_size_member, level_views, sst_views, total_size,
    InputLevel, InputLevelView, KeyRange, Level, LevelView, SstView, SstableInfo,
};

verus! {

/// What a picker found: one table, the tables of the next level that it
/// overlaps, and how the work is split.
pub struct SearchResult {
    pub select_level: InputLevel,
    pub target_level: InputLevel,
    pub split_ranges: Vec<KeyRange>,
}

/// Picks one table of `level` and what it overlaps in the next level.
pub struct SizeOverlapPicker<S> {
    pub compact_task_id: u64,
    pub overlap_strategy: S,
    pub level: usize,
}

/// The size of what table `i` overlaps.
pub open spec fn overlap_size<S: OverlapStrategy>(s: S, tables: Seq<SstView>, targets: Seq<SstView>, i: int) -> nat {
    total_size(overlapped(s, tables[i], targets))
}

/// Table `i` overlaps the most; of several that overlap equally much it is the last.
pub open spec fn is_largest<S: OverlapStrategy>(
    s: S,
    tables: Seq<SstView>,
    targets: Seq<SstView>,
    handler: HandlerView,
    target_handler: HandlerView,
    i: int,
) -> bool {
    &&& pickable(s, tables, targets, handler, target_handler, i)
    &&& forall|j: int|
        #![trigger pickable(s, tables, targets, handler, target_handler, j)]
        pickable(s, tables, targets, handler, target_handler, j) ==> {
            ||| overlap_size(s, tables, targets, j) < overlap_size(s, tables, targets, i)
            ||| overlap_size(s, tables, targets, j) == overlap_size(s, tables, targets, i) && j <= i
        }
}

/// What the picker returns for table `i`.
pub open spec fn search_result_is<S: OverlapStrategy>(
    r: SearchResult,
    s: S,
    level: int,
    levels: Seq<LevelView>,
    i: int,
) -> bool {
    let table = levels[level].tables[i];
    &&& r.select_level@ == (InputLevelView {
        level_idx: level as u32,
        level_type: levels[level].level_type,
        tables: seq![table],
    })
    &&& r.target_level@ == (InputLevelView {
        level_idx: (level + 1) as u32,
        level_type: levels[level + 1].level_type,
        tables: overlapped(s, table, levels[level + 1].tables),
    })
    &&& r.split_ranges@.len() == 0
}

/// The handlers after the task that reads table `i` has been marked.
pub open spec fn marked_for<S: OverlapStrategy>(
    s: S,
    task_id: u64,
    level: int,
    levels: Seq<LevelView>,
    handlers: Seq<HandlerView>,
    i: int,
) -> Seq<HandlerView> {
    let table = levels[level].tables[i];
    let target = (level + 1) as u32;
    let marked = handlers.update(
        level + 1,
        handlers[level + 1].add_task(task_id, target, overlapped(s, table, levels[level + 1].tables)),
    );
    marked.update(level, marked[level].add_task(task_id, target, seq![table]))
}

impl<S: OverlapStrategy + Copy> SizeOverlapPicker<S> {
    /// A picker of tasks from `level` to the next one.
    pub fn new(compact_task_id: u64, level: usize, overlap_strategy: S) -> (r: Self)
        ensures
            r.compact_task_id == compact_task_id,
            r.overlap_strategy == overlap_strategy,
            r.level == level,
    {
        SizeOverlapPicker { compact_task_id, overlap_strategy, level }
    }

    /// Table `i` may be picked.
    pub open spec fn can_pick(&self, levels: Seq<LevelView>, handlers: Seq<HandlerView>, i: int) -> bool {
        pickable(
            self.overlap_strategy,
            levels[self.level as int].tables,
            levels[self.level + 1].tables,
            handlers[self.level as int],
            handlers[self.level + 1],
            i,
        )
    }

    /// Table `i` is the one to pick.
    pub open spec fn is_choice(&self, levels: Seq<LevelView>, handlers: Seq<HandlerView>, i: int) -> bool {
        is_largest(
            self.overlap_strategy,
            levels[self.level as int].tables,
            levels[self.level + 1].tables,
            handlers[self.level as int],
            handlers[self.level + 1],
            i,
        )
    }

    /// Picks a table and marks it with what it overlaps. If no table is idle,
    /// nothing is picked and the handlers stay as they were.
    pub fn pick_compaction(&self, levels: &Vec<Level>, level_handlers: &mut Vec<LevelHandler>) -> (r: Option<SearchResult>)
        requires
            self.level + 1 < levels@.len(),
            self.level + 1 < old(level_handlers)@.len(),
            self.level < u32::MAX,
            tables_fit(level_views(levels@)[self.level as int].tables),
            tables_fit(level_views(levels@)[self.level + 1].tables),
        ensures
            match r {
                None => {
                    &&& forall|i: int|
                        !#[trigger] self.can_pick(level_views(levels@), handler_views(old(level_handlers)@), i)
                    &&& handler_views(final(level_handlers)@) == handler_views(old(level_handlers)@)
                },
                Some(result) => exists|i: int|
                    {
                        &&& #[trigger] self.is_choice(level_views(levels@), handler_views(old(level_handlers)@), i)
                        &&& search_result_is(
                            result,
                            self.overlap_strategy,
                            self.level as int,
                            level_views(levels@),
                            i,
                        )
                        &&& handler_views(final(level_handlers)@) == marked_for(
                            self.overlap_strategy,
                            self.compact_task_id,
                            self.level as int,
                            level_views(levels@),
                            handler_views(old(level_handlers)@),
                            i,
                        )
                    },
            },
    {
        let ghost lv = level_views(levels@);
        let ghost hv = handler_views(level_handlers@);
        let ghost s = self.overlap_strategy;
        let target_level: usize = self.level + 1;
        let select = &levels[self.level].table_infos;
        let target = &levels[target_level].table_infos;
        let ghost tables = lv[self.level as int].tables;
        let ghost targets = lv[self.level + 1].tables;
        let ghost (h, th) = (hv[self.level as int], hv[self.level + 1]);
        let picker = MinOverlappingPicker::new(
            self.compact_task_id,
            self.level,
            target_level,
            self.overlap_strategy,
        );
        let mut best: Option<(usize, u64)> = None;
        let mut i: usize = 0;
        while i < select.len()
            invariant
                i <= select@.len(),
                s == self.overlap_strategy,
                picker.overlap_strategy == s,
                self.level < level_handlers@.len(),
                target_level < level_handlers@.len(),
                target_level == self.level + 1,
                level_handlers@ == old(level_handlers)@,
                tables == sst_views(select@),
                targets == sst_views(target@),
                h == level_handlers@[self.level as int]@,
                th == level_handlers@[target_level as int]@,
                tables_fit(tables),
                tables_fit(targets),
                match best {
                    None => forall|j: int|
                        #![trigger pickable(s, tables, targets, h, th, j)]
                        0 <= j < i ==> !pickable(s, tables, targets, h, th, j),
                    Some((b, size)) => {
                        &&& b < i
                        &&& size == overlap_size(s, tables, targets, b as int)
                        &&& pickable(s, tables, targets, h, th, b as int)
                        &&& forall|j: int|
                            #![trigger pickable(s, tables, targets, h, th, j)]
                            0 <= j < i && pickable(s, tables, targets, h, th, j) ==> {
                                ||| overlap_size(s, tables, targets, j) < size
                                ||| overlap_size(s, tables, targets, j) == size && j <= b
                            }
                    },
                },
            decreases select@.len() - i,
        {
            let table = &select[i];
            proof {
                assert(tables[i as int] == table@);
            }
            if !level_handlers[self.level].is_pending_compact(&table.id) {
                match picker.idle_overlap_size(table, target, &level_handlers[target_level]) {
                    None => {},
                    Some(size) => {
                        proof {
                            assert(pickable(s, tables, targets, h, th, i as int));
                        }
                        let replace: bool = match best {
                            None => true,
                            Some((_, best_size)) => size >= best_size,
                        };
                        if replace {
                            best = Some((i, size));
                        }
                    },
                }
            }
            i = i + 1;
        }
        match best {
            None => {
                proof {
                    assert forall|k: int| !pickable(s, tables, targets, h, th, k) by {}
                }
                None
            },
            Some((b, _)) => {
                let target_input_ssts = picker.check_base_level_overlap(&select[b], target);
                let mut select_input_ssts: Vec<SstableInfo> = Vec::new();
                select_input_ssts.push(select[b].copy());
                proof {
                    lemma_total_size_filter(targets, |t: SstView| s.overlaps(tables[b as int], t));
                    lemma_total_size_member(tables, b as int);
                    let one = seq![tables[b as int]];
                    assert(sst_views(select_input_ssts@) =~= one);
                    assert(one.drop_last() =~= Seq::<SstView>::empty());
                    assert(total_size(one.drop_last()) == 0);
                }
                mark_tables(level_handlers, target_level, self.compact_task_id, target_level, &target_input_ssts);
                mark_tables(level_handlers, self.level, self.compact_task_id, target_level, &select_input_ssts);
                let r = SearchResult {
                    select_level: InputLevel {
                        level_idx: self.level as u32,
                        level_type: levels[self.level].level_type,
                        table_infos: select_input_ssts,
                    },
                    target_level: InputLevel {
                        level_idx: target_level as u32,
                        level_type: levels[target_level].level_type,
                        table_infos: target_input_ssts,
                    },
                    split_ranges: Vec::new(),
                };
                proof {
                    assert(self.is_choice(lv, hv, b as int));
                    assert(search_result_is(r, s, self.level as int, lv, b as int));
                }
                Some(r)
            },
        }
    }
}

/// The table that is picked is idle and overlaps at least as many bytes of idle tables as every other
/// table that is idle and overlaps only idle tables.
pub proof fn law_most_overlap_is_picked<S: OverlapStrategy>(
    s: S,
    tables: Seq<SstView>,
    targets: Seq<SstView>,
    handler: HandlerView,
    target_handler: HandlerView,
    i: int,
    j: int,
)
    requires
        is_largest(s, tables, targets, handler, target_handler, i),
        0 <= j < tables.len(),
        !handler.is_pending(tables[j].id),
        !target_handler.any_pending(targets.filter(|t: SstView| s.overlaps(tables[j], t))),
    ensures
        0 <= i < tables.len(),
        !handler.is_pending(tables[i].id),
        total_size(targets.filter(|t: SstView| s.overlaps(tables[j], t))) <= total_size(
            targets.filter(|t: SstView| s.overlaps(tables[i], t)),
        ),
{
    assert(pickable(s, tables, targets, handler, target_handler, j));
}

/// The task reads the one table, and of the next level all that it overlaps; both are marked, and the
/// other levels stay.
pub proof fn law_picked_table_is_marked<S: OverlapStrategy>(
    s: S,
    task_id: u64,
    level: int,
    levels: Seq<LevelView>,
    handlers: Seq<HandlerView>,
    i: int,
    l: int,
)
    requires
        0 <= level,
        level + 1 < levels.len(),
        level + 1 < handlers.len(),
        0 <= i < levels[level].tables.len(),
        0 <= l < handlers.len(),
    ensures
        ({
            let marked = marked_for(s, task_id, level, levels, handlers, i);
            &&& marked.len() == handlers.len()
            &&& l != level && l != level + 1 ==> marked[l] == handlers[l]
            &&& marked[level].is_pending(levels[level].tables[i].id)
            &&& forall|k: int|
                0 <= k < levels[level + 1].tables.len() && s.overlaps(
                    levels[level].tables[i],
                    #[trigger] levels[level + 1].tables[k],
                ) ==> marked[level + 1].is_pending(levels[level + 1].tables[k].id)
        }),
{
    broadcast use vstd::seq_lib::group_filter_ensures;

    let table = levels[level].tables[i];
    let targets = levels[level + 1].tables;
    let marked = marked_for(s, task_id, level, levels, handlers, i);
    let one = crate::hummock::level_handler::ids_of(seq![table]);
    assert(one[0] == table.id);
    assert(one.contains(table.id));
    let over = overlapped(s, table, targets);
    let ids = crate::hummock::level_handler::ids_of(over);
    let p = |t: SstView| s.overlaps(table, t);
    assert forall|k: int| 0 <= k < targets.len() && s.overlaps(table, #[trigger] targets[k]) implies marked[level + 1].is_pending(
        targets[k].id,
    ) by {
        assert(p(targets[k]));
        assert(over.contains(targets[k]));
        let m = over.index_of(targets[k]);
        assert(ids[m] == targets[k].id);
        assert(ids.contains(targets[k].id));
    }
}

/// The picker looks at the tables of its level and at what they overlap in the next one: the table that it picks is idle,
/// as is all that it overlaps, and no other such table overlaps more.
pub proof fn law_picker_looks_at_its_level<S: OverlapStrategy + Copy>(
    picker: SizeOverlapPicker<S>,
    levels: Seq<LevelView>,
    handlers: Seq<HandlerView>,
    i: int,
    j: int,
)
    requires
        picker.level + 1 < levels.len(),
        picker.level + 1 < handlers.len(),
    ensures
        ({
            let level = picker.level as int;
            let tables = levels[level].tables;
            let s = picker.overlap_strategy;
            let idle = |k: int|
                0 <= k < tables.len() && !handlers[level].is_pending(tables[k].id) && !handlers[level + 1].any_pending(
                    levels[level + 1].tables.filter(|t: SstView| s.overlaps(tables[k], t)),
                );
            &&& picker.can_pick(levels, handlers, i) <==> idle(i)
            &&& picker.is_choice(levels, handlers, i) ==> idle(i)
            &&& picker.is_choice(levels, handlers, i) && idle(j) ==> total_size(
                levels[level + 1].tables.filter(|t: SstView| s.overlaps(tables[j], t)),
            ) <= total_size(levels[level + 1].tables.filter(|t: SstView| s.overlaps(tables[i], t)))
        }),
{
    let level = picker.level as int;
    assert(picker.can_pick(levels, handlers, j) == pickable(
        picker.overlap_strategy,
        levels[level].tables,
        levels[level + 1].tables,
        handlers[level],
        handlers[level + 1],
        j,
    ));
}

} // verus!

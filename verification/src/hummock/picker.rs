//! What all compaction pickers have in common.

use vstd::prelude::*;

use crate::hummock::level_handler::{task_size, tasks_to, HandlerView, LevelHandler};
use crate::hummock::version::{
    input_level_views, level_views, sst_views, total_size, CompactionInput, CompactionInputView, InputLevel,
    InputLevelView, Level, LevelView, Levels, LevelsView, SstView, SstableInfo,
};

verus! {

/// The values of a sequence of handlers.
pub open spec fn handler_views(handlers: Seq<LevelHandler>) -> Seq<HandlerView> {
    Seq::new(handlers.len(), |i: int| handlers[i]@)
}

/// The key range of every table is well-formed.
pub open spec fn keys_wf(tables: Seq<SstView>) -> bool {
    forall|i: int| 0 <= i < tables.len() ==> (#[trigger] tables[i]).key_range.wf()
}

/// The tables are described by well-formed key ranges, and their size is a
/// 64-bit number.
pub open spec fn tables_fit(tables: Seq<SstView>) -> bool {
    &&& keys_wf(tables)
    &&& total_size(tables) <= u64::MAX
}

/// How many tables the levels hold.
pub open spec fn table_count(levels: Seq<LevelView>) -> nat
    decreases levels.len(),
{
    if levels.len() == 0 {
        0
    } else {
        table_count(levels.drop_last()) + levels.last().tables.len()
    }
}

/// The sum of the recorded sizes of the levels.
pub open spec fn recorded_size(levels: Seq<LevelView>) -> nat
    decreases levels.len(),
{
    if levels.len() == 0 {
        0
    } else {
        recorded_size(levels.drop_last()) + levels.last().total_file_size as nat
    }
}

/// Every level holds well-formed tables, and the sums over all levels fit the
/// machine's numbers.
pub open spec fn levels_wf(levels: Seq<LevelView>) -> bool {
    &&& forall|i: int| 0 <= i < levels.len() ==> tables_fit((#[trigger] levels[i]).tables)
    &&& table_count(levels) <= usize::MAX
    &&& recorded_size(levels) <= u64::MAX
}

/// A version whose sums fit the machine's numbers.
pub open spec fn version_wf(v: LevelsView) -> bool {
    levels_wf(v.sub_levels) && levels_wf(v.levels)
}

pub proof fn lemma_table_count_push(levels: Seq<LevelView>, l: LevelView)
    ensures
        table_count(levels.push(l)) == table_count(levels) + l.tables.len(),
{
    assert(levels.push(l).drop_last() =~= levels);
}

pub proof fn lemma_recorded_size_push(levels: Seq<LevelView>, l: LevelView)
    ensures
        recorded_size(levels.push(l)) == recorded_size(levels) + l.total_file_size,
{
    assert(levels.push(l).drop_last() =~= levels);
}

/// Sums over a prefix of the levels and over what follows it add up.
pub proof fn lemma_sums_split(levels: Seq<LevelView>, n: int)
    requires
        0 <= n <= levels.len(),
    ensures
        table_count(levels) == table_count(levels.subrange(0, n)) + table_count(
            levels.subrange(n, levels.len() as int),
        ),
        recorded_size(levels) == recorded_size(levels.subrange(0, n)) + recorded_size(
            levels.subrange(n, levels.len() as int),
        ),
    decreases levels.len(),
{
    let m = levels.len() as int;
    if n == m {
        assert(levels.subrange(0, n) =~= levels);
        assert(levels.subrange(n, m) =~= Seq::<LevelView>::empty());
    } else {
        lemma_sums_split(levels.drop_last(), n);
        assert(levels.drop_last().subrange(0, n) =~= levels.subrange(0, n));
        assert(levels.subrange(n, m).drop_last() =~= levels.drop_last().subrange(n, m - 1));
    }
}

/// Sums over a run of levels are no larger than over all of them.
pub proof fn lemma_sums_run(levels: Seq<LevelView>, from: int, to: int)
    requires
        0 <= from <= to <= levels.len(),
    ensures
        table_count(levels.subrange(from, to)) <= table_count(levels),
        recorded_size(levels.subrange(from, to)) <= recorded_size(levels),
{
    lemma_sums_split(levels, to);
    let head = levels.subrange(0, to);
    lemma_sums_split(head, from);
    assert(head.subrange(from, to) =~= levels.subrange(from, to));
}

/// Picks the tables of one compaction task and marks them in the handlers.
pub trait CompactionPicker {
    /// What the picker asks of the version and of the handlers.
    spec fn pick_requires(&self, levels: LevelsView, handlers: Seq<HandlerView>) -> bool;

    /// The task that is picked, with the handlers after it has been marked in
    /// them; nothing if there is no task.
    spec fn picked(&self, levels: LevelsView, handlers: Seq<HandlerView>) -> Option<
        (CompactionInputView, Seq<HandlerView>),
    >;

    /// Picks a task. Without one the handlers stay as they were.
    fn pick_compaction(&self, levels: &Levels, level_handlers: &mut Vec<LevelHandler>) -> (r: Option<
        CompactionInput,
    >)
        requires
            self.pick_requires(levels@, handler_views(old(level_handlers)@)),
        ensures
            match (r, self.picked(levels@, handler_views(old(level_handlers)@))) {
                (None, None) => handler_views(final(level_handlers)@) == handler_views(
                    old(level_handlers)@,
                ),
                (Some(input), Some((view, marked))) => input@ == view && handler_views(
                    final(level_handlers)@,
                ) == marked,
                _ => false,
            },
    ;
}

/// Adds a task that reads `tables` to handler `idx`.
pub fn mark_tables(
    level_handlers: &mut Vec<LevelHandler>,
    idx: usize,
    task_id: u64,
    target_level: usize,
    tables: &Vec<SstableInfo>,
)
    requires
        idx < old(level_handlers)@.len(),
        target_level <= u32::MAX,
        total_size(sst_views(tables@)) <= u64::MAX,
    ensures
        final(level_handlers)@.len() == old(level_handlers)@.len(),
        handler_views(final(level_handlers)@) == handler_views(old(level_handlers)@).update(
            idx as int,
            handler_views(old(level_handlers)@)[idx as int].add_task(
                task_id,
                target_level as u32,
                sst_views(tables@),
            ),
        ),
{
    level_handlers[idx].add_pending_task(task_id, target_level, tables);
    proof {
        assert(handler_views(level_handlers@) =~= handler_views(old(level_handlers)@).update(
            idx as int,
            handler_views(old(level_handlers)@)[idx as int].add_task(
                task_id,
                target_level as u32,
                sst_views(tables@),
            ),
        ));
    }
}

/// The handlers with one more task for each of `inputs`, added from the first
/// to the last, each to the handler of its level.
pub open spec fn mark_all(handlers: Seq<HandlerView>, task_id: u64, target_level: u32, inputs: Seq<InputLevelView>) -> Seq<
    HandlerView,
>
    decreases inputs.len(),
{
    if inputs.len() == 0 {
        handlers
    } else {
        let before = mark_all(handlers, task_id, target_level, inputs.drop_last());
        let idx = inputs.last().level_idx as int;
        before.update(idx, before[idx].add_task(task_id, target_level, inputs.last().tables))
    }
}

/// Adds one task for each of `inputs` to the handlers.
pub fn mark_inputs(level_handlers: &mut Vec<LevelHandler>, task_id: u64, target_level: usize, inputs: &Vec<InputLevel>)
    requires
        target_level <= u32::MAX,
        forall|i: int|
            0 <= i < inputs@.len() ==> (#[trigger] inputs@[i]).level_idx < old(level_handlers)@.len()
                && total_size(inputs@[i]@.tables) <= u64::MAX,
    ensures
        final(level_handlers)@.len() == old(level_handlers)@.len(),
        handler_views(final(level_handlers)@) == mark_all(
            handler_views(old(level_handlers)@),
            task_id,
            target_level as u32,
            input_level_views(inputs@),
        ),
{
    let ghost views = input_level_views(inputs@);
    let ghost before = handler_views(level_handlers@);
    let ghost count = level_handlers@.len();
    let mut i: usize = 0;
    while i < inputs.len()
        invariant
            i <= inputs@.len(),
            target_level <= u32::MAX,
            views == input_level_views(inputs@),
            level_handlers@.len() == count,
            forall|j: int|
                0 <= j < inputs@.len() ==> (#[trigger] inputs@[j]).level_idx < count && total_size(
                    inputs@[j]@.tables,
                ) <= u64::MAX,
            handler_views(level_handlers@) == mark_all(
                before,
                task_id,
                target_level as u32,
                views.subrange(0, i as int),
            ),
        decreases inputs@.len() - i,
    {
        proof {
            assert(views.subrange(0, i + 1).drop_last() =~= views.subrange(0, i as int));
            assert(views[i as int] == inputs@[i as int]@);
        }
        mark_tables(
            level_handlers,
            inputs[i].level_idx as usize,
            task_id,
            target_level,
            &inputs[i].table_infos,
        );
        i = i + 1;
    }
    proof {
        assert(views.subrange(0, i as int) =~= views);
    }
}

/// The least `j` in `i..n` for which `p` holds.
pub open spec fn first_from(p: spec_fn(int) -> bool, i: int, n: int) -> Option<int>
    decreases n - i,
{
    if i >= n {
        None
    } else if p(i) {
        Some(i)
    } else {
        first_from(p, i + 1, n)
    }
}

/// [`first_from`] finds the least index for which `p` holds.
pub proof fn lemma_first_from(p: spec_fn(int) -> bool, i: int, n: int)
    ensures
        match first_from(p, i, n) {
            Some(j) => i <= j < n && p(j) && forall|k: int| i <= k < j ==> !#[trigger] p(k),
            None => forall|k: int| i <= k < n ==> !#[trigger] p(k),
        },
    decreases n - i,
{
    if i < n && !p(i) {
        lemma_first_from(p, i + 1, n);
    }
}

/// Where a run of sub-levels ends that has grown to `k` and holds `bytes`: it
/// grows while it holds less than `max` and the next sub-level is idle.
pub open spec fn run_end(subs: Seq<LevelView>, handler: HandlerView, bytes: int, max: u64, k: int) -> int
    decreases subs.len() - k,
{
    if 0 <= k < subs.len() && bytes < max && !handler.any_pending(subs[k].tables) {
        run_end(subs, handler, bytes + subs[k].total_file_size, max, k + 1)
    } else {
        k
    }
}

/// Where the run of sub-levels ends that starts with sub-level `first`.
pub open spec fn run_from(subs: Seq<LevelView>, handler: HandlerView, first: int, max: u64) -> int {
    run_end(subs, handler, subs[first].total_file_size as int, max, first + 1)
}

/// A run stays within the sub-levels.
pub proof fn lemma_run_end_bounds(subs: Seq<LevelView>, handler: HandlerView, bytes: int, max: u64, k: int)
    requires
        0 <= k <= subs.len(),
    ensures
        k <= run_end(subs, handler, bytes, max, k) <= subs.len(),
    decreases subs.len() - k,
{
    if k < subs.len() && bytes < max && !handler.any_pending(subs[k].tables) {
        lemma_run_end_bounds(subs, handler, bytes + subs[k].total_file_size, max, k + 1);
    }
}

/// The end of the run that starts with sub-level `first`, and its recorded size.
pub fn collect_run(sub_levels: &Vec<Level>, handler: &LevelHandler, first: usize, max: u64) -> (r: (usize, u64))
    requires
        first < sub_levels@.len(),
        levels_wf(level_views(sub_levels@)),
    ensures
        r.0 == run_from(level_views(sub_levels@), handler@, first as int, max),
        first < r.0 <= sub_levels@.len(),
        r.1 == recorded_size(level_views(sub_levels@).subrange(first as int, r.0 as int)),
{
    let ghost subs = level_views(sub_levels@);
    let count: usize = sub_levels.len();
    let mut end: usize = first + 1;
    let mut bytes: u64 = sub_levels[first].total_file_size;
    proof {
        let one = subs.subrange(first as int, end as int);
        assert(one.drop_last() =~= Seq::<LevelView>::empty());
        assert(recorded_size(one.drop_last()) == 0);
        assert(one.last() == subs[first as int]);
    }
    while end < count && bytes < max && !handler.is_level_pending_compact(&sub_levels[end])
        invariant
            count == sub_levels@.len(),
            first < end <= count,
            subs == level_views(sub_levels@),
            levels_wf(subs),
            bytes == recorded_size(subs.subrange(first as int, end as int)),
            run_from(subs, handler@, first as int, max) == run_end(subs, handler@, bytes as int, max, end as int),
        decreases sub_levels@.len() - end,
    {
        proof {
            let short = subs.subrange(first as int, end as int);
            assert(subs.subrange(first as int, end + 1) =~= short.push(subs[end as int]));
            lemma_recorded_size_push(short, subs[end as int]);
            lemma_sums_run(subs, first as int, end + 1);
        }
        bytes = bytes + sub_levels[end].total_file_size;
        end = end + 1;
    }
    (end, bytes)
}

/// How many tables the sub-levels `from..to` hold.
pub fn count_tables(sub_levels: &Vec<Level>, from: usize, to: usize) -> (r: usize)
    requires
        from <= to <= sub_levels@.len(),
        table_count(level_views(sub_levels@)) <= usize::MAX,
    ensures
        r == table_count(level_views(sub_levels@).subrange(from as int, to as int)),
{
    let ghost subs = level_views(sub_levels@);
    let mut count: usize = 0;
    let mut i: usize = from;
    proof {
        assert(subs.subrange(from as int, from as int) =~= Seq::<LevelView>::empty());
    }
    while i < to
        invariant
            from <= i <= to <= sub_levels@.len(),
            subs == level_views(sub_levels@),
            table_count(subs) <= usize::MAX,
            count == table_count(subs.subrange(from as int, i as int)),
        decreases to - i,
    {
        proof {
            let short = subs.subrange(from as int, i as int);
            assert(subs.subrange(from as int, i + 1) =~= short.push(subs[i as int]));
            lemma_table_count_push(short, subs[i as int]);
            lemma_sums_run(subs, from as int, i + 1);
        }
        count = count + sub_levels[i].table_infos.len();
        i = i + 1;
    }
    count
}

/// Marking a task makes the tables that it reads pending in the handlers of their levels, and no
/// others.
pub proof fn law_inputs_are_marked(handlers: Seq<HandlerView>, task_id: u64, target_level: u32, inputs: Seq<InputLevelView>, level: int, id: u64)
    requires
        forall|i: int| 0 <= i < inputs.len() ==> (#[trigger] inputs[i]).level_idx < handlers.len(),
        0 <= level < handlers.len(),
    ensures
        mark_all(handlers, task_id, target_level, inputs).len() == handlers.len(),
        mark_all(handlers, task_id, target_level, inputs)[level].is_pending(id) <==> handlers[level].is_pending(id)
            || exists|i: int, k: int|
            #![trigger inputs[i].tables[k]]
            0 <= i < inputs.len() && inputs[i].level_idx == level && 0 <= k < inputs[i].tables.len()
                && inputs[i].tables[k].id == id,
    decreases inputs.len(),
{
    if inputs.len() > 0 {
        let rest = inputs.drop_last();
        let last = inputs.last();
        assert forall|i: int| 0 <= i < rest.len() implies (#[trigger] rest[i]).level_idx < handlers.len() by {
            assert(rest[i] == inputs[i]);
        }
        law_inputs_are_marked(handlers, task_id, target_level, rest, level, id);
        let before = mark_all(handlers, task_id, target_level, rest);
        let n = inputs.len() - 1;
        let ids = crate::hummock::level_handler::ids_of(last.tables);
        let found = exists|i: int, k: int|
            #![trigger inputs[i].tables[k]]
            0 <= i < inputs.len() && inputs[i].level_idx == level && 0 <= k < inputs[i].tables.len()
                && inputs[i].tables[k].id == id;
        let found_before = exists|i: int, k: int|
            #![trigger rest[i].tables[k]]
            0 <= i < rest.len() && rest[i].level_idx == level && 0 <= k < rest[i].tables.len() && rest[i].tables[k].id
                == id;
        if found_before {
            let (i, k) = choose|i: int, k: int|
                #![trigger rest[i].tables[k]]
                0 <= i < rest.len() && rest[i].level_idx == level && 0 <= k < rest[i].tables.len()
                    && rest[i].tables[k].id == id;
            assert(inputs[i].tables[k].id == id);
        }
        if last.level_idx == level && ids.contains(id) {
            let k = ids.index_of(id);
            assert(inputs[n].tables[k].id == id);
        }
        if found {
            let (i, k) = choose|i: int, k: int|
                #![trigger inputs[i].tables[k]]
                0 <= i < inputs.len() && inputs[i].level_idx == level && 0 <= k < inputs[i].tables.len()
                    && inputs[i].tables[k].id == id;
            if i < n {
                assert(rest[i].tables[k].id == id);
            } else {
                assert(ids[k] == id);
            }
        }
    }
}

proof fn lemma_run_sizes(subs: Seq<LevelView>, handler: HandlerView, from: int, k: int, max: u64)
    requires
        0 <= from < k <= subs.len(),
        k > from + 1 ==> recorded_size(subs.subrange(from, k - 1)) < max,
    ensures
        ({
            let end = run_end(subs, handler, recorded_size(subs.subrange(from, k)) as int, max, k);
            &&& k <= end <= subs.len()
            &&& end > from + 1 ==> recorded_size(subs.subrange(from, end - 1)) < max
            &&& forall|i: int| k <= i < end ==> !handler.any_pending((#[trigger] subs[i]).tables)
            &&& end == subs.len() || recorded_size(subs.subrange(from, end)) >= max || handler.any_pending(
                subs[end].tables,
            )
        }),
    decreases subs.len() - k,
{
    let bytes = recorded_size(subs.subrange(from, k)) as int;
    if k < subs.len() && bytes < max && !handler.any_pending(subs[k].tables) {
        assert(subs.subrange(from, k + 1).drop_last() =~= subs.subrange(from, k));
        lemma_run_sizes(subs, handler, from, k + 1, max);
    }
}

/// A run of sub-levels grows as long as it can: it holds no sub-level behind the first that is
/// being compacted, without its last sub-level it is smaller than the bound, and it ends only
/// where there is no further sub-level, the bound is reached or the next sub-level is busy.
pub proof fn law_run_is_as_long_as_it_can_be(subs: Seq<LevelView>, handler: HandlerView, first: int, max: u64)
    requires
        0 <= first < subs.len(),
    ensures
        ({
            let end = run_from(subs, handler, first, max);
            &&& first < end <= subs.len()
            &&& end > first + 1 ==> recorded_size(subs.subrange(first, end - 1)) < max
            &&& forall|i: int| first < i < end ==> !handler.any_pending((#[trigger] subs[i]).tables)
            &&& end == subs.len() || recorded_size(subs.subrange(first, end)) >= max || handler.any_pending(
                subs[end].tables,
            )
        }),
{
    let one = subs.subrange(first, first + 1);
    assert(one.drop_last() =~= Seq::<LevelView>::empty());
    assert(recorded_size(one.drop_last()) == 0);
    assert(recorded_size(one) == subs[first].total_file_size);
    lemma_run_sizes(subs, handler, first, first + 1, max);
}

/// A task reads table `id` of level `level`.
pub open spec fn task_reads_table(inputs: Seq<InputLevelView>, level: int, id: u64) -> bool {
    exists|i: int, k: int|
        #![trigger inputs[i].tables[k]]
        0 <= i < inputs.len() && inputs[i].level_idx == level && 0 <= k < inputs[i].tables.len() && inputs[i].tables[k].id
            == id
}

/// How many bytes of level `level` a task reads.
pub open spec fn bytes_read(inputs: Seq<InputLevelView>, level: int) -> nat
    decreases inputs.len(),
{
    if inputs.len() == 0 {
        0
    } else {
        bytes_read(inputs.drop_last(), level) + if inputs.last().level_idx == level {
            total_size(inputs.last().tables)
        } else {
            0
        }
    }
}

/// What a level writes to another level is counted for `inputs`, which go to `target_level`.
pub open spec fn bytes_counted(
    inputs: Seq<InputLevelView>,
    target_level: int,
    before: HandlerView,
    after: HandlerView,
    level: int,
    to: u32,
) -> bool {
    task_size(tasks_to(after.tasks, to)) == task_size(tasks_to(before.tasks, to)) + if to == target_level {
        bytes_read(inputs, level)
    } else {
        0
    }
}

/// The handlers know of a task that reads `inputs` and writes to `target_level`: at each level the tables that it
/// reads there are being compacted, besides those that were, and their bytes are on their way to the target level.
pub open spec fn counts_task(
    inputs: Seq<InputLevelView>,
    target_level: int,
    before: Seq<HandlerView>,
    after: Seq<HandlerView>,
) -> bool {
    &&& after.len() == before.len()
    &&& forall|level: int, id: u64|
        0 <= level < before.len() ==> (#[trigger] after[level].is_pending(id) <==> before[level].is_pending(id)
            || task_reads_table(inputs, level, id))
    &&& forall|level: int, to: u32|
        0 <= level < before.len() ==> #[trigger] bytes_counted(
            inputs,
            target_level,
            before[level],
            after[level],
            level,
            to,
        )
}

/// Adding one task for each input of a task makes the handlers know of it.
pub proof fn law_marked_inputs_are_counted(
    handlers: Seq<HandlerView>,
    task_id: u64,
    target_level: u32,
    inputs: Seq<InputLevelView>,
)
    requires
        forall|i: int|
            0 <= i < inputs.len() ==> (#[trigger] inputs[i]).level_idx < handlers.len() && total_size(inputs[i].tables)
                <= u64::MAX,
    ensures
        counts_task(inputs, target_level as int, handlers, mark_all(handlers, task_id, target_level, inputs)),
{
    let after = mark_all(handlers, task_id, target_level, inputs);
    lemma_mark_all_len(handlers, task_id, target_level, inputs);
    assert forall|level: int, id: u64| 0 <= level < handlers.len() implies (#[trigger] after[level].is_pending(id)
        <==> handlers[level].is_pending(id) || task_reads_table(inputs, level, id)) by {
        law_inputs_are_marked(handlers, task_id, target_level, inputs, level, id);
    }
    assert forall|level: int, to: u32| 0 <= level < handlers.len() implies #[trigger] bytes_counted(
        inputs,
        target_level as int,
        handlers[level],
        after[level],
        level,
        to,
    ) by {
        lemma_bytes_counted(handlers, task_id, target_level, inputs, level, to);
    }
}

proof fn lemma_mark_all_len(handlers: Seq<HandlerView>, task_id: u64, target_level: u32, inputs: Seq<InputLevelView>)
    requires
        forall|i: int| 0 <= i < inputs.len() ==> (#[trigger] inputs[i]).level_idx < handlers.len(),
    ensures
        mark_all(handlers, task_id, target_level, inputs).len() == handlers.len(),
    decreases inputs.len(),
{
    if inputs.len() > 0 {
        let rest = inputs.drop_last();
        assert forall|i: int| 0 <= i < rest.len() implies (#[trigger] rest[i]).level_idx < handlers.len() by {
            assert(rest[i] == inputs[i]);
        }
        lemma_mark_all_len(handlers, task_id, target_level, rest);
        assert(inputs[inputs.len() - 1].level_idx < handlers.len());
    }
}

proof fn lemma_bytes_counted(
    handlers: Seq<HandlerView>,
    task_id: u64,
    target_level: u32,
    inputs: Seq<InputLevelView>,
    level: int,
    to: u32,
)
    requires
        0 <= level < handlers.len(),
        forall|i: int|
            0 <= i < inputs.len() ==> (#[trigger] inputs[i]).level_idx < handlers.len() && total_size(inputs[i].tables)
                <= u64::MAX,
    ensures
        bytes_counted(
            inputs,
            target_level as int,
            handlers[level],
            mark_all(handlers, task_id, target_level, inputs)[level],
            level,
            to,
        ),
    decreases inputs.len(),
{
    if inputs.len() > 0 {
        let rest = inputs.drop_last();
        let last = inputs.last();
        assert forall|i: int| 0 <= i < rest.len() implies (#[trigger] rest[i]).level_idx < handlers.len() && total_size(
            rest[i].tables,
        ) <= u64::MAX by {
            assert(rest[i] == inputs[i]);
        }
        lemma_bytes_counted(handlers, task_id, target_level, rest, level, to);
        lemma_mark_all_len(handlers, task_id, target_level, rest);
        let before = mark_all(handlers, task_id, target_level, rest);
        assert(inputs[inputs.len() - 1] == last);
        if last.level_idx == level {
            crate::hummock::level_handler::law_added_task_is_counted(
                before[level],
                task_id,
                target_level,
                last.tables,
                0,
                to,
            );
        }
    }
}

/// An input without tables changes nothing.
pub proof fn lemma_empty_input_counts(
    inputs: Seq<InputLevelView>,
    target_level: int,
    before: Seq<HandlerView>,
    after: Seq<HandlerView>,
    empty: InputLevelView,
)
    requires
        counts_task(inputs, target_level, before, after),
        empty.tables.len() == 0,
    ensures
        counts_task(inputs.push(empty), target_level, before, after),
{
    let more = inputs.push(empty);
    assert(more.drop_last() =~= inputs);
    assert forall|level: int, id: u64| 0 <= level < before.len() implies (#[trigger] after[level].is_pending(id)
        <==> before[level].is_pending(id) || task_reads_table(more, level, id)) by {
        if task_reads_table(inputs, level, id) {
            let (i, k) = choose|i: int, k: int|
                #![trigger inputs[i].tables[k]]
                0 <= i < inputs.len() && inputs[i].level_idx == level && 0 <= k < inputs[i].tables.len()
                    && inputs[i].tables[k].id == id;
            assert(more[i].tables[k].id == id);
        }
        if task_reads_table(more, level, id) {
            let (i, k) = choose|i: int, k: int|
                #![trigger more[i].tables[k]]
                0 <= i < more.len() && more[i].level_idx == level && 0 <= k < more[i].tables.len() && more[i].tables[k].id
                    == id;
            assert(inputs[i].tables[k].id == id);
        }
    }
    assert forall|level: int, to: u32| 0 <= level < before.len() implies #[trigger] bytes_counted(
        more,
        target_level,
        before[level],
        after[level],
        level,
        to,
    ) by {
        assert(bytes_counted(inputs, target_level, before[level], after[level], level, to));
        assert(more.last() == empty);
        assert(bytes_read(more, level) == bytes_read(inputs, level));
    }
}

/// A task that reads one input is known once it was added to the handler of that level.
pub proof fn lemma_one_input_counts(handlers: Seq<HandlerView>, task_id: u64, target_level: u32, input: InputLevelView)
    requires
        input.level_idx < handlers.len(),
        total_size(input.tables) <= u64::MAX,
    ensures
        counts_task(
            seq![input],
            target_level as int,
            handlers,
            handlers.update(
                input.level_idx as int,
                handlers[input.level_idx as int].add_task(task_id, target_level, input.tables),
            ),
        ),
{
    let inputs = seq![input];
    assert(inputs.drop_last() =~= Seq::<InputLevelView>::empty());
    assert(mark_all(handlers, task_id, target_level, inputs.drop_last()) == handlers);
    assert(mark_all(handlers, task_id, target_level, inputs) == handlers.update(
        input.level_idx as int,
        handlers[input.level_idx as int].add_task(task_id, target_level, input.tables),
    ));
    law_marked_inputs_are_counted(handlers, task_id, target_level, inputs);
}

} // verus!

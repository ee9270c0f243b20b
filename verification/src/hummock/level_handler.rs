//! Which tables of a level are being compacted.

use std::collections::HashMap;
use vstd::prelude::*;

use crate::hummock::version::{
    lemma_total_size_prefix, lemma_total_size_push, sst_views, total_size, Level, SstView,
    SstableInfo,
};

verus! {

broadcast use vstd::std_specs::hash::group_hash_axioms;

/// A compaction task that reads tables of the level.
#[derive(Debug)]
pub struct RunningCompactTask {
    pub task_id: u64,
    pub target_level: u32,
    pub total_file_size: u64,
    pub ssts: Vec<u64>,
}

/// The value of a [`RunningCompactTask`].
#[verifier::ext_equal]
pub struct TaskView {
    pub task_id: u64,
    pub target_level: u32,
    pub total_file_size: u64,
    pub ssts: Seq<u64>,
}

impl View for RunningCompactTask {
    type V = TaskView;

    open spec fn view(&self) -> TaskView {
        TaskView {
            task_id: self.task_id,
            target_level: self.target_level,
            total_file_size: self.total_file_size,
            ssts: self.ssts@,
        }
    }
}

/// Tracks the running compaction tasks of one level.
#[derive(Debug)]
pub struct LevelHandler {
    level: u32,
    compacting_files: HashMap<u64, u64>,
    pending_tasks: Vec<RunningCompactTask>,
}

/// The value of a [`LevelHandler`]: the task of each table that is being
/// compacted, and the tasks in the order in which they were added.
#[verifier::ext_equal]
pub struct HandlerView {
    pub level: u32,
    pub compacting: Map<u64, u64>,
    pub tasks: Seq<TaskView>,
}

impl View for LevelHandler {
    type V = HandlerView;

    closed spec fn view(&self) -> HandlerView {
        HandlerView {
            level: self.level,
            compacting: self.compacting_files@,
            tasks: Seq::new(self.pending_tasks@.len(), |i: int| self.pending_tasks@[i]@),
        }
    }
}

/// The ids of `tables`.
pub open spec fn ids_of(tables: Seq<SstView>) -> Seq<u64> {
    Seq::new(tables.len(), |i: int| tables[i].id)
}

/// The sum of the sizes of the tasks.
pub open spec fn task_size(tasks: Seq<TaskView>) -> nat
    decreases tasks.len(),
{
    if tasks.len() == 0 {
        0
    } else {
        task_size(tasks.drop_last()) + tasks.last().total_file_size as nat
    }
}

/// The tasks that write to `target_level`.
pub open spec fn tasks_to(tasks: Seq<TaskView>, target_level: u32) -> Seq<TaskView> {
    tasks.filter(|t: TaskView| t.target_level == target_level)
}

/// Whether one of the tasks `task_id` in `tasks` reads the table `id`.
pub open spec fn task_reads(tasks: Seq<TaskView>, task_id: u64, id: u64) -> bool {
    exists|i: int|
        0 <= i < tasks.len() && (#[trigger] tasks[i]).task_id == task_id && tasks[i].ssts.contains(id)
}

impl HandlerView {
    /// Whether the table `id` is being compacted.
    pub open spec fn is_pending(self, id: u64) -> bool {
        self.compacting.contains_key(id)
    }

    /// Whether any of `tables` is being compacted.
    pub open spec fn any_pending(self, tables: Seq<SstView>) -> bool {
        exists|i: int| 0 <= i < tables.len() && self.is_pending(#[trigger] tables[i].id)
    }

    /// The handler with one more task, which reads `tables`.
    pub open spec fn add_task(self, task_id: u64, target_level: u32, tables: Seq<SstView>) -> HandlerView {
        HandlerView {
            level: self.level,
            compacting: Map::new(
                |id: u64| self.compacting.contains_key(id) || ids_of(tables).contains(id),
                |id: u64| if ids_of(tables).contains(id) { task_id } else { self.compacting[id] },
            ),
            tasks: self.tasks.push(
                TaskView {
                    task_id,
                    target_level,
                    total_file_size: total_size(tables) as u64,
                    ssts: ids_of(tables),
                },
            ),
        }
    }

    /// The handler without the tasks called `task_id`; the tables that they
    /// read are released.
    pub open spec fn remove_task(self, task_id: u64) -> HandlerView {
        HandlerView {
            level: self.level,
            compacting: Map::new(
                |id: u64| self.compacting.contains_key(id) && !task_reads(self.tasks, task_id, id),
                |id: u64| self.compacting[id],
            ),
            tasks: self.tasks.filter(|t: TaskView| t.task_id != task_id),
        }
    }

    /// Every table that is marked is read by the task that it is marked with.
    pub open spec fn consistent(self) -> bool {
        &&& forall|i: int, id: u64|
            0 <= i < self.tasks.len() && #[trigger] self.tasks[i].ssts.contains(id)
                ==> self.compacting.contains_key(id)
        &&& forall|id: u64| #[trigger]
            self.compacting.contains_key(id) ==> task_reads(self.tasks, self.compacting[id], id)
    }
}

proof fn lemma_task_size_push(tasks: Seq<TaskView>, t: TaskView)
    ensures
        task_size(tasks.push(t)) == task_size(tasks) + t.total_file_size,
{
    assert(tasks.push(t).drop_last() =~= tasks);
}

proof fn lemma_task_size_prefix(tasks: Seq<TaskView>, n: int)
    requires
        0 <= n <= tasks.len(),
    ensures
        task_size(tasks.subrange(0, n)) <= task_size(tasks),
    decreases tasks.len(),
{
    if n < tasks.len() {
        lemma_task_size_prefix(tasks.drop_last(), n);
        assert(tasks.drop_last().subrange(0, n) =~= tasks.subrange(0, n));
    } else {
        assert(tasks.subrange(0, n) =~= tasks);
    }
}

/// The filter of a prefix grows by the next task if that task qualifies.
proof fn lemma_filter_prefix(tasks: Seq<TaskView>, p: spec_fn(TaskView) -> bool, n: int)
    requires
        0 <= n < tasks.len(),
    ensures
        tasks.subrange(0, n + 1).filter(p) == if p(tasks[n]) {
            tasks.subrange(0, n).filter(p).push(tasks[n])
        } else {
            tasks.subrange(0, n).filter(p)
        },
{
    reveal(Seq::filter);
    assert(tasks.subrange(0, n + 1).drop_last() =~= tasks.subrange(0, n));
}

/// Adding a task that reads tables which no task reads yet, then removing it,
/// gives the handler back as it was.
pub proof fn law_remove_undoes_add(h: HandlerView, task_id: u64, target_level: u32, tables: Seq<SstView>)
    requires
        h.consistent(),
        forall|i: int| 0 <= i < h.tasks.len() ==> (#[trigger] h.tasks[i]).task_id != task_id,
        !h.any_pending(tables),
    ensures
        h.add_task(task_id, target_level, tables).remove_task(task_id) == h,
{
    let added = h.add_task(task_id, target_level, tables);
    let removed = added.remove_task(task_id);
    let last = added.tasks[h.tasks.len() as int];
    let p = |t: TaskView| t.task_id != task_id;
    assert forall|id: u64| #[trigger] ids_of(tables).contains(id) implies !h.compacting.contains_key(
        id,
    ) by {
        let i = choose|i: int| 0 <= i < ids_of(tables).len() && ids_of(tables)[i] == id;
        assert(tables[i].id == id);
    }
    assert forall|id: u64| task_reads(added.tasks, task_id, id) == ids_of(tables).contains(id) by {
        if ids_of(tables).contains(id) {
            assert(last.task_id == task_id && last.ssts.contains(id));
        }
        if task_reads(added.tasks, task_id, id) {
            let i = choose|i: int|
                0 <= i < added.tasks.len() && (#[trigger] added.tasks[i]).task_id == task_id
                    && added.tasks[i].ssts.contains(id);
            if i < h.tasks.len() {
                assert(added.tasks[i] == h.tasks[i]);
            }
        }
    }
    assert(removed.compacting =~= h.compacting);
    assert(added.tasks.filter(p) =~= h.tasks) by {
        reveal(Seq::filter);
        assert(added.tasks.drop_last() =~= h.tasks);
        lemma_filter_all(h.tasks, p);
    }
    assert(removed =~= h);
}

proof fn lemma_filter_all(tasks: Seq<TaskView>, p: spec_fn(TaskView) -> bool)
    requires
        forall|i: int| 0 <= i < tasks.len() ==> p(#[trigger] tasks[i]),
    ensures
        tasks.filter(p) == tasks,
    decreases tasks.len(),
{
    reveal(Seq::filter);
    if tasks.len() > 0 {
        let rest = tasks.drop_last();
        assert forall|i: int| 0 <= i < rest.len() implies p(#[trigger] rest[i]) by {
            assert(rest[i] == tasks[i]);
        }
        lemma_filter_all(rest, p);
        assert(rest.push(tasks.last()) =~= tasks);
    } else {
        assert(tasks.filter(p) =~= tasks);
    }
}

/// Adding a task keeps the marks and the tasks consistent.
pub proof fn law_add_task_keeps_consistent(h: HandlerView, task_id: u64, target_level: u32, tables: Seq<SstView>)
    requires
        h.consistent(),
    ensures
        h.add_task(task_id, target_level, tables).consistent(),
{
    let added = h.add_task(task_id, target_level, tables);
    let n = h.tasks.len() as int;
    assert forall|i: int, id: u64|
        0 <= i < added.tasks.len() && #[trigger] added.tasks[i].ssts.contains(id) implies added.compacting.contains_key(
        id,
    ) by {
        if i < n {
            assert(h.tasks[i].ssts.contains(id));
        }
    }
    assert forall|id: u64| #[trigger] added.compacting.contains_key(id) implies task_reads(
        added.tasks,
        added.compacting[id],
        id,
    ) by {
        if ids_of(tables).contains(id) {
            assert(added.tasks[n].task_id == task_id && added.tasks[n].ssts.contains(id));
        } else {
            assert(h.compacting.contains_key(id));
            let i = choose|i: int|
                0 <= i < h.tasks.len() && (#[trigger] h.tasks[i]).task_id == h.compacting[id]
                    && h.tasks[i].ssts.contains(id);
            assert(added.tasks[i] == h.tasks[i]);
        }
    }
}

impl LevelHandler {
    /// The handler of an idle level.
    pub fn new(level: u32) -> (r: LevelHandler)
        ensures
            r@ == (HandlerView { level, compacting: Map::empty(), tasks: Seq::empty() }),
    {
        let r = LevelHandler { level, compacting_files: HashMap::new(), pending_tasks: Vec::new() };
        proof {
            assert(r@.tasks =~= Seq::<TaskView>::empty());
        }
        r
    }

    /// The level that the handler is for.
    pub fn get_level(&self) -> (r: u32)
        ensures
            r == self@.level,
    {
        self.level
    }

    /// Forgets the tasks called `target_task_id` and releases their tables.
    pub fn remove_task(&mut self, target_task_id: u64)
        ensures
            final(self)@ == old(self)@.remove_task(target_task_id),
    {
        let ghost before = self@;
        let ghost p = |t: TaskView| t.task_id != target_task_id;
        let mut kept: Vec<RunningCompactTask> = Vec::new();
        let mut rest: Vec<RunningCompactTask> = Vec::new();
        std::mem::swap(&mut rest, &mut self.pending_tasks);
        let ghost all = rest@;
        let ghost mut n: int = 0;
        proof {
            reveal(Seq::filter);
            assert(Seq::new(kept@.len(), |j: int| kept@[j]@) =~= before.tasks.subrange(0, 0).filter(p));
        }
        for task in iter: rest
            invariant
                n == iter.index(),
                iter.seq() == all,
                before.tasks == Seq::new(all.len(), |i: int| all[i]@),
                p == (|t: TaskView| t.task_id != target_task_id),
                self.level == before.level,
                Seq::new(kept@.len(), |j: int| kept@[j]@) == before.tasks.subrange(0, n as int).filter(p),
                forall|id: u64| #[trigger] self.compacting_files@.contains_key(id) == (
                before.compacting.contains_key(id) && !task_reads(
                    before.tasks.subrange(0, n as int),
                    target_task_id,
                    id,
                )),
                forall|id: u64| #[trigger] self.compacting_files@.contains_key(id)
                    ==> self.compacting_files@[id] == before.compacting[id],
        {
            let ghost prefix = before.tasks.subrange(0, n as int);
            let ghost longer = before.tasks.subrange(0, n + 1);
            proof {
                lemma_filter_prefix(before.tasks, p, n as int);
                assert(before.tasks[n as int] == task@);
                lemma_task_reads_step(before.tasks, target_task_id, n as int);
            }
            if task.task_id == target_task_id {
                let ghost at_start = self.compacting_files@;
                let mut k: usize = 0;
                while k < task.ssts.len()
                    invariant
                        k <= task.ssts@.len(),
                        self.level == before.level,
                        forall|id: u64| #[trigger] self.compacting_files@.contains_key(id) == (
                        at_start.contains_key(id) && !task.ssts@.subrange(0, k as int).contains(id)),
                        forall|id: u64| #[trigger] self.compacting_files@.contains_key(id)
                            ==> self.compacting_files@[id] == at_start[id],
                    decreases task.ssts@.len() - k,
                {
                    let id: u64 = task.ssts[k];
                    self.compacting_files.remove(&id);
                    proof {
                        let shorter = task.ssts@.subrange(0, k as int);
                        assert(task.ssts@.subrange(0, k + 1) =~= shorter.push(id));
                        assert forall|x: u64| shorter.push(id).contains(x) == (shorter.contains(x) || x == id) by {
                            if shorter.contains(x) {
                                let j = choose|j: int| 0 <= j < shorter.len() && shorter[j] == x;
                                assert(shorter.push(id)[j] == x);
                            }
                            assert(shorter.push(id)[shorter.len() as int] == id);
                        }
                    }
                    k = k + 1;
                }
                proof {
                    assert(task.ssts@.subrange(0, k as int) =~= task.ssts@);
                }
            } else {
                kept.push(task);
            }
            proof {
                n = n + 1;
                assert(Seq::new(kept@.len(), |j: int| kept@[j]@) =~= longer.filter(p));
            }
        }
        self.pending_tasks = kept;
        proof {
            assert(before.tasks.subrange(0, n as int) =~= before.tasks);
            let after = before.remove_task(target_task_id);
            assert(self@.tasks =~= after.tasks);
            assert(self@.compacting =~= after.compacting);
        }
    }

    /// Whether a table is being compacted.
    pub fn is_pending_compact(&self, sst_id: &u64) -> (r: bool)
        ensures
            r == self@.is_pending(*sst_id),
    {
        self.compacting_files.contains_key(sst_id)
    }

    /// Whether any of `tables` is being compacted.
    pub fn any_table_pending(&self, tables: &Vec<SstableInfo>) -> (r: bool)
        ensures
            r == self@.any_pending(sst_views(tables@)),
    {
        let ghost views = sst_views(tables@);
        let mut i: usize = 0;
        while i < tables.len()
            invariant
                views == sst_views(tables@),
                i <= tables@.len(),
                forall|j: int| 0 <= j < i ==> !self@.is_pending(#[trigger] views[j].id),
            decreases tables@.len() - i,
        {
            if self.is_pending_compact(&tables[i].id) {
                proof {
                    assert(self@.is_pending(views[i as int].id));
                }
                return true;
            }
            i = i + 1;
        }
        false
    }

    /// Whether any table of `level` is being compacted.
    pub fn is_level_pending_compact(&self, level: &Level) -> (r: bool)
        ensures
            r == self@.any_pending(level@.tables),
    {
        self.any_table_pending(&level.table_infos)
    }

    /// Adds a task that reads `ssts` and writes to `target_level`.
    pub fn add_pending_task(&mut self, task_id: u64, target_level: usize, ssts: &Vec<SstableInfo>)
        requires
            target_level <= u32::MAX,
            total_size(sst_views(ssts@)) <= u64::MAX,
        ensures
            final(self)@ == old(self)@.add_task(task_id, target_level as u32, sst_views(ssts@)),
    {
        let ghost before = self@;
        let ghost views = sst_views(ssts@);
        let mut table_ids: Vec<u64> = Vec::new();
        let mut total_file_size: u64 = 0;
        let mut i: usize = 0;
        while i < ssts.len()
            invariant
                views == sst_views(ssts@),
                i <= ssts@.len(),
                total_size(views) <= u64::MAX,
                total_file_size == total_size(views.subrange(0, i as int)),
                table_ids@ == ids_of(views).subrange(0, i as int),
                self.level == before.level,
                self.pending_tasks == old(self).pending_tasks,
                before == old(self)@,
                forall|id: u64| #[trigger] self.compacting_files@.contains_key(id) == (
                before.compacting.contains_key(id) || table_ids@.contains(id)),
                forall|id: u64| #[trigger] self.compacting_files@.contains_key(id)
                    ==> self.compacting_files@[id] == if table_ids@.contains(id) {
                    task_id
                } else {
                    before.compacting[id]
                },
            decreases ssts@.len() - i,
        {
            proof {
                assert(views.subrange(0, i + 1) =~= views.subrange(0, i as int).push(views[i as int]));
                lemma_total_size_push(views.subrange(0, i as int), views[i as int]);
                lemma_total_size_prefix(views, i + 1);
            }
            let id: u64 = ssts[i].id;
            self.compacting_files.insert(id, task_id);
            total_file_size = total_file_size + ssts[i].file_size;
            let ghost shorter = table_ids@;
            table_ids.push(id);
            proof {
                assert forall|x: u64| shorter.push(id).contains(x) == (shorter.contains(x) || x == id) by {
                    if shorter.contains(x) {
                        let j = choose|j: int| 0 <= j < shorter.len() && shorter[j] == x;
                        assert(shorter.push(id)[j] == x);
                    }
                    assert(shorter.push(id)[shorter.len() as int] == id);
                }
                assert(ids_of(views).subrange(0, i + 1) =~= shorter.push(id));
            }
            i = i + 1;
        }
        proof {
            assert(views.subrange(0, i as int) =~= views);
            assert(ids_of(views).subrange(0, i as int) =~= ids_of(views));
        }
        self.pending_tasks.push(
            RunningCompactTask { task_id, target_level: target_level as u32, total_file_size, ssts: table_ids },
        );
        proof {
            let after = before.add_task(task_id, target_level as u32, views);
            assert(self@.compacting =~= after.compacting);
            assert(self@.tasks =~= after.tasks);
        }
    }

    /// How many tables are being compacted.
    pub fn get_pending_file_count(&self) -> (r: usize)
        ensures
            r == self@.compacting.dom().len(),
    {
        self.compacting_files.len()
    }

    /// How many bytes are being compacted.
    pub fn get_pending_file_size(&self) -> (r: u64)
        requires
            task_size(self@.tasks) <= u64::MAX,
        ensures
            r == task_size(self@.tasks),
    {
        let ghost tasks = self@.tasks;
        let mut sum: u64 = 0;
        let mut i: usize = 0;
        while i < self.pending_tasks.len()
            invariant
                tasks == self@.tasks,
                i <= self.pending_tasks@.len(),
                task_size(tasks) <= u64::MAX,
                sum == task_size(tasks.subrange(0, i as int)),
            decreases self.pending_tasks@.len() - i,
        {
            proof {
                assert(tasks.subrange(0, i + 1) =~= tasks.subrange(0, i as int).push(tasks[i as int]));
                lemma_task_size_push(tasks.subrange(0, i as int), tasks[i as int]);
                lemma_task_size_prefix(tasks, i + 1);
            }
            sum = sum + self.pending_tasks[i].total_file_size;
            i = i + 1;
        }
        proof {
            assert(tasks.subrange(0, i as int) =~= tasks);
        }
        sum
    }

    /// How many bytes are being compacted into `target_level`.
    pub fn get_pending_output_file_size(&self, target_level: u32) -> (r: u64)
        requires
            task_size(tasks_to(self@.tasks, target_level)) <= u64::MAX,
        ensures
            r == task_size(tasks_to(self@.tasks, target_level)),
    {
        let ghost tasks = self@.tasks;
        let ghost p = |t: TaskView| t.target_level == target_level;
        let mut sum: u64 = 0;
        let mut i: usize = 0;
        proof {
            reveal(Seq::filter);
            assert(tasks.subrange(0, 0).filter(p) =~= Seq::<TaskView>::empty());
        }
        while i < self.pending_tasks.len()
            invariant
                tasks == self@.tasks,
                p == (|t: TaskView| t.target_level == target_level),
                i <= self.pending_tasks@.len(),
                task_size(tasks.filter(p)) <= u64::MAX,
                sum == task_size(tasks.subrange(0, i as int).filter(p)),
            decreases self.pending_tasks@.len() - i,
        {
            proof {
                lemma_filter_prefix(tasks, p, i as int);
                if p(tasks[i as int]) {
                    lemma_task_size_push(tasks.subrange(0, i as int).filter(p), tasks[i as int]);
                }
                lemma_filtered_size_prefix(tasks, p, i + 1);
            }
            if self.pending_tasks[i].target_level == target_level {
                sum = sum + self.pending_tasks[i].total_file_size;
            }
            i = i + 1;
        }
        proof {
            assert(tasks.subrange(0, i as int) =~= tasks);
        }
        sum
    }
}

proof fn lemma_filtered_size_prefix(tasks: Seq<TaskView>, p: spec_fn(TaskView) -> bool, n: int)
    requires
        0 <= n <= tasks.len(),
    ensures
        task_size(tasks.subrange(0, n).filter(p)) <= task_size(tasks.filter(p)),
    decreases tasks.len() - n,
{
    if n < tasks.len() {
        lemma_filter_prefix(tasks, p, n);
        if p(tasks[n]) {
            lemma_task_size_push(tasks.subrange(0, n).filter(p), tasks[n]);
        }
        lemma_filtered_size_prefix(tasks, p, n + 1);
    } else {
        assert(tasks.subrange(0, n) =~= tasks);
    }
}

proof fn lemma_task_reads_step(tasks: Seq<TaskView>, task_id: u64, n: int)
    requires
        0 <= n < tasks.len(),
    ensures
        forall|id: u64| #[trigger] task_reads(tasks.subrange(0, n + 1), task_id, id) == (task_reads(
            tasks.subrange(0, n),
            task_id,
            id,
        ) || (tasks[n].task_id == task_id && tasks[n].ssts.contains(id))),
{
    let short = tasks.subrange(0, n);
    let long = tasks.subrange(0, n + 1);
    assert forall|id: u64| #[trigger] task_reads(long, task_id, id) == (task_reads(short, task_id, id) || (
    tasks[n].task_id == task_id && tasks[n].ssts.contains(id))) by {
        if task_reads(short, task_id, id) {
            let i = choose|i: int|
                0 <= i < short.len() && (#[trigger] short[i]).task_id == task_id && short[i].ssts.contains(id);
            assert(long[i] == short[i]);
        }
        if tasks[n].task_id == task_id && tasks[n].ssts.contains(id) {
            assert(long[n] == tasks[n]);
        }
        if task_reads(long, task_id, id) {
            let i = choose|i: int|
                0 <= i < long.len() && (#[trigger] long[i]).task_id == task_id && long[i].ssts.contains(id);
            if i < n {
                assert(short[i] == long[i]);
            }
        }
    }
}

/// A task that was added marks the tables that it reads, and no others. The bytes that are being
/// compacted, and those that go to its target level, grow by the size of these tables; those
/// that go elsewhere stay.
pub proof fn law_added_task_is_counted(h: HandlerView, task_id: u64, target_level: u32, tables: Seq<SstView>, id: u64, level: u32)
    requires
        total_size(tables) <= u64::MAX,
    ensures
        ({
            let added = h.add_task(task_id, target_level, tables);
            let before = task_size(tasks_to(h.tasks, level));
            &&& added.is_pending(id) <==> h.is_pending(id) || exists|i: int|
                0 <= i < tables.len() && (#[trigger] tables[i]).id == id
            &&& task_size(added.tasks) == task_size(h.tasks) + total_size(tables)
            &&& task_size(tasks_to(added.tasks, level)) == if level == target_level {
                before + total_size(tables)
            } else {
                before
            }
        }),
{
    let added = h.add_task(task_id, target_level, tables);
    let ids = ids_of(tables);
    let task = added.tasks.last();
    assert(added.tasks.drop_last() =~= h.tasks);
    if ids.contains(id) {
        let i = ids.index_of(id);
        assert(tables[i].id == id);
    }
    if exists|i: int| 0 <= i < tables.len() && (#[trigger] tables[i]).id == id {
        let i = choose|i: int| 0 <= i < tables.len() && (#[trigger] tables[i]).id == id;
        assert(ids[i] == id);
    }
    reveal(Seq::filter);
    if level == target_level {
        lemma_task_size_push(tasks_to(h.tasks, level), task);
    }
}

/// A task that was removed releases the tables that it reads, and no others; the other tasks stay.
pub proof fn law_removed_task_releases_its_tables(h: HandlerView, task_id: u64, id: u64)
    ensures
        ({
            let removed = h.remove_task(task_id);
            &&& removed.is_pending(id) <==> h.is_pending(id) && !exists|i: int|
                0 <= i < h.tasks.len() && (#[trigger] h.tasks[i]).task_id == task_id && h.tasks[i].ssts.contains(id)
            &&& forall|i: int| 0 <= i < removed.tasks.len() ==> (#[trigger] removed.tasks[i]).task_id != task_id
            &&& forall|i: int|
                0 <= i < h.tasks.len() && (#[trigger] h.tasks[i]).task_id != task_id ==> removed.tasks.contains(
                    h.tasks[i],
                )
        }),
{
    broadcast use vstd::seq_lib::group_filter_ensures;

    let removed = h.remove_task(task_id);
    let p = |t: TaskView| t.task_id != task_id;
    assert forall|i: int| 0 <= i < h.tasks.len() && (#[trigger] h.tasks[i]).task_id != task_id implies removed.tasks.contains(
        h.tasks[i],
    ) by {
        assert(p(h.tasks[i]));
    }
    assert forall|i: int| 0 <= i < removed.tasks.len() implies (#[trigger] removed.tasks[i]).task_id != task_id by {
        assert(p(h.tasks.filter(p)[i]));
    }
}

/// A list has a table that is being compacted exactly if one of its tables is.
pub proof fn law_any_pending_is_some_table(h: HandlerView, tables: Seq<SstView>)
    ensures
        !h.any_pending(tables) <==> forall|t: SstView| #[trigger] tables.contains(t) ==> !h.compacting.contains_key(t.id),
{
    if !h.any_pending(tables) {
        assert forall|t: SstView| #[trigger] tables.contains(t) implies !h.compacting.contains_key(t.id) by {
            let i = tables.index_of(t);
            assert(!h.is_pending(tables[i].id));
        }
    } else {
        let i = choose|i: int| 0 <= i < tables.len() && h.is_pending(#[trigger] tables[i].id);
        assert(tables.contains(tables[i]));
    }
}

} // verus!

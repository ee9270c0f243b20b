//! Writing batches from several tasks at a time, epoch by epoch.

use vstd::layout::spec_size_of_val;
use vstd::prelude::*;

use crate::hummock::key::copy_bytes;

verus! {

/// How many tasks there are and how many have finished the epoch, in one number, and
/// the epoch.
#[derive(Debug)]
pub struct BatchTaskContext {
    task_count: usize,
    epoch: u64,
}

/// The tasks of an epoch.
pub struct Tasks {
    /// The tasks that are left.
    pub origin: int,
    /// The tasks that have finished the epoch.
    pub finished: int,
}

/// The tasks that a number stands for.
pub open spec fn tasks_of(task_count: usize) -> Tasks {
    Tasks { origin: (task_count / 256) as int, finished: (task_count % 256) as int }
}

/// Some task has not finished the epoch, or there is none at all.
pub open spec fn tasks_open(t: Tasks) -> bool {
    &&& 0 <= t.origin < 256
    &&& t.finished == 0 || 0 < t.finished < t.origin
}

/// The tasks after one of them has finished the epoch, or has exited, before it is
/// seen whether all have.
pub open spec fn counted(t: Tasks, exit: bool) -> Tasks {
    if exit {
        Tasks { origin: t.origin - 1, ..t }
    } else {
        Tasks { finished: t.finished + 1, ..t }
    }
}

/// All tasks have finished the epoch.
pub open spec fn all_finished(t: Tasks) -> bool {
    t.finished == t.origin
}

/// The tasks after one of them has finished the epoch, or has exited. A new epoch
/// begins when all have finished.
pub open spec fn tasks_after(t: Tasks, exit: bool) -> Tasks {
    let c = counted(t, exit);
    if all_finished(c) {
        Tasks { finished: 0, ..c }
    } else {
        c
    }
}

/// The number after one task has finished the epoch, or has exited, and whether all
/// tasks have finished it.
pub fn next_task_count(task_count: usize, exit: bool) -> (r: (usize, bool))
    requires
        tasks_open(tasks_of(task_count)),
        tasks_of(task_count).origin > 0,
    ensures
        tasks_of(r.0) == tasks_after(tasks_of(task_count), exit),
        r.1 == all_finished(counted(tasks_of(task_count), exit)),
        tasks_open(tasks_of(r.0)),
{
    let mut origin_task_count: usize = task_count / 256;
    let mut finish_count: usize = task_count % 256;
    if exit {
        origin_task_count = origin_task_count - 1;
    } else {
        finish_count = finish_count + 1;
    }
    let finished = finish_count == origin_task_count;
    if finished {
        finish_count = 0;
    }
    (origin_task_count * 256 + finish_count, finished)
}

impl BatchTaskContext {
    /// The tasks.
    pub closed spec fn tasks(&self) -> Tasks {
        tasks_of(self.task_count)
    }

    /// The epoch.
    pub closed spec fn epoch_of(&self) -> u64 {
        self.epoch
    }

    /// The given number of tasks, in the first epoch.
    pub fn new(origin_task_count: usize) -> (r: Self)
        requires
            origin_task_count < 256,
        ensures
            r.tasks() == (Tasks { origin: origin_task_count as int, finished: 0 }),
            tasks_open(r.tasks()),
            r.epoch_of() == 0,
    {
        BatchTaskContext { task_count: origin_task_count * 256, epoch: 0 }
    }

    /// The epoch.
    pub fn epoch(&self) -> (r: u64)
        ensures
            r == self.epoch_of(),
    {
        self.epoch
    }

    /// Notes that a task has finished the epoch, or has exited; whether all tasks have
    /// finished it.
    pub fn epoch_barrier_finish(&mut self, exit: bool) -> (r: bool)
        requires
            tasks_open(old(self).tasks()),
            old(self).tasks().origin > 0,
        ensures
            final(self).tasks() == tasks_after(old(self).tasks(), exit),
            r == all_finished(counted(old(self).tasks(), exit)),
            tasks_open(final(self).tasks()),
            final(self).epoch_of() == old(self).epoch_of(),
            exit ==> r == (old(self).tasks().finished == old(self).tasks().origin - 1) && final(self).tasks().origin
                == old(self).tasks().origin - 1,
            !exit ==> r == (old(self).tasks().finished + 1 == old(self).tasks().origin) && final(self).tasks().origin
                == old(self).tasks().origin,
            r ==> final(self).tasks().finished == 0,
            !r ==> final(self).tasks().finished == old(self).tasks().finished + if exit {
                0int
            } else {
                1int
            },
    {
        let (task_count, finished) = next_task_count(self.task_count, exit);
        self.task_count = task_count;
        finished
    }

    /// Notes that a task has written batch `i` of its `l` batches, the last of which
    /// ends the task. If all tasks have finished the epoch, the epoch is to be made
    /// durable, and the next one begins.
    pub fn finish_batch(&mut self, i: usize, l: usize) -> (r: Option<u64>)
        requires
            tasks_open(old(self).tasks()),
            old(self).tasks().origin > 0,
            old(self).epoch_of() < u64::MAX,
            i < l,
        ensures
            final(self).tasks() == tasks_after(old(self).tasks(), i + 1 == l),
            tasks_open(final(self).tasks()),
            if all_finished(counted(old(self).tasks(), i + 1 == l)) {
                r == Some(old(self).epoch_of()) && final(self).epoch_of() == old(self).epoch_of() + 1
            } else {
                r is None && final(self).epoch_of() == old(self).epoch_of()
            },
    {
        let epoch: u64 = self.epoch;
        let last_batch = i + 1 == l;
        if self.epoch_barrier_finish(last_batch) {
            self.epoch = epoch + 1;
            Some(epoch)
        } else {
            None
        }
    }
}

/// The tasks after `n` of them have finished the epoch.
pub open spec fn after_finishes(t: Tasks, n: nat) -> Tasks
    decreases n,
{
    if n == 0 {
        t
    } else {
        tasks_after(after_finishes(t, (n - 1) as nat), false)
    }
}

/// An epoch ends when the last of its tasks has finished it, and not before.
pub proof fn law_epoch_ends_with_last_task(t: Tasks, n: nat)
    requires
        tasks_open(t),
        t.finished == 0,
        n < t.origin,
    ensures
        after_finishes(t, n) == (Tasks { origin: t.origin, finished: n as int }),
        all_finished(counted(after_finishes(t, n), false)) <==> n + 1 == t.origin,
    decreases n,
{
    if n > 0 {
        law_epoch_ends_with_last_task(t, (n - 1) as nat);
    }
}

/// The batches of group `g`, in their order, when the first `m` batches are dealt out
/// to `n` groups in turn.
pub open spec fn dealt<B>(batches: Seq<B>, n: int, g: int, m: int) -> Seq<B>
    decreases m,
{
    if m <= 0 {
        Seq::empty()
    } else if (m - 1) % n == g {
        dealt(batches, n, g, m - 1).push(batches[m - 1])
    } else {
        dealt(batches, n, g, m - 1)
    }
}

/// Deals batches out to `n` groups in turn.
pub fn group_batches<B>(batches: Vec<B>, n: usize) -> (r: Vec<Vec<B>>)
    requires
        batches@.len() > 0 ==> n > 0,
    ensures
        r@.len() == n,
        forall|g: int|
            0 <= g < n ==> (#[trigger] r@[g])@ == dealt(batches@, n as int, g, batches@.len() as int),
{
    let mut grouped: Vec<Vec<B>> = Vec::new();
    let mut k: usize = 0;
    while k < n
        invariant
            k <= n,
            grouped@.len() == k,
            forall|g: int| 0 <= g < k ==> (#[trigger] grouped@[g])@ == Seq::<B>::empty(),
        decreases n - k,
    {
        let group: Vec<B> = Vec::new();
        grouped.push(group);
        k = k + 1;
    }
    let ghost all = batches@;
    let total: usize = batches.len();
    let mut i: usize = 0;
    for batch in iter: batches
        invariant
            all.len() > 0 ==> n > 0,
            iter.seq() == all,
            i == iter.index(),
            all.len() == total,
            grouped@.len() == n,
            forall|g: int| 0 <= g < n ==> (#[trigger] grouped@[g])@ == dealt(all, n as int, g, i as int),
    {
        let ghost before = grouped@;
        let g: usize = i % n;
        grouped[g].push(batch);
        proof {
            assert forall|h: int| 0 <= h < n implies (#[trigger] grouped@[h])@ == dealt(all, n as int, h, i + 1) by {
                assert(before[h]@ == dealt(all, n as int, h, i as int));
            }
        }
        i = i + 1;
    }
    grouped
}

proof fn lemma_dealt_len<B>(batches: Seq<B>, n: int, g: int, m: int)
    requires
        0 <= g < n,
        0 <= m,
    ensures
        dealt(batches, n, g, m).len() == (m - g + n - 1) / n,
    decreases m,
{
    if m == 0 {
        assert((n - 1 - g) / n == 0) by (nonlinear_arith)
            requires
                0 <= g < n,
        ;
    } else {
        lemma_dealt_len(batches, n, g, m - 1);
        let k = m - 1;
        let q = k / n;
        let rem = k % n;
        vstd::arithmetic::div_mod::lemma_fundamental_div_mod(k, n);
        assert(k == n * q + rem && 0 <= rem < n);
        if rem == g {
            assert((k - g + n - 1) / n == q) by (nonlinear_arith)
                requires
                    k == n * q + g,
                    0 < n,
            ;
            assert((k + 1 - g + n - 1) / n == q + 1) by (nonlinear_arith)
                requires
                    k == n * q + g,
                    0 < n,
            ;
        } else if rem > g {
            assert((k - g + n - 1) / n == q + 1) by (nonlinear_arith)
                requires
                    k == n * q + rem,
                    0 <= g < rem < n,
            ;
            assert((k + 1 - g + n - 1) / n == q + 1) by (nonlinear_arith)
                requires
                    k == n * q + rem,
                    0 <= g < rem < n,
            ;
        } else {
            assert((k - g + n - 1) / n == q) by (nonlinear_arith)
                requires
                    k == n * q + rem,
                    0 <= rem < g < n,
            ;
            assert((k + 1 - g + n - 1) / n == q) by (nonlinear_arith)
                requires
                    k == n * q + rem,
                    0 <= rem < g < n,
            ;
        }
    }
}

/// Batch `i` goes to group `i % n`, where it is at position `i / n`.
pub proof fn law_batch_position<B>(batches: Seq<B>, n: int, i: int, m: int)
    requires
        0 < n,
        0 <= i < m <= batches.len(),
    ensures
        i / n < dealt(batches, n, i % n, m).len(),
        dealt(batches, n, i % n, m)[i / n] == batches[i],
    decreases m,
{
    let g = i % n;
    let q = i / n;
    vstd::arithmetic::div_mod::lemma_fundamental_div_mod(i, n);
    if i == m - 1 {
        lemma_dealt_len(batches, n, g, m - 1);
        assert((i - g + n - 1) / n == q) by (nonlinear_arith)
            requires
                i == n * q + g,
                0 < n,
        ;
    } else {
        law_batch_position(batches, n, i, m - 1);
    }
}

/// The size of an entry.
pub open spec fn entry_size<K, V>(entry: (K, V)) -> int {
    (spec_size_of_val(&entry.0) + spec_size_of_val(&entry.1)) as int
}

/// The size of the first `n` entries of a batch.
pub open spec fn batch_size<K, V>(batch: Seq<(K, V)>, n: int) -> int
    decreases n,
{
    if n <= 0 {
        0
    } else {
        batch_size(batch, n - 1) + entry_size(batch[n - 1])
    }
}

/// The size of the first `n` batches.
pub open spec fn batches_size<K, V>(batches: Seq<Vec<(K, V)>>, n: int) -> int
    decreases n,
{
    if n <= 0 {
        0
    } else {
        batches_size(batches, n - 1) + batch_size(batches[n - 1]@, batches[n - 1]@.len() as int)
    }
}

proof fn lemma_batch_size_rises<K, V>(batch: Seq<(K, V)>, i: int, n: int)
    requires
        0 <= i <= n,
    ensures
        0 <= batch_size(batch, i) <= batch_size(batch, n),
    decreases n,
{
    if i < n {
        lemma_batch_size_rises(batch, i, n - 1);
    } else if n > 0 {
        lemma_batch_size_rises(batch, i - 1, n - 1);
    }
}

proof fn lemma_batches_size_rises<K, V>(batches: Seq<Vec<(K, V)>>, i: int, n: int)
    requires
        0 <= i <= n,
    ensures
        0 <= batches_size(batches, i) <= batches_size(batches, n),
    decreases n,
{
    if n > 0 {
        lemma_batch_size_rises(batches[n - 1]@, 0, batches[n - 1]@.len() as int);
        if i < n {
            lemma_batches_size_rises(batches, i, n - 1);
        } else {
            lemma_batches_size_rises(batches, i - 1, n - 1);
        }
    }
}

/// The size of batches.
pub fn size_of_batches<K, V>(batches: &Vec<Vec<(K, V)>>) -> (r: usize)
    requires
        batches_size(batches@, batches@.len() as int) <= usize::MAX,
    ensures
        r == batches_size(batches@, batches@.len() as int),
{
    let mut size: usize = 0;
    let mut i: usize = 0;
    while i < batches.len()
        invariant
            i <= batches@.len(),
            size == batches_size(batches@, i as int),
            batches_size(batches@, batches@.len() as int) <= usize::MAX,
        decreases batches@.len() - i,
    {
        let ghost base = size as int;
        proof {
            lemma_batches_size_rises(batches@, i + 1, batches@.len() as int);
        }
        let mut j: usize = 0;
        while j < batches[i].len()
            invariant
                i < batches@.len(),
                j <= batches@[i as int]@.len(),
                0 <= base,
                size == base + batch_size(batches@[i as int]@, j as int),
                base + batch_size(batches@[i as int]@, batches@[i as int]@.len() as int) <= usize::MAX,
            decreases batches@[i as int]@.len() - j,
        {
            proof {
                lemma_batch_size_rises(batches@[i as int]@, j as int, batches@[i as int]@.len() as int);
                lemma_batch_size_rises(batches@[i as int]@, j + 1, batches@[i as int]@.len() as int);
            }
            let key_size: usize = std::mem::size_of_val(&batches[i][j].0);
            let value_size: usize = std::mem::size_of_val(&batches[i][j].1);
            size = size + (key_size + value_size);
            j = j + 1;
        }
        i = i + 1;
    }
    size
}

/// What a run measured, per second.
#[derive(Clone, Copy, Debug, PartialEq, Eq, Structural)]
pub struct PerfMetrics {
    pub qps: u128,
    pub bytes_pre_sec: u128,
}

/// Operations and bytes per second, of batches that took the given time.
pub fn perf_metrics(batch_size: u32, batches_len: u64, size: u64, total_time_nano: u128) -> (r: PerfMetrics)
    requires
        total_time_nano > 0,
    ensures
        r.qps == batch_size * 1_000_000_000 * batches_len / total_time_nano as int,
        r.bytes_pre_sec == size * 1_000_000_000 / total_time_nano as int,
{
    let per_batch: u128 = batch_size as u128 * 1_000_000_000;
    proof {
        assert(0 <= per_batch * batches_len <= 0xFFFF_FFFF * 1_000_000_000 * 0xFFFF_FFFF_FFFF_FFFF) by (nonlinear_arith)
            requires
                0 <= per_batch <= 0xFFFF_FFFF * 1_000_000_000,
                0 <= batches_len <= 0xFFFF_FFFF_FFFF_FFFF,
        ;
    }
    let qps: u128 = per_batch * batches_len as u128 / total_time_nano;
    let bytes_pre_sec: u128 = size as u128 * 1_000_000_000 / total_time_nano;
    PerfMetrics { qps, bytes_pre_sec }
}

/// The keys to delete: the known keys at the positions that were drawn, or new keys if
/// none is known.
pub fn keys_to_delete(keys: &Vec<Vec<u8>>, new_keys: Vec<Vec<u8>>, drawn: &Vec<usize>) -> (r: Vec<Vec<u8>>)
    requires
        keys@.len() > 0 ==> forall|i: int| 0 <= i < drawn@.len() ==> #[trigger] drawn@[i] < keys@.len(),
    ensures
        keys@.len() == 0 ==> r == new_keys,
        keys@.len() > 0 ==> r@.len() == drawn@.len() && forall|i: int|
            0 <= i < drawn@.len() ==> (#[trigger] r@[i])@ == keys@[drawn@[i] as int]@,
{
    if keys.len() == 0 {
        return new_keys;
    }
    let mut r: Vec<Vec<u8>> = Vec::new();
    let mut i: usize = 0;
    while i < drawn.len()
        invariant
            i <= drawn@.len(),
            forall|j: int| 0 <= j < drawn@.len() ==> #[trigger] drawn@[j] < keys@.len(),
            r@.len() == i,
            forall|j: int| 0 <= j < i ==> (#[trigger] r@[j])@ == keys@[drawn@[j] as int]@,
        decreases drawn@.len() - i,
    {
        r.push(copy_bytes(&keys[drawn[i]]));
        i = i + 1;
    }
    r
}

/// The size of a batch counts the keys and the values of all of its entries.
pub proof fn law_batch_size_counts_keys_and_values<K, V>(batch: Seq<(K, V)>, more: (K, V))
    ensures
        batch_size(batch.push(more), (batch.len() + 1) as int) == batch_size(batch, batch.len() as int) + spec_size_of_val(&more.0)
            + spec_size_of_val(&more.1),
        batch_size(batch, 0) == 0,
{
    lemma_batch_size_prefix(batch, more, batch.len() as int);
}

proof fn lemma_batch_size_prefix<K, V>(batch: Seq<(K, V)>, more: (K, V), n: int)
    requires
        0 <= n <= batch.len(),
    ensures
        batch_size(batch.push(more), n) == batch_size(batch, n),
    decreases n,
{
    if n > 0 {
        lemma_batch_size_prefix(batch, more, n - 1);
    }
}

} // verus!

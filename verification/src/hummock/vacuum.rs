//! Which tables and versions can be deleted.

use std::collections::HashSet;

use vstd::prelude::*;

verus! {

broadcast use vstd::std_specs::hash::group_hash_axioms;

/// Seconds between two runs of the vacuum.
pub const VACUUM_TRIGGER_INTERVAL_SECS: u64 = 10;

/// Seconds for which an orphan table is kept.
pub const ORPHAN_SST_RETENTION_INTERVAL_SECS: u64 = 86400;

/// Seconds for which a table that is marked for deletion is kept.
pub const MARKED_DELETION_SST_RETENTION_INTERVAL_SECS: u64 = 60;

/// A timestamp that is not set.
pub const INVALID_TIMESTAMP: u64 = 0;

/// When a table's id was issued, and when its metadata was created and deleted.
#[derive(Clone, Copy, Debug, PartialEq, Eq, Structural)]
pub struct SstableIdInfo {
    pub id: u64,
    pub id_create_timestamp: u64,
    pub meta_create_timestamp: u64,
    pub meta_delete_timestamp: u64,
}

/// At least `interval` seconds have passed from `since` to `now`.
pub open spec fn elapsed(since: u64, now: u64, interval: u64) -> bool {
    now - since >= interval && now >= since
}

/// The table is not tracked in the metadata, and its id is old.
pub open spec fn is_orphan(info: SstableIdInfo, now: u64, retention: u64) -> bool {
    info.meta_create_timestamp == INVALID_TIMESTAMP && elapsed(info.id_create_timestamp, now, retention)
}

/// The table was marked for deletion some time ago.
pub open spec fn is_marked_for_deletion(info: SstableIdInfo, now: u64) -> bool {
    info.meta_delete_timestamp != INVALID_TIMESTAMP && elapsed(
        info.meta_delete_timestamp,
        now,
        MARKED_DELETION_SST_RETENTION_INTERVAL_SECS,
    )
}

/// The table can be deleted.
pub open spec fn is_expired(info: SstableIdInfo, now: u64, retention: u64) -> bool {
    is_orphan(info, now, retention) || is_marked_for_deletion(info, now)
}

/// The ids of the expired ones of the first `n` tables.
pub open spec fn expired_ids(infos: Seq<SstableIdInfo>, now: u64, retention: u64, n: int) -> Seq<u64>
    decreases n,
{
    if n <= 0 {
        Seq::empty()
    } else {
        let rest = expired_ids(infos, now, retention, n - 1);
        if is_expired(infos[n - 1], now, retention) {
            rest.push(infos[n - 1].id)
        } else {
            rest
        }
    }
}

/// A task for a vacuum node.
#[derive(Debug)]
pub enum VacuumTask {
    TrackedData { sstable_ids: Vec<u64> },
    OrphanData { sstable_ids: Vec<u64> },
}

/// Whether at least `interval` seconds have passed.
fn has_elapsed(since: u64, now: u64, interval: u64) -> (r: bool)
    ensures
        r == elapsed(since, now, interval),
{
    now >= since && now - since >= interval
}

/// Lists the members of the set, each of them once.
pub open spec fn is_listing(list: Seq<u64>, set: Set<u64>) -> bool {
    list.no_duplicates() && list.to_set() == set
}

/// `id` occurs in the list from position `i` on.
spec fn listed_from(list: Seq<&u64>, i: int, id: u64) -> bool {
    exists|k: int| i <= k < list.len() && *(#[trigger] list[k]) == id
}

proof fn lemma_listed_step(list: Seq<&u64>, i: int, id: u64)
    requires
        0 <= i < list.len(),
        list.no_duplicates(),
    ensures
        listed_from(list, i + 1, id) == (listed_from(list, i, id) && id != *list[i]),
{
    if listed_from(list, i, id) {
        let k = choose|k: int| i <= k < list.len() && *(#[trigger] list[k]) == id;
        if id != *list[i] {
            assert(k != i);
        }
    }
    if listed_from(list, i + 1, id) {
        let k = choose|k: int| i + 1 <= k < list.len() && *(#[trigger] list[k]) == id;
        assert(list[k] != list[i]);
    }
}

/// Whether `id` is one of `ids`.
fn has_id(ids: &Vec<u64>, id: u64) -> (r: bool)
    ensures
        r == ids@.contains(id),
{
    let mut i: usize = 0;
    while i < ids.len()
        invariant
            i <= ids@.len(),
            forall|j: int| 0 <= j < i ==> ids@[j] != id,
        decreases ids@.len() - i,
    {
        if ids[i] == id {
            return true;
        }
        i = i + 1;
    }
    false
}

/// The members of `ids` that `named` lists; all of them where there is no such list.
fn list_ids(ids: &HashSet<u64>, named: Option<&Vec<u64>>) -> (r: Vec<u64>)
    ensures
        is_listing(r@, match named {
            Some(named) => reported(ids@, named@),
            None => ids@,
        }),
{
    let ghost wanted = match named {
        Some(named) => reported(ids@, named@),
        None => ids@,
    };
    let mut r: Vec<u64> = Vec::new();
    for id in iter: ids.iter()
        invariant
            iter.seq().unref().to_set() == ids@,
            iter.seq().no_duplicates(),
            wanted == match named {
                Some(named) => reported(ids@, named@),
                None => ids@,
            },
            r@.no_duplicates(),
            forall|k: u64| #[trigger]
                wanted.contains(k) ==> r@.contains(k) || listed_from(iter.seq(), iter.index(), k),
            forall|k: u64| #[trigger]
                r@.contains(k) ==> wanted.contains(k) && !listed_from(iter.seq(), iter.index(), k),
    {
        let ghost (list, i, before) = (iter.seq(), iter.index(), r@);
        proof {
            assert(listed_from(list, i, *id)) by {
                assert(*list[i] == *id);
            }
            assert(ids@.contains(*id)) by {
                assert(list.unref()[i] == *id);
            }
            assert forall|k: u64| #[trigger]
                listed_from(list, i + 1, k) == (listed_from(list, i, k) && k != *id) by {
                lemma_listed_step(list, i, k);
            }
        }
        let take: bool = match named {
            Some(named) => has_id(named, *id),
            None => true,
        };
        if take {
            r.push(*id);
            proof {
                assert forall|k: u64| #[trigger] r@.contains(k) == (before.contains(k) || k == *id) by {
                    vstd::seq_lib::lemma_seq_contains_after_push(before, *id, k);
                }
                assert(!before.contains(*id));
            }
        }
    }
    proof {
        assert(r@.to_set() =~= wanted);
    }
    r
}

/// The pending ids that a report names.
pub open spec fn reported(pending: Set<u64>, named: Seq<u64>) -> Set<u64> {
    pending.filter(|id: u64| named.contains(id))
}

/// The pending ids without those that were deleted.
pub open spec fn still_pending(pending: Set<u64>, deleted: Seq<u64>) -> Set<u64> {
    pending.filter(|id: u64| !deleted.contains(id))
}

/// Chooses what is deleted, and remembers what has been handed out.
pub struct VacuumTrigger {
    /// Orphan sst ids which have been dispatched to vacuum nodes but are not replied yet.
    pending_orphan_sst_ids: HashSet<u64>,
}

impl VacuumTrigger {
    /// The orphan ids that have been handed out and not reported yet.
    pub closed spec fn pending(&self) -> Set<u64> {
        self.pending_orphan_sst_ids@
    }

    /// Nothing has been handed out.
    pub fn new() -> (r: VacuumTrigger)
        ensures
            r.pending() == Set::<u64>::empty(),
    {
        VacuumTrigger { pending_orphan_sst_ids: HashSet::new() }
    }

    /// Whether ids that were handed out are retried; then no new ones are looked up.
    pub fn has_pending(&self) -> (r: bool)
        ensures
            r == !self.pending().is_empty(),
    {
        !self.pending_orphan_sst_ids.is_empty()
    }

    /// Selects orphan tables. Those that were handed out before come first; if
    /// there are none, the expired ones of `infos` are taken and remembered.
    pub fn select_orphans(&mut self, infos: &Vec<SstableIdInfo>, now: u64, orphan_retention_secs: u64) -> (r: Vec<u64>)
        ensures
            if old(self).pending().is_empty() {
                r@ == expired_ids(infos@, now, orphan_retention_secs, infos@.len() as int)
            } else {
                is_listing(r@, old(self).pending())
            },
            final(self).pending() == r@.to_set(),
    {
        if !self.pending_orphan_sst_ids.is_empty() {
            return list_ids(&self.pending_orphan_sst_ids, None);
        }
        let mut ssts_to_delete: Vec<u64> = Vec::new();
        let mut i: usize = 0;
        proof {
            assert(self.pending() =~= ssts_to_delete@.to_set());
        }
        while i < infos.len()
            invariant
                i <= infos@.len(),
                ssts_to_delete@ == expired_ids(infos@, now, orphan_retention_secs, i as int),
                self.pending() == ssts_to_delete@.to_set(),
            decreases infos@.len() - i,
        {
            let info = &infos[i];
            let orphan: bool = info.meta_create_timestamp == INVALID_TIMESTAMP && has_elapsed(
                info.id_create_timestamp,
                now,
                orphan_retention_secs,
            );
            let marked: bool = info.meta_delete_timestamp != INVALID_TIMESTAMP && has_elapsed(
                info.meta_delete_timestamp,
                now,
                MARKED_DELETION_SST_RETENTION_INTERVAL_SECS,
            );
            if orphan || marked {
                let ghost before = ssts_to_delete@;
                ssts_to_delete.push(info.id);
                // Keep these sst ids, so that we can remove them from metadata later.
                self.pending_orphan_sst_ids.insert(info.id);
                proof {
                    assert forall|k: u64| #[trigger]
                        ssts_to_delete@.contains(k) == (before.contains(k) || k == info.id) by {
                        vstd::seq_lib::lemma_seq_contains_after_push(before, info.id, k);
                    }
                    assert(self.pending() =~= ssts_to_delete@.to_set());
                }
            }
            i = i + 1;
        }
        ssts_to_delete
    }

    /// Which orphan tables are deleted: the selected ones if a vacuum node took
    /// the task, otherwise none.
    pub fn vacuum_orphan_data(selected: Vec<u64>, assigned: bool) -> (r: Vec<u64>)
        ensures
            r@ == if assigned {
                selected@
            } else {
                Seq::empty()
            },
    {
        if assigned {
            selected
        } else {
            Vec::new()
        }
    }

    /// Of which tables the metadata is deleted when a vacuum node reports a
    /// task: the pending ones that an orphan task names.
    pub fn report_vacuum_task(&self, vacuum_task: &VacuumTask) -> (r: Vec<u64>)
        ensures
            match *vacuum_task {
                VacuumTask::OrphanData { sstable_ids } => is_listing(r@, reported(self.pending(), sstable_ids@)),
                VacuumTask::TrackedData { .. } => r@.len() == 0,
            },
    {
        match vacuum_task {
            VacuumTask::OrphanData { sstable_ids } => list_ids(&self.pending_orphan_sst_ids, Some(sstable_ids)),
            VacuumTask::TrackedData { .. } => Vec::new(),
        }
    }

    /// Forgets pending tables whose metadata has been deleted.
    pub fn forget(&mut self, deleted: &Vec<u64>)
        ensures
            final(self).pending() == still_pending(old(self).pending(), deleted@),
    {
        let ghost pending = self.pending();
        let mut i: usize = 0;
        proof {
            assert(pending =~= still_pending(pending, deleted@.subrange(0, 0)));
        }
        while i < deleted.len()
            invariant
                i <= deleted@.len(),
                self.pending() == still_pending(pending, deleted@.subrange(0, i as int)),
            decreases deleted@.len() - i,
        {
            let ghost done = deleted@.subrange(0, i as int);
            self.pending_orphan_sst_ids.remove(&deleted[i]);
            i = i + 1;
            proof {
                let next = deleted@.subrange(0, i as int);
                assert(next =~= done.push(deleted@[i - 1]));
                assert forall|k: u64| #[trigger] next.contains(k) == (done.contains(k) || k == deleted@[i - 1]) by {
                    vstd::seq_lib::lemma_seq_contains_after_push(done, deleted@[i - 1], k);
                }
                assert(self.pending() =~= still_pending(pending, next));
            }
        }
        proof {
            assert(deleted@.subrange(0, i as int) =~= deleted@);
        }
    }
}

/// A report takes exactly the ids that it names off those that are pending: the others
/// are handed out again.
pub proof fn law_report_settles_named(pending: Set<u64>, named: Seq<u64>, deleted: Seq<u64>, id: u64)
    requires
        is_listing(deleted, reported(pending, named)),
    ensures
        still_pending(pending, deleted).contains(id) == (pending.contains(id) && !named.contains(id)),
{
    assert(deleted.contains(id) == deleted.to_set().contains(id));
}

/// Once everything that was handed out has been reported, nothing is pending.
pub proof fn law_report_all_clears_pending(pending: Set<u64>, named: Seq<u64>, deleted: Seq<u64>)
    requires
        is_listing(named, pending),
        is_listing(deleted, reported(pending, named)),
    ensures
        still_pending(pending, deleted) == Set::<u64>::empty(),
{
    assert forall|id: u64| !still_pending(pending, deleted).contains(id) by {
        law_report_settles_named(pending, named, deleted, id);
        assert(named.contains(id) == named.to_set().contains(id));
    }
    assert(still_pending(pending, deleted) =~= Set::empty());
}

/// What the vacuum of tracked data waits for.
#[derive(Clone, Copy, Debug, PartialEq, Eq, Structural)]
pub enum VacuumPhase {
    PinCount,
    SstsToDelete,
    Assignment,
    VersionDeletion,
    Finished,
}

/// What the vacuum of tracked data asks for next.
#[derive(Debug)]
pub enum VacuumAction {
    /// How often is the version pinned?
    GetPinCount(u64),
    /// Which tables can be deleted with the version?
    GetSstsToDelete(u64),
    /// Hand the deletion of these tables to a vacuum node.
    AssignTask(Vec<u64>),
    /// Delete the version from the metadata.
    DeleteVersion(u64),
    /// Done; so many versions were deleted.
    Finish(u64),
}

/// Deletes versions from the oldest one on. A tracked SST can be deleted when:
/// - The SST is contained only in the smallest version.
/// - And the smallest version is not the greatest version at the same time. We never vacuum the
///   greatest version.
/// - And the smallest version is not being referenced, and we know it won't be referenced in
///   the future because only greatest version can be newly referenced.
pub struct TrackedVacuum {
    version_ids: Vec<u64>,
    next: usize,
    vacuum_count: u64,
    phase: VacuumPhase,
}

/// The value of a [`TrackedVacuum`].
#[verifier::ext_equal]
pub struct TrackedView {
    pub versions: Seq<u64>,
    pub next: int,
    pub count: int,
    pub phase: VacuumPhase,
}

impl View for TrackedVacuum {
    type V = TrackedView;

    closed spec fn view(&self) -> TrackedView {
        TrackedView {
            versions: self.version_ids@,
            next: self.next as int,
            count: self.vacuum_count as int,
            phase: self.phase,
        }
    }
}

/// A state with another phase.
pub open spec fn in_phase(s: TrackedView, phase: VacuumPhase) -> TrackedView {
    TrackedView { versions: s.versions, next: s.next, count: s.count, phase }
}

/// The state in which the version at position `next` is looked at: the
/// greatest version never is.
pub open spec fn at_version(versions: Seq<u64>, next: int) -> TrackedView {
    TrackedView {
        versions,
        next,
        count: next,
        phase: if next + 1 < versions.len() {
            VacuumPhase::PinCount
        } else {
            VacuumPhase::Finished
        },
    }
}

/// An answer to what was asked for.
pub enum VacuumAnswer {
    /// So often the version is pinned.
    PinCount(u64),
    /// These tables can be deleted with the version.
    SstsToDelete(Seq<u64>),
    /// Whether a vacuum node took the tables.
    Assigned(bool),
    /// The version has been deleted.
    VersionDeleted,
}

/// The answer is one to what was asked for in the state.
pub open spec fn answers(s: TrackedView, a: VacuumAnswer) -> bool {
    match a {
        VacuumAnswer::PinCount(_) => s.phase == VacuumPhase::PinCount,
        VacuumAnswer::SstsToDelete(_) => s.phase == VacuumPhase::SstsToDelete,
        VacuumAnswer::Assigned(_) => s.phase == VacuumPhase::Assignment,
        VacuumAnswer::VersionDeleted => s.phase == VacuumPhase::VersionDeletion,
    }
}

/// The state after an answer. A pinned version ends the run, and so does a task that no
/// vacuum node takes.
pub open spec fn after_answer(s: TrackedView, a: VacuumAnswer) -> TrackedView {
    match a {
        VacuumAnswer::PinCount(count) => in_phase(
            s,
            if count > 0 {
                VacuumPhase::Finished
            } else {
                VacuumPhase::SstsToDelete
            },
        ),
        VacuumAnswer::SstsToDelete(ids) => in_phase(
            s,
            if ids.len() > 0 {
                VacuumPhase::Assignment
            } else {
                VacuumPhase::VersionDeletion
            },
        ),
        VacuumAnswer::Assigned(assigned) => in_phase(
            s,
            if assigned {
                VacuumPhase::VersionDeletion
            } else {
                VacuumPhase::Finished
            },
        ),
        VacuumAnswer::VersionDeleted => at_version(s.versions, s.next + 1),
    }
}

/// What is asked for in a state in which a version is looked at, or all is done.
pub open spec fn asks(a: VacuumAction, s: TrackedView) -> bool {
    if s.phase == VacuumPhase::PinCount {
        a == VacuumAction::GetPinCount(s.versions[s.next])
    } else {
        a == VacuumAction::Finish(s.count as u64)
    }
}

impl TrackedVacuum {
    /// As many versions have been deleted as were passed, and the version that
    /// is looked at is not the greatest one.
    pub open spec fn wf(&self) -> bool {
        &&& 0 <= self@.next <= self@.versions.len()
        &&& self@.count == self@.next
        &&& self@.versions.len() <= u64::MAX
        &&& self@.phase != VacuumPhase::Finished ==> self@.next + 1 < self@.versions.len()
    }

    /// What to do in the present state.
    fn ask(&self) -> (r: VacuumAction)
        requires
            self.wf(),
            self@.phase == VacuumPhase::PinCount || self@.phase == VacuumPhase::Finished,
        ensures
            asks(r, self@),
    {
        if self.phase == VacuumPhase::PinCount {
            VacuumAction::GetPinCount(self.version_ids[self.next])
        } else {
            VacuumAction::Finish(self.vacuum_count)
        }
    }

    /// Looks at the version at position `next`.
    fn look(&mut self, next: usize)
        requires
            next <= old(self)@.versions.len() <= u64::MAX,
        ensures
            final(self).wf(),
            final(self)@ == at_version(old(self)@.versions, next as int),
    {
        self.next = next;
        self.vacuum_count = next as u64;
        self.phase = if self.version_ids.len() > 0 && next < self.version_ids.len() - 1 {
            VacuumPhase::PinCount
        } else {
            VacuumPhase::Finished
        };
    }

    /// Starts with the version ids in ascending order.
    pub fn start(version_ids: Vec<u64>) -> (r: (TrackedVacuum, VacuumAction))
        requires
            version_ids@.len() <= u64::MAX,
        ensures
            r.0.wf(),
            r.0@ == at_version(version_ids@, 0),
            asks(r.1, r.0@),
    {
        let mut s = TrackedVacuum { version_ids, next: 0, vacuum_count: 0, phase: VacuumPhase::Finished };
        s.look(0);
        let action = s.ask();
        (s, action)
    }

    /// Takes in how often the version is pinned. A pinned version ends the run.
    pub fn on_pin_count(&mut self, pin_count: u64) -> (r: VacuumAction)
        requires
            old(self).wf(),
            old(self)@.phase == VacuumPhase::PinCount,
        ensures
            final(self).wf(),
            final(self)@ == after_answer(old(self)@, VacuumAnswer::PinCount(pin_count)),
            r == if pin_count > 0 {
                VacuumAction::Finish(old(self)@.count as u64)
            } else {
                VacuumAction::GetSstsToDelete(old(self)@.versions[old(self)@.next])
            },
    {
        if pin_count > 0 {
            // The smallest version is still referenced.
            self.phase = VacuumPhase::Finished;
            VacuumAction::Finish(self.vacuum_count)
        } else {
            self.phase = VacuumPhase::SstsToDelete;
            VacuumAction::GetSstsToDelete(self.version_ids[self.next])
        }
    }

    /// Takes in which tables can be deleted with the version. If there are
    /// any, a vacuum node has to take them.
    pub fn on_ssts_to_delete(&mut self, ssts_to_delete: Vec<u64>) -> (r: VacuumAction)
        requires
            old(self).wf(),
            old(self)@.phase == VacuumPhase::SstsToDelete,
        ensures
            final(self).wf(),
            final(self)@ == after_answer(old(self)@, VacuumAnswer::SstsToDelete(ssts_to_delete@)),
            r == if ssts_to_delete@.len() > 0 {
                VacuumAction::AssignTask(ssts_to_delete)
            } else {
                VacuumAction::DeleteVersion(old(self)@.versions[old(self)@.next])
            },
    {
        if ssts_to_delete.len() > 0 {
            self.phase = VacuumPhase::Assignment;
            VacuumAction::AssignTask(ssts_to_delete)
        } else {
            self.phase = VacuumPhase::VersionDeletion;
            VacuumAction::DeleteVersion(self.version_ids[self.next])
        }
    }

    /// Takes in whether a vacuum node took the tables. If none did, the run ends.
    pub fn on_assigned(&mut self, assigned: bool) -> (r: VacuumAction)
        requires
            old(self).wf(),
            old(self)@.phase == VacuumPhase::Assignment,
        ensures
            final(self).wf(),
            final(self)@ == after_answer(old(self)@, VacuumAnswer::Assigned(assigned)),
            r == if assigned {
                VacuumAction::DeleteVersion(old(self)@.versions[old(self)@.next])
            } else {
                VacuumAction::Finish(old(self)@.count as u64)
            },
    {
        if assigned {
            self.phase = VacuumPhase::VersionDeletion;
            VacuumAction::DeleteVersion(self.version_ids[self.next])
        } else {
            // No compactor is available
            self.phase = VacuumPhase::Finished;
            VacuumAction::Finish(self.vacuum_count)
        }
    }

    /// The version has been deleted; goes on with the next one.
    pub fn on_version_deleted(&mut self) -> (r: VacuumAction)
        requires
            old(self).wf(),
            old(self)@.phase == VacuumPhase::VersionDeletion,
        ensures
            final(self).wf(),
            final(self)@ == after_answer(old(self)@, VacuumAnswer::VersionDeleted),
            asks(r, final(self)@),
    {
        let len: usize = self.version_ids.len();
        let next: usize = self.next + 1;
        self.look(next);
        self.ask()
    }
}

/// The version that is deleted is never the greatest one.
pub proof fn law_greatest_version_stays(s: TrackedVacuum)
    requires
        s.wf(),
        s@.phase == VacuumPhase::VersionDeletion,
        forall|i: int, j: int| 0 <= i < j < s@.versions.len() ==> s@.versions[i] < s@.versions[j],
    ensures
        s@.versions[s@.next] < s@.versions.last(),
{
}

/// The state of a run after its first `n` answers.
pub open spec fn state_after(versions: Seq<u64>, given: Seq<VacuumAnswer>, n: int) -> TrackedView
    decreases n,
{
    if n <= 0 {
        at_version(versions, 0)
    } else {
        after_answer(state_after(versions, given, n - 1), given[n - 1])
    }
}

/// Each answer of the run is one to what was asked for.
pub open spec fn is_run(versions: Seq<u64>, given: Seq<VacuumAnswer>) -> bool {
    forall|k: int| 0 <= k < given.len() ==> answers(state_after(versions, given, k), #[trigger] given[k])
}

/// The versions that were deleted by the first `n` answers of a run, in the order of their deletion.
pub open spec fn deleted_versions(versions: Seq<u64>, given: Seq<VacuumAnswer>, n: int) -> Seq<u64>
    decreases n,
{
    if n <= 0 {
        Seq::empty()
    } else {
        let earlier = deleted_versions(versions, given, n - 1);
        if given[n - 1] is VersionDeleted {
            earlier.push(versions[state_after(versions, given, n - 1).next])
        } else {
            earlier
        }
    }
}

/// The answer at `k` says that the version at position `i` is not pinned.
pub open spec fn says_unpinned(versions: Seq<u64>, given: Seq<VacuumAnswer>, k: int, i: int) -> bool {
    given[k] == VacuumAnswer::PinCount(0) && state_after(versions, given, k).next == i
}

/// One of the first `n` answers says that the version at position `i` is not pinned.
pub open spec fn known_unpinned(versions: Seq<u64>, given: Seq<VacuumAnswer>, n: int, i: int) -> bool {
    exists|k: int| 0 <= k < n && says_unpinned(versions, given, k, i)
}

/// After any answers, exactly the first versions have been deleted, as many as the run has
/// counted, one after the other. Of each of them an answer said that it is not pinned, and
/// the last version is not among them.
pub proof fn law_run_deletes_unpinned_versions(versions: Seq<u64>, given: Seq<VacuumAnswer>, n: int)
    requires
        is_run(versions, given),
        0 <= n <= given.len(),
    ensures
        ({
            let s = state_after(versions, given, n);
            &&& 0 <= s.count <= versions.len()
            &&& deleted_versions(versions, given, n) == versions.subrange(0, s.count)
            &&& versions.len() > 0 ==> s.count < versions.len()
            &&& forall|i: int| 0 <= i < s.count ==> #[trigger] known_unpinned(versions, given, n, i)
        }),
{
    lemma_run(versions, given, n);
    assert forall|i: int| 0 <= i < state_after(versions, given, n).count implies #[trigger] known_unpinned(
        versions,
        given,
        n,
        i,
    ) by {
        lemma_run_unpinned(versions, given, n, i);
    }
}

proof fn lemma_run(versions: Seq<u64>, given: Seq<VacuumAnswer>, n: int)
    requires
        is_run(versions, given),
        0 <= n <= given.len(),
    ensures
        ({
            let s = state_after(versions, given, n);
            &&& s.versions == versions
            &&& s.count == s.next
            &&& 0 <= s.count <= versions.len()
            &&& s.phase != VacuumPhase::Finished ==> s.next + 1 < versions.len()
            &&& versions.len() > 0 ==> s.count < versions.len()
            &&& deleted_versions(versions, given, n) == versions.subrange(0, s.count)
        }),
    decreases n,
{
    if n == 0 {
        assert(deleted_versions(versions, given, 0) =~= versions.subrange(0, 0));
    } else {
        lemma_run(versions, given, n - 1);
        let before = state_after(versions, given, n - 1);
        let a = given[n - 1];
        assert(answers(before, a));
        if a is VersionDeleted {
            assert(versions.subrange(0, before.count + 1) =~= versions.subrange(0, before.count).push(
                versions[before.next],
            ));
        }
    }
}

/// The version at position `i` is behind the run, or has been found not to be pinned.
spec fn passed(s: TrackedView, i: int) -> bool {
    i < s.next || i == s.next && s.phase != VacuumPhase::PinCount && s.phase != VacuumPhase::Finished
}

proof fn lemma_run_unpinned(versions: Seq<u64>, given: Seq<VacuumAnswer>, n: int, i: int)
    requires
        is_run(versions, given),
        0 <= n <= given.len(),
        0 <= i,
        passed(state_after(versions, given, n), i),
    ensures
        known_unpinned(versions, given, n, i),
    decreases n,
{
    if n > 0 {
        let before = state_after(versions, given, n - 1);
        assert(answers(before, given[n - 1]));
        if passed(before, i) {
            lemma_run_unpinned(versions, given, n - 1, i);
            let k = choose|k: int| 0 <= k < n - 1 && says_unpinned(versions, given, k, i);
            assert(says_unpinned(versions, given, k, i));
        } else {
            assert(says_unpinned(versions, given, n - 1, i));
        }
    }
}

/// The tables that can be deleted are those whose id was issued some time ago without metadata, and
/// those that were marked for deletion at least a minute ago.
pub proof fn law_expired_tables(infos: Seq<SstableIdInfo>, now: u64, retention: u64, n: int, id: u64)
    requires
        0 <= n <= infos.len(),
    ensures
        expired_ids(infos, now, retention, n).contains(id) <==> exists|i: int|
            {
                let info = #[trigger] infos[i];
                &&& 0 <= i < n
                &&& info.id == id
                &&& {
                    ||| info.meta_create_timestamp == 0 && info.id_create_timestamp + retention <= now
                        && info.id_create_timestamp <= now
                    ||| info.meta_delete_timestamp > 0 && info.meta_delete_timestamp + 60 <= now
                }
            },
    decreases n,
{
    let list = expired_ids(infos, now, retention, n);
    if n > 0 {
        law_expired_tables(infos, now, retention, n - 1, id);
        let rest = expired_ids(infos, now, retention, n - 1);
        let last = infos[n - 1];
        if is_expired(last, now, retention) {
            vstd::seq_lib::lemma_seq_contains_after_push(rest, last.id, id);
        }
        assert(is_expired(last, now, retention) <==> (last.meta_create_timestamp == 0 && last.id_create_timestamp + retention
            <= now && last.id_create_timestamp <= now || last.meta_delete_timestamp > 0 && last.meta_delete_timestamp + 60
            <= now));
        if list.contains(id) && rest.contains(id) {
            let i = choose|i: int|
                {
                    let info = #[trigger] infos[i];
                    &&& 0 <= i < n - 1
                    &&& info.id == id
                    &&& {
                        ||| info.meta_create_timestamp == 0 && info.id_create_timestamp + retention <= now
                            && info.id_create_timestamp <= now
                        ||| info.meta_delete_timestamp > 0 && info.meta_delete_timestamp + 60 <= now
                    }
                };
            assert(infos[i].id == id);
        }
    }
}

} // verus!

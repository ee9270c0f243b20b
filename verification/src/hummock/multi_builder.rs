//! Splits a sorted run of key-value pairs into tables of limited size.

use vstd::prelude::*;

use crate::hummock::key::{full_key, full_key_spec};

verus! {

/// A stored value, or the mark that a key was deleted.
#[derive(Debug)]
pub enum HummockValue {
    Put(Vec<u8>),
    Delete,
}

/// The value of a [`HummockValue`].
pub type ValueView = Option<Seq<u8>>;

impl View for HummockValue {
    type V = ValueView;

    open spec fn view(&self) -> ValueView {
        match self {
            HummockValue::Put(bytes) => Some(bytes@),
            HummockValue::Delete => None,
        }
    }
}

/// A full key with its value.
pub type PairView = (Seq<u8>, ValueView);

/// The pairs of one table, in the order in which they were added.
#[derive(Debug)]
pub struct SSTableBuilder {
    pub capacity: usize,
    pub approximate_len: usize,
    pub pairs: Vec<(Vec<u8>, HummockValue)>,
}

/// The values of a list of pairs.
pub open spec fn pair_views(pairs: Seq<(Vec<u8>, HummockValue)>) -> Seq<PairView> {
    Seq::new(pairs.len(), |i: int| (pairs[i].0@, pairs[i].1@))
}

/// How many bytes a value takes.
pub open spec fn value_len(v: ValueView) -> nat {
    match v {
        Some(bytes) => bytes.len(),
        None => 0,
    }
}

/// A length after it has grown; it does not grow beyond the largest number.
pub open spec fn grown(len: int, more: int) -> int {
    if len + more > usize::MAX {
        usize::MAX as int
    } else {
        len + more
    }
}

impl SSTableBuilder {
    /// A builder of a table that aims at `capacity` bytes.
    pub fn new(capacity: usize) -> (r: SSTableBuilder)
        ensures
            r.capacity == capacity,
            r.approximate_len == 0,
            r.pairs@.len() == 0,
    {
        SSTableBuilder { capacity, approximate_len: 0, pairs: Vec::new() }
    }

    /// The table holds as much as it should.
    pub open spec fn full(&self) -> bool {
        self.approximate_len >= self.capacity
    }

    /// Whether the table holds as much as it should.
    pub fn reach_capacity(&self) -> (r: bool)
        ensures
            r == self.full(),
    {
        self.approximate_len >= self.capacity
    }

    /// Adds a pair.
    pub fn add(&mut self, key: Vec<u8>, value: HummockValue)
        ensures
            final(self).capacity == old(self).capacity,
            final(self).approximate_len == grown(
                grown(old(self).approximate_len as int, key@.len() as int),
                value_len(value@) as int,
            ),
            pair_views(final(self).pairs@) == pair_views(old(self).pairs@).push((key@, value@)),
    {
        let value_bytes: usize = match &value {
            HummockValue::Put(bytes) => bytes.len(),
            HummockValue::Delete => 0,
        };
        self.approximate_len = self.approximate_len.saturating_add(key.len()).saturating_add(value_bytes);
        let ghost before = self.pairs@;
        self.pairs.push((key, value));
        proof {
            assert(pair_views(self.pairs@) =~= pair_views(before).push((key@, value@)));
        }
    }
}

/// A table that is being built, with its id.
#[derive(Debug)]
pub struct SSTableBuilderWrapper {
    pub id: u64,
    pub builder: SSTableBuilder,
    pub sealed: bool,
}

/// A wrapper for [`SSTableBuilder`] which automatically split key-value pairs into multiple tables,
/// based on their target capacity set in options.
///
/// When building is finished, one may call `finish` to get the results of zero, one or more tables.
pub struct CapacitySplitTableBuilder {
    /// Wrapped [`SSTableBuilder`]s. The last one is what we are operating on.
    builders: Vec<SSTableBuilderWrapper>,
}

/// All pairs of the tables, one table after the other.
pub open spec fn all_pairs(builders: Seq<SSTableBuilderWrapper>) -> Seq<PairView>
    decreases builders.len(),
{
    if builders.len() == 0 {
        Seq::empty()
    } else {
        all_pairs(builders.drop_last()) + pair_views(builders.last().builder.pairs@)
    }
}

/// A new table is needed: there is none, the last one is sealed, or it is full
/// and may be split from.
pub open spec fn new_table_needed(builders: Seq<SSTableBuilderWrapper>, allow_split: bool) -> bool {
    builders.len() == 0 || builders.last().sealed || (allow_split && builders.last().builder.full())
}

/// The tables to which the next pair is added.
pub open spec fn tables_for_next(
    builders: Seq<SSTableBuilderWrapper>,
    allow_split: bool,
    id: u64,
    fresh: SSTableBuilder,
) -> Seq<SSTableBuilderWrapper> {
    if new_table_needed(builders, allow_split) {
        builders.push(SSTableBuilderWrapper { id, builder: fresh, sealed: false })
    } else {
        builders
    }
}

/// The ids and the pairs of the finished tables.
pub open spec fn finished(r: Seq<(u64, Vec<(Vec<u8>, HummockValue)>)>, builders: Seq<SSTableBuilderWrapper>) -> bool {
    &&& r.len() == builders.len()
    &&& forall|i: int|
        0 <= i < r.len() ==> (#[trigger] r[i]).0 == builders[i].id && r[i].1@ == builders[i].builder.pairs@
}

impl CapacitySplitTableBuilder {
    /// The tables that are being built.
    pub closed spec fn tables(&self) -> Seq<SSTableBuilderWrapper> {
        self.builders@
    }

    /// Creates a new [`CapacitySplitTableBuilder`].
    pub fn new() -> (r: CapacitySplitTableBuilder)
        ensures
            r.tables() == Seq::<SSTableBuilderWrapper>::empty(),
    {
        CapacitySplitTableBuilder { builders: Vec::new() }
    }

    /// Returns the number of [`SSTableBuilder`]s.
    pub fn len(&self) -> (r: usize)
        ensures
            r == self.tables().len(),
    {
        self.builders.len()
    }

    /// Returns true if no builder is created.
    pub fn is_empty(&self) -> (r: bool)
        ensures
            r == (self.tables().len() == 0),
    {
        self.builders.len() == 0
    }

    /// Whether the next pair goes into a table that has to be created first.
    pub fn new_builder_required(&self, allow_split: bool) -> (r: bool)
        ensures
            r == new_table_needed(self.tables(), allow_split),
    {
        let n: usize = self.builders.len();
        if n == 0 {
            return true;
        }
        let last = &self.builders[n - 1];
        last.sealed || (allow_split && last.builder.reach_capacity())
    }

    /// Adds a user key-value pair, with given `epoch`. `fresh` is the id and the
    /// builder of a table that is created if one is needed.
    pub fn add_user_key(&mut self, user_key: Vec<u8>, value: HummockValue, epoch: u64, fresh: (u64, SSTableBuilder))
        requires
            user_key@.len() > 0,
            fresh.1.pairs@.len() == 0,
        ensures
            all_pairs(final(self).tables()) == all_pairs(old(self).tables()).push(
                (full_key_spec(user_key@, epoch), value@),
            ),
            added_to_last(
                final(self).tables(),
                tables_for_next(old(self).tables(), true, fresh.0, fresh.1),
                (full_key_spec(user_key@, epoch), value@),
            ),
    {
        let key = full_key(user_key.as_slice(), epoch);
        self.add_full_key(key, value, true, fresh);
    }

    /// Adds a key-value pair to the underlying builders.
    ///
    /// If `allow_split` and the current builder reaches its capacity, the pair goes into a new
    /// table.
    ///
    /// Note that in some cases like compaction of the same user key, automatic splitting is not
    /// allowed, where `allow_split` should be `false`.
    pub fn add_full_key(&mut self, full_key: Vec<u8>, value: HummockValue, allow_split: bool, fresh: (u64, SSTableBuilder))
        requires
            fresh.1.pairs@.len() == 0,
        ensures
            all_pairs(final(self).tables()) == all_pairs(old(self).tables()).push((full_key@, value@)),
            added_to_last(
                final(self).tables(),
                tables_for_next(old(self).tables(), allow_split, fresh.0, fresh.1),
                (full_key@, value@),
            ),
    {
        let ghost before = self.builders@;
        let ghost pair = (full_key@, value@);
        let (id, builder) = fresh;
        if self.new_builder_required(allow_split) {
            self.builders.push(SSTableBuilderWrapper { id, builder, sealed: false });
            proof {
                assert(self.builders@.drop_last() =~= before);
                assert(pair_views(builder.pairs@) =~= Seq::<PairView>::empty());
                assert(all_pairs(self.builders@) =~= all_pairs(before));
            }
        }
        let ghost middle = self.builders@;
        let n: usize = self.builders.len();
        let last: usize = n - 1;
        self.builders[last].builder.add(full_key, value);
        proof {
            assert(self.builders@.drop_last() =~= middle.drop_last());
            assert(all_pairs(self.builders@) =~= all_pairs(middle).push(pair));
        }
    }

    /// Marks the current builder as sealed. Next call of `add` will always create a new table.
    ///
    /// If there's no builder created, or current one is already sealed before, then this function
    /// will be no-op.
    pub fn seal_current(&mut self)
        ensures
            final(self).tables() == sealed_last(old(self).tables()),
    {
        let n: usize = self.builders.len();
        if n > 0 {
            let ghost before = self.builders@;
            let last: usize = n - 1;
            self.builders[last].sealed = true;
            proof {
                assert(self.builders@ =~= sealed_last(before));
            }
        }
    }

    /// Finalizes all the tables: their ids and their pairs.
    pub fn finish(self) -> (r: Vec<(u64, Vec<(Vec<u8>, HummockValue)>)>)
        ensures
            finished(r@, self.tables()),
    {
        let ghost all = self.builders@;
        let mut r: Vec<(u64, Vec<(Vec<u8>, HummockValue)>)> = Vec::new();
        for b in iter: self.builders
            invariant
                iter.seq() == all,
                r@.len() == iter.index(),
                forall|i: int|
                    0 <= i < r@.len() ==> (#[trigger] r@[i]).0 == all[i].id && r@[i].1@ == all[i].builder.pairs@,
        {
            r.push((b.id, b.builder.pairs));
        }
        r
    }
}

/// The tables with the last one sealed.
pub open spec fn sealed_last(builders: Seq<SSTableBuilderWrapper>) -> Seq<SSTableBuilderWrapper> {
    if builders.len() == 0 {
        builders
    } else {
        let last = builders.last();
        builders.update(
            builders.len() - 1,
            SSTableBuilderWrapper { id: last.id, builder: last.builder, sealed: true },
        )
    }
}

/// `after` is `before` with one more pair in the last table.
pub open spec fn added_to_last(after: Seq<SSTableBuilderWrapper>, before: Seq<SSTableBuilderWrapper>, pair: PairView) -> bool {
    &&& before.len() > 0
    &&& after.len() == before.len()
    &&& after.drop_last() == before.drop_last()
    &&& after.last().id == before.last().id
    &&& after.last().sealed == before.last().sealed
    &&& after.last().builder.capacity == before.last().builder.capacity
    &&& after.last().builder.approximate_len == grown(
        grown(before.last().builder.approximate_len as int, pair.0.len() as int),
        value_len(pair.1) as int,
    )
    &&& pair_views(after.last().builder.pairs@) == pair_views(before.last().builder.pairs@).push(pair)
}

/// Sealing twice is the same as sealing once, and changes no pair.
pub proof fn law_seal_idempotent(builders: Seq<SSTableBuilderWrapper>)
    ensures
        sealed_last(sealed_last(builders)) == sealed_last(builders),
        all_pairs(sealed_last(builders)) == all_pairs(builders),
{
    assert(sealed_last(sealed_last(builders)) =~= sealed_last(builders));
    if builders.len() > 0 {
        assert(sealed_last(builders).drop_last() =~= builders.drop_last());
    }
}

/// After sealing, the next pair always goes into a new table.
pub proof fn law_sealed_needs_new_table(builders: Seq<SSTableBuilderWrapper>, allow_split: bool)
    ensures
        new_table_needed(sealed_last(builders), allow_split),
{
}

/// A call that changes the builder.
pub enum BuilderStep {
    Add { pair: PairView, allow_split: bool, id: u64, fresh: SSTableBuilder },
    Seal,
}

/// A call leads from one list of tables to the next.
pub open spec fn step_leads(
    before: Seq<SSTableBuilderWrapper>,
    step: BuilderStep,
    after: Seq<SSTableBuilderWrapper>,
) -> bool {
    match step {
        BuilderStep::Add { pair, allow_split, id, fresh } => added_to_last(
            after,
            tables_for_next(before, allow_split, id, fresh),
            pair,
        ),
        BuilderStep::Seal => after == sealed_last(before),
    }
}

/// The call creates a table.
pub open spec fn step_creates(before: Seq<SSTableBuilderWrapper>, step: BuilderStep) -> bool {
    match step {
        BuilderStep::Add { allow_split, .. } => new_table_needed(before, allow_split),
        BuilderStep::Seal => false,
    }
}

/// How many of the first `n` calls create a table.
pub open spec fn tables_created(states: Seq<Seq<SSTableBuilderWrapper>>, steps: Seq<BuilderStep>, n: int) -> nat
    decreases n,
{
    if n <= 0 {
        0
    } else {
        tables_created(states, steps, n - 1) + if step_creates(states[n - 1], steps[n - 1]) {
            1nat
        } else {
            0nat
        }
    }
}

/// The states of a builder: it starts without tables, and each call leads to the next
/// state.
pub open spec fn is_run(states: Seq<Seq<SSTableBuilderWrapper>>, steps: Seq<BuilderStep>) -> bool {
    &&& states.len() == steps.len() + 1
    &&& states[0].len() == 0
    &&& forall|i: int| 0 <= i < steps.len() ==> step_leads(states[i], #[trigger] steps[i], states[i + 1])
}

/// A builder has as many tables as were ever created.
pub proof fn law_tables_are_those_created(
    states: Seq<Seq<SSTableBuilderWrapper>>,
    steps: Seq<BuilderStep>,
    n: int,
)
    requires
        is_run(states, steps),
        0 <= n <= steps.len(),
    ensures
        states[n].len() == tables_created(states, steps, n),
    decreases n,
{
    if n > 0 {
        law_tables_are_those_created(states, steps, n - 1);
        assert(step_leads(states[n - 1], steps[n - 1], states[n]));
    }
}

/// A builder is empty exactly if no table was ever created, and that is so exactly if no
/// pair was ever added.
pub proof fn law_empty_means_none_created(
    states: Seq<Seq<SSTableBuilderWrapper>>,
    steps: Seq<BuilderStep>,
    n: int,
)
    requires
        is_run(states, steps),
        0 <= n <= steps.len(),
    ensures
        states[n].len() == 0 <==> forall|i: int| 0 <= i < n ==> !step_creates(states[i], #[trigger] steps[i]),
        states[n].len() == 0 <==> forall|i: int| 0 <= i < n ==> #[trigger] steps[i] is Seal,
    decreases n,
{
    if n > 0 {
        law_empty_means_none_created(states, steps, n - 1);
        assert(step_leads(states[n - 1], steps[n - 1], states[n]));
        let last = steps[n - 1];
        if states[n].len() == 0 {
            assert(last is Seal);
            assert forall|i: int| 0 <= i < n implies !step_creates(states[i], #[trigger] steps[i]) by {}
            assert forall|i: int| 0 <= i < n implies #[trigger] steps[i] is Seal by {}
        } else if states[n - 1].len() == 0 {
            assert(!(last is Seal));
            assert(step_creates(states[n - 1], steps[n - 1]));
        } else {
            let i = choose|i: int| 0 <= i < n - 1 && step_creates(states[i], #[trigger] steps[i]);
            assert(step_creates(states[i], steps[i]));
            let k = choose|k: int| 0 <= k < n - 1 && !(#[trigger] steps[k] is Seal);
            assert(!(steps[k] is Seal));
        }
    }
}

/// A pair goes into the last table as long as that one is not sealed, and has room or must not be split
/// from; otherwise a new table is opened behind the others, which stay.
pub proof fn law_open_tables_are_filled(
    builders: Seq<SSTableBuilderWrapper>,
    after: Seq<SSTableBuilderWrapper>,
    allow_split: bool,
    id: u64,
    fresh: SSTableBuilder,
    pair: PairView,
)
    requires
        added_to_last(after, tables_for_next(builders, allow_split, id, fresh), pair),
        fresh.pairs@.len() == 0,
        fresh.approximate_len == 0,
    ensures
        ({
            let n = builders.len() as int;
            let stays = n > 0 && !builders[n - 1].sealed && (!allow_split || builders[n - 1].builder.approximate_len
                < builders[n - 1].builder.capacity);
            &&& stays ==> after.len() == n && after[n - 1].id == builders[n - 1].id && pair_views(
                after[n - 1].builder.pairs@,
            ) == pair_views(builders[n - 1].builder.pairs@).push(pair)
            &&& !stays ==> after.len() == n + 1 && after[n].id == id && !after[n].sealed && pair_views(
                after[n].builder.pairs@,
            ) == seq![pair]
            &&& forall|i: int| 0 <= i < after.len() - 1 ==> #[trigger] after[i] == builders[i]
        }),
{
    let open = tables_for_next(builders, allow_split, id, fresh);
    assert forall|i: int| 0 <= i < after.len() - 1 implies #[trigger] after[i] == builders[i] by {
        assert(after.drop_last()[i] == open.drop_last()[i]);
    }
    assert(pair_views(fresh.pairs@) =~= Seq::<PairView>::empty());
    if new_table_needed(builders, allow_split) {
        assert(pair_views(after.last().builder.pairs@) =~= seq![pair]);
    }
}

/// A table counts the bytes of its keys and values.
pub proof fn law_tables_count_bytes(len: int, pair: PairView)
    requires
        0 <= len,
        len + pair.0.len() + pair.1.unwrap_or(Seq::empty()).len() <= usize::MAX,
    ensures
        grown(grown(len, pair.0.len() as int), value_len(pair.1) as int) == len + pair.0.len() + pair.1.unwrap_or(
            Seq::empty(),
        ).len(),
{
}

/// What comes out is one table for each builder, in their order, under its id and with what was added to it.
pub proof fn law_each_builder_gives_its_table(
    r: Seq<(u64, Vec<(Vec<u8>, HummockValue)>)>,
    builders: Seq<SSTableBuilderWrapper>,
    i: int,
)
    requires
        finished(r, builders),
    ensures
        r.len() == builders.len(),
        0 <= i < builders.len() ==> r[i].0 == builders[i].id && r[i].1@ == builders[i].builder.pairs@,
{
}

} // verus!

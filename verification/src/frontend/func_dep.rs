//! Functional dependencies between columns.

use fixedbitset::FixedBitSet;
use vstd::prelude::*;

use crate::common::bit_set::{
    bit_set_clone, bit_set_content, bit_set_equal, bit_set_insert, bit_set_is_subset, bit_set_is_superset,
    bit_set_len, bit_set_length, bit_set_toggle_below, bit_set_union_with, bit_set_with_capacity,
};

verus! {

/// A set of columns, out of `len` columns.
#[verifier::ext_equal]
pub struct ColumnsView {
    pub len: usize,
    pub columns: Set<usize>,
}

/// A set of columns by its meaning.
pub open spec fn columns_view(s: FixedBitSet) -> ColumnsView {
    ColumnsView { len: bit_set_len(s), columns: bit_set_content(s) }
}

/// Dependencies: the columns of a key determine the columns of its value.
pub type Dependencies = Map<ColumnsView, ColumnsView>;

/// All dependencies hold within the columns: with the left side they have the right.
pub open spec fn closed_under(fd: Dependencies, columns: Set<usize>) -> bool {
    forall|from: ColumnsView| #[trigger]
        fd.contains_key(from) && from.columns.subset_of(columns) ==> fd[from].columns.subset_of(columns)
}

/// All columns that the given ones determine: those that every closed set of
/// columns around the given ones holds.
pub open spec fn closure_of(fd: Dependencies, columns: Set<usize>) -> Set<usize> {
    Set::new(
        |c: usize|
            forall|s: Set<usize>| columns.subset_of(s) && #[trigger] closed_under(fd, s) ==> s.contains(c),
    )
}

/// The `determinant` columns determine the `dependant` columns.
pub open spec fn determines(fd: Dependencies, determinant: Set<usize>, dependant: Set<usize>) -> bool {
    dependant.subset_of(closure_of(fd, determinant))
}

/// The closure holds the given columns.
pub proof fn law_closure_extends(fd: Dependencies, columns: Set<usize>)
    ensures
        columns.subset_of(closure_of(fd, columns)),
{
}

/// The closure is closed under the dependencies, and no smaller set around the
/// given columns is.
pub proof fn law_closure_is_least(fd: Dependencies, columns: Set<usize>, s: Set<usize>)
    ensures
        closed_under(fd, closure_of(fd, columns)),
        columns.subset_of(s) && closed_under(fd, s) ==> closure_of(fd, columns).subset_of(s),
{
    let closure = closure_of(fd, columns);
    assert forall|from: ColumnsView| #[trigger] fd.contains_key(from) && from.columns.subset_of(closure) implies fd[from].columns.subset_of(
    closure) by {
        assert forall|c: usize| fd[from].columns.contains(c) implies closure.contains(c) by {
            assert forall|t: Set<usize>| columns.subset_of(t) && #[trigger] closed_under(fd, t) implies t.contains(
                c,
            ) by {
                assert(from.columns.subset_of(t));
            }
        }
    }
}

/// Columns determine themselves and each part of themselves.
pub proof fn law_determines_parts(fd: Dependencies, determinant: Set<usize>, dependant: Set<usize>)
    requires
        dependant.subset_of(determinant),
    ensures
        determines(fd, determinant, dependant),
{
    law_closure_extends(fd, determinant);
}

/// What is determined by determined columns is determined.
pub proof fn law_determines_transitive(fd: Dependencies, a: Set<usize>, b: Set<usize>, c: Set<usize>)
    requires
        determines(fd, a, b),
        determines(fd, b, c),
    ensures
        determines(fd, a, c),
{
    law_closure_is_least(fd, a, a);
    law_closure_is_least(fd, b, closure_of(fd, a));
}

/// Columns that are added on both sides keep a dependency.
pub proof fn law_determines_augmented(fd: Dependencies, a: Set<usize>, b: Set<usize>, c: Set<usize>)
    requires
        determines(fd, a, b),
    ensures
        determines(fd, a.union(c), b.union(c)),
{
    let ac = a.union(c);
    law_closure_is_least(fd, ac, ac);
    law_closure_extends(fd, ac);
    law_closure_is_least(fd, a, closure_of(fd, ac));
}

/// A dependency that was added holds.
pub proof fn law_added_holds(fd: Dependencies, from: ColumnsView, to: ColumnsView)
    ensures
        determines(with_dependency(fd, from, to), from.columns, to.columns),
{
    let after = with_dependency(fd, from, to);
    assert(after.contains_key(from));
    law_closure_is_least(after, from.columns, from.columns);
    law_closure_extends(after, from.columns);
}

/// A dependency that is added takes none away.
pub proof fn law_add_keeps(fd: Dependencies, from: ColumnsView, to: ColumnsView, a: Set<usize>, b: Set<usize>)
    requires
        determines(fd, a, b),
    ensures
        determines(with_dependency(fd, from, to), a, b),
{
    let after = with_dependency(fd, from, to);
    let closure = closure_of(after, a);
    law_closure_is_least(after, a, a);
    law_closure_extends(after, a);
    assert(closed_under(fd, closure)) by {
        assert forall|f: ColumnsView| #[trigger] fd.contains_key(f) && f.columns.subset_of(closure) implies fd[f].columns.subset_of(
        closure) by {
            assert(after.contains_key(f));
            assert(after[f].columns.subset_of(closure));
        }
    }
    law_closure_is_least(fd, a, closure);
}

/// The union of two sets of columns has room for both.
pub open spec fn union_columns(a: ColumnsView, b: ColumnsView) -> ColumnsView {
    ColumnsView {
        len: if b.len > a.len {
            b.len
        } else {
            a.len
        },
        columns: a.columns.union(b.columns),
    }
}

/// The dependencies with one more.
pub open spec fn with_dependency(fd: Dependencies, from: ColumnsView, to: ColumnsView) -> Dependencies {
    if fd.contains_key(from) {
        fd.insert(from, union_columns(fd[from], to))
    } else {
        fd.insert(from, to)
    }
}

/// The set that holds one column.
pub open spec fn one_column(len: usize, column: usize) -> ColumnsView {
    ColumnsView { len, columns: Set::empty().insert(column) }
}

/// The set of all columns but one.
pub open spec fn other_columns(len: usize, column: usize) -> ColumnsView {
    ColumnsView { len, columns: Set::new(|c: usize| c < len && c != column) }
}

/// The dependencies with the first `n` of the key columns, each of which
/// determines all other columns.
pub open spec fn with_key_columns(fd: Dependencies, len: usize, keys: Seq<usize>, n: int) -> Dependencies
    decreases n,
{
    if n <= 0 {
        fd
    } else {
        with_dependency(
            with_key_columns(fd, len, keys, n - 1),
            one_column(len, keys[n - 1]),
            other_columns(len, keys[n - 1]),
        )
    }
}

/// A key column determines every column.
pub proof fn law_key_determines_all(fd: Dependencies, len: usize, keys: Seq<usize>, i: int, columns: Set<usize>)
    requires
        0 <= i < keys.len(),
        forall|c: usize| columns.contains(c) ==> c < len,
    ensures
        determines(with_key_columns(fd, len, keys, keys.len() as int), one_column(len, keys[i]).columns, columns),
{
    lemma_key_determines(fd, len, keys, i, keys.len() as int, columns);
}

proof fn lemma_key_determines(fd: Dependencies, len: usize, keys: Seq<usize>, i: int, n: int, columns: Set<usize>)
    requires
        0 <= i < n <= keys.len(),
        forall|c: usize| columns.contains(c) ==> c < len,
    ensures
        determines(with_key_columns(fd, len, keys, n), one_column(len, keys[i]).columns, columns),
    decreases n,
{
    let before = with_key_columns(fd, len, keys, n - 1);
    let from = one_column(len, keys[n - 1]);
    let to = other_columns(len, keys[n - 1]);
    if i < n - 1 {
        lemma_key_determines(fd, len, keys, i, n - 1, columns);
        law_add_keeps(before, from, to, one_column(len, keys[i]).columns, columns);
    } else {
        law_added_holds(before, from, to);
        law_closure_extends(with_key_columns(fd, len, keys, n), from.columns);
    }
}

/// Functional dependencies between the columns of a relation.
pub struct FunctionalDependencySet {
    fd: Vec<(FixedBitSet, FixedBitSet)>,
}

/// Some pair has the left side `from`.
spec fn has_from(fd: Seq<(FixedBitSet, FixedBitSet)>, from: ColumnsView) -> bool {
    exists|i: int| 0 <= i < fd.len() && columns_view((#[trigger] fd[i]).0) == from
}

/// Where the pair with the left side `from` stands.
spec fn index_of_from(fd: Seq<(FixedBitSet, FixedBitSet)>, from: ColumnsView) -> int {
    choose|i: int| 0 <= i < fd.len() && columns_view((#[trigger] fd[i]).0) == from
}

/// No left side occurs twice.
spec fn froms_distinct(fd: Seq<(FixedBitSet, FixedBitSet)>) -> bool {
    forall|i: int, j: int|
        0 <= i < j < fd.len() ==> columns_view((#[trigger] fd[i]).0) != columns_view((#[trigger] fd[j]).0)
}

proof fn lemma_index_of_from(fd: Seq<(FixedBitSet, FixedBitSet)>, i: int)
    requires
        froms_distinct(fd),
        0 <= i < fd.len(),
    ensures
        has_from(fd, columns_view(fd[i].0)),
        index_of_from(fd, columns_view(fd[i].0)) == i,
{
    let k = index_of_from(fd, columns_view(fd[i].0));
    assert(0 <= k < fd.len() && columns_view(fd[k].0) == columns_view(fd[i].0));
}

impl View for FunctionalDependencySet {
    type V = Dependencies;

    closed spec fn view(&self) -> Dependencies {
        Map::new(
            |from: ColumnsView| has_from(self.fd@, from),
            |from: ColumnsView| columns_view(self.fd@[index_of_from(self.fd@, from)].1),
        )
    }
}

/// How many of the first `n` pairs have a right side that is not within `columns`.
spec fn open_pairs(fd: Seq<(FixedBitSet, FixedBitSet)>, columns: Set<usize>, n: int) -> nat
    decreases n,
{
    if n <= 0 {
        0
    } else {
        open_pairs(fd, columns, n - 1) + if columns_view(fd[n - 1].1).columns.subset_of(columns) {
            0nat
        } else {
            1nat
        }
    }
}

proof fn lemma_open_pairs_shrink(fd: Seq<(FixedBitSet, FixedBitSet)>, a: Set<usize>, b: Set<usize>, i: int, n: int)
    requires
        a.subset_of(b),
        0 <= n <= fd.len(),
    ensures
        open_pairs(fd, b, n) <= open_pairs(fd, a, n),
        0 <= i < n && !columns_view(fd[i].1).columns.subset_of(a) && columns_view(fd[i].1).columns.subset_of(b)
            ==> open_pairs(fd, b, n) < open_pairs(fd, a, n),
    decreases n,
{
    if n > 0 {
        lemma_open_pairs_shrink(fd, a, b, i, n - 1);
    }
}

impl FunctionalDependencySet {
    /// No left side occurs twice.
    pub closed spec fn wf(&self) -> bool {
        froms_distinct(self.fd@)
    }

    /// No dependencies.
    pub fn new() -> (r: FunctionalDependencySet)
        ensures
            r.wf(),
            r@ == Map::<ColumnsView, ColumnsView>::empty(),
    {
        let r = FunctionalDependencySet { fd: Vec::new() };
        proof {
            assert(r@ =~= Map::<ColumnsView, ColumnsView>::empty());
        }
        r
    }

    /// The dependencies of a relation with the given key columns.
    pub fn with_key(column_cnt: usize, pk_indices: &Vec<usize>) -> (r: FunctionalDependencySet)
        requires
            forall|i: int| 0 <= i < pk_indices@.len() ==> (#[trigger] pk_indices@[i]) < column_cnt,
        ensures
            r.wf(),
            r@ == with_key_columns(
                Map::<ColumnsView, ColumnsView>::empty(),
                column_cnt,
                pk_indices@,
                pk_indices@.len() as int,
            ),
    {
        let mut tmp = FunctionalDependencySet::new();
        tmp.add_key_column_by_indices(column_cnt, pk_indices);
        tmp
    }

    /// Adds the dependency of `to` on `from`.
    pub fn add_functional_dependency(&mut self, from: FixedBitSet, to: FixedBitSet)
        requires
            old(self).wf(),
            bit_set_len(from) == bit_set_len(to),
        ensures
            final(self).wf(),
            final(self)@ == with_dependency(old(self)@, columns_view(from), columns_view(to)),
    {
        let ghost before = self.fd@;
        let ghost key = columns_view(from);
        let mut i: usize = 0;
        while i < self.fd.len()
            invariant
                i <= self.fd@.len(),
                self.fd@ == before,
                before == old(self).fd@,
                self.wf(),
                key == columns_view(from),
                forall|j: int| 0 <= j < i ==> columns_view((#[trigger] before[j]).0) != key,
            decreases self.fd@.len() - i,
        {
            if bit_set_equal(&self.fd[i].0, &from) {
                let key_set = bit_set_clone(&self.fd[i].0);
                let mut joined = bit_set_clone(&self.fd[i].1);
                bit_set_union_with(&mut joined, &to);
                self.fd.set(i, (key_set, joined));
                proof {
                    let after = self.fd@;
                    assert(columns_view(before[i as int].0) == key);
                    assert(columns_view(after[i as int].1) == union_columns(
                        columns_view(before[i as int].1),
                        columns_view(to),
                    ));
                    assert(froms_distinct(after)) by {
                        assert forall|a: int, b: int| 0 <= a < b < after.len() implies columns_view(
                            (#[trigger] after[a]).0,
                        ) != columns_view((#[trigger] after[b]).0) by {
                            assert(columns_view(after[a].0) == columns_view(before[a].0));
                            assert(columns_view(after[b].0) == columns_view(before[b].0));
                        }
                    }
                    lemma_index_of_from(before, i as int);
                    lemma_index_of_from(after, i as int);
                    lemma_same_map(before, after, i as int);
                    assert(self@ =~= with_dependency(old(self)@, key, columns_view(to)));
                }
                return;
            }
            i = i + 1;
        }
        proof {
            assert(!has_from(before, key));
        }
        self.fd.push((from, to));
        proof {
            let after = self.fd@;
            assert(froms_distinct(after));
            lemma_index_of_from(after, before.len() as int);
            assert forall|f: ColumnsView| f != key implies has_from(after, f) == has_from(before, f) && (has_from(
                before,
                f,
            ) ==> index_of_from(after, f) == index_of_from(before, f)) by {
                if has_from(before, f) {
                    let k = index_of_from(before, f);
                    assert(after[k] == before[k]);
                    lemma_index_of_from(after, k);
                }
                if has_from(after, f) {
                    let k = index_of_from(after, f);
                    assert(after[k] == before[k]);
                }
            }
            assert(self@ =~= with_dependency(old(self)@, key, columns_view(to)));
        }
    }

    /// Makes a column determine all other columns.
    fn add_key_column_by_index(&mut self, column_cnt: usize, column_id: usize)
        requires
            old(self).wf(),
            column_id < column_cnt,
        ensures
            final(self).wf(),
            final(self)@ == with_dependency(
                old(self)@,
                one_column(column_cnt, column_id),
                other_columns(column_cnt, column_id),
            ),
    {
        let mut from = bit_set_with_capacity(column_cnt);
        bit_set_insert(&mut from, column_id);
        let mut to = bit_set_clone(&from);
        let to_len: usize = bit_set_length(&to);
        bit_set_toggle_below(&mut to, to_len);
        proof {
            assert(columns_view(from) =~= one_column(column_cnt, column_id));
            assert(columns_view(to) =~= other_columns(column_cnt, column_id));
        }
        self.add_functional_dependency(from, to);
    }

    /// Makes each of the columns determine all other columns.
    pub fn add_key_column_by_indices(&mut self, column_cnt: usize, pk_indices: &Vec<usize>)
        requires
            old(self).wf(),
            forall|i: int| 0 <= i < pk_indices@.len() ==> (#[trigger] pk_indices@[i]) < column_cnt,
        ensures
            final(self).wf(),
            final(self)@ == with_key_columns(old(self)@, column_cnt, pk_indices@, pk_indices@.len() as int),
    {
        let mut i: usize = 0;
        while i < pk_indices.len()
            invariant
                i <= pk_indices@.len(),
                self.wf(),
                forall|j: int| 0 <= j < pk_indices@.len() ==> (#[trigger] pk_indices@[j]) < column_cnt,
                self@ == with_key_columns(old(self)@, column_cnt, pk_indices@, i as int),
            decreases pk_indices@.len() - i,
        {
            self.add_key_column_by_index(column_cnt, pk_indices[i]);
            i = i + 1;
        }
    }

    /// Makes a column determined by no columns at all.
    pub fn add_constant_column_by_index(&mut self, column_cnt: usize, column_id: usize)
        requires
            old(self).wf(),
            column_id < column_cnt,
        ensures
            final(self).wf(),
            final(self)@ == with_dependency(
                old(self)@,
                (ColumnsView { len: column_cnt, columns: Set::empty() }),
                one_column(column_cnt, column_id),
            ),
    {
        let mut to = bit_set_with_capacity(column_cnt);
        bit_set_insert(&mut to, column_id);
        let from = bit_set_with_capacity(column_cnt);
        proof {
            assert(columns_view(to) =~= one_column(column_cnt, column_id));
            assert(columns_view(from) =~= (ColumnsView { len: column_cnt, columns: Set::empty() }));
        }
        self.add_functional_dependency(from, to);
    }

    /// Adds a dependency that is given by the positions of its columns.
    pub fn add_functional_dependency_by_column_indices(
        &mut self,
        from: &Vec<usize>,
        to: &Vec<usize>,
        column_cnt: usize,
    )
        requires
            old(self).wf(),
            forall|i: int| 0 <= i < from@.len() ==> (#[trigger] from@[i]) < column_cnt,
            forall|i: int| 0 <= i < to@.len() ==> (#[trigger] to@[i]) < column_cnt,
        ensures
            final(self).wf(),
            final(self)@ == with_dependency(
                old(self)@,
                (ColumnsView { len: column_cnt, columns: from@.to_set() }),
                (ColumnsView { len: column_cnt, columns: to@.to_set() }),
            ),
    {
        let from_set = columns_of(from, column_cnt);
        let to_set = columns_of(to, column_cnt);
        self.add_functional_dependency(from_set, to_set);
    }

    /// All columns that the given ones determine.
    fn get_closure(&self, columns: FixedBitSet) -> (r: FixedBitSet)
        requires
            self.wf(),
        ensures
            bit_set_content(r) == closure_of(self@, bit_set_content(columns)),
    {
        let ghost start = bit_set_content(columns);
        let ghost n = self.fd@.len() as int;
        let mut closure = columns;
        let mut updated: bool = true;
        while updated
            invariant
                self.wf(),
                n == self.fd@.len(),
                start.subset_of(bit_set_content(closure)),
                bit_set_content(closure).subset_of(closure_of(self@, start)),
                !updated ==> closed_under(self@, bit_set_content(closure)),
            decreases open_pairs(self.fd@, bit_set_content(closure), n), if updated { 1int } else { 0int },
        {
            updated = false;
            let ghost at_start = bit_set_content(closure);
            let mut i: usize = 0;
            while i < self.fd.len()
                invariant
                    i <= self.fd@.len(),
                    self.wf(),
                    n == self.fd@.len(),
                    start.subset_of(bit_set_content(closure)),
                    at_start.subset_of(bit_set_content(closure)),
                    bit_set_content(closure).subset_of(closure_of(self@, start)),
                    !updated ==> at_start == bit_set_content(closure),
                    updated ==> open_pairs(self.fd@, bit_set_content(closure), n) < open_pairs(self.fd@, at_start, n),
                    !updated ==> forall|j: int|
                        0 <= j < i && columns_view((#[trigger] self.fd@[j]).0).columns.subset_of(at_start)
                            ==> columns_view(self.fd@[j].1).columns.subset_of(at_start),
                decreases self.fd@.len() - i,
            {
                let ghost before = bit_set_content(closure);
                if bit_set_is_subset(&self.fd[i].0, &closure) && !bit_set_is_subset(&self.fd[i].1, &closure) {
                    bit_set_union_with(&mut closure, &self.fd[i].1);
                    updated = true;
                    proof {
                        lemma_index_of_from(self.fd@, i as int);
                        let from = columns_view(self.fd@[i as int].0);
                        assert(self@.contains_key(from));
                        law_closure_is_least(self@, start, start);
                        assert(self@[from].columns.subset_of(closure_of(self@, start)));
                        lemma_open_pairs_shrink(self.fd@, before, bit_set_content(closure), i as int, n);
                        lemma_open_pairs_shrink(self.fd@, at_start, before, i as int, n);
                    }
                }
                i = i + 1;
            }
            proof {
                if !updated {
                    assert forall|from: ColumnsView| #[trigger] self@.contains_key(from) && from.columns.subset_of(
                        at_start,
                    ) implies self@[from].columns.subset_of(at_start) by {
                        let k = index_of_from(self.fd@, from);
                        assert(columns_view(self.fd@[k].0) == from);
                    }
                }
            }
        }
        proof {
            law_closure_is_least(self@, start, bit_set_content(closure));
            assert(bit_set_content(closure) =~= closure_of(self@, start));
        }
        closure
    }

    /// Whether the `determinant` columns determine the `dependant` columns.
    pub fn is_determined_by(&self, determinant: FixedBitSet, dependant: FixedBitSet) -> (r: bool)
        requires
            self.wf(),
        ensures
            r == determines(self@, bit_set_content(determinant), bit_set_content(dependant)),
    {
        let closure = self.get_closure(determinant);
        bit_set_is_superset(&closure, &dependant)
    }
}

proof fn lemma_same_map(before: Seq<(FixedBitSet, FixedBitSet)>, after: Seq<(FixedBitSet, FixedBitSet)>, i: int)
    requires
        froms_distinct(before),
        froms_distinct(after),
        0 <= i < before.len(),
        before.len() == after.len(),
        columns_view(after[i].0) == columns_view(before[i].0),
        forall|j: int| 0 <= j < before.len() && j != i ==> #[trigger] after[j] == before[j],
    ensures
        forall|f: ColumnsView| #[trigger] has_from(after, f) == has_from(before, f),
        forall|f: ColumnsView|
            has_from(before, f) ==> #[trigger] index_of_from(after, f) == index_of_from(before, f),
{
    assert forall|f: ColumnsView| #[trigger] has_from(after, f) == has_from(before, f) by {
        if has_from(before, f) {
            let k = index_of_from(before, f);
            assert(columns_view(after[k].0) == f);
        }
        if has_from(after, f) {
            let k = index_of_from(after, f);
            assert(columns_view(before[k].0) == f);
        }
    }
    assert forall|f: ColumnsView| has_from(before, f) implies #[trigger] index_of_from(after, f) == index_of_from(
        before,
        f,
    ) by {
        let k = index_of_from(before, f);
        assert(columns_view(after[k].0) == f);
        lemma_index_of_from(after, k);
    }
}

/// The set of the given columns.
pub fn columns_of(indices: &Vec<usize>, column_cnt: usize) -> (r: FixedBitSet)
    requires
        forall|i: int| 0 <= i < indices@.len() ==> (#[trigger] indices@[i]) < column_cnt,
    ensures
        columns_view(r) == (ColumnsView { len: column_cnt, columns: indices@.to_set() }),
{
    let mut r = bit_set_with_capacity(column_cnt);
    let mut i: usize = 0;
    while i < indices.len()
        invariant
            i <= indices@.len(),
            bit_set_len(r) == column_cnt,
            forall|j: int| 0 <= j < indices@.len() ==> (#[trigger] indices@[j]) < column_cnt,
            forall|c: usize| bit_set_content(r).contains(c) <==> indices@.subrange(0, i as int).contains(c),
        decreases indices@.len() - i,
    {
        let ghost before = bit_set_content(r);
        bit_set_insert(&mut r, indices[i]);
        proof {
            let taken = indices@.subrange(0, i as int);
            let more = indices@.subrange(0, i + 1);
            assert(more =~= taken.push(indices@[i as int]));
            assert forall|c: usize| bit_set_content(r).contains(c) <==> more.contains(c) by {
                if more.contains(c) {
                    let k = more.index_of(c);
                    if k < i {
                        assert(taken[k] == c);
                    }
                }
                if before.contains(c) {
                    let k = taken.index_of(c);
                    assert(more[k] == c);
                }
                assert(more[i as int] == indices@[i as int]);
            }
        }
        i = i + 1;
    }
    proof {
        assert(indices@.subrange(0, indices@.len() as int) =~= indices@);
        assert(columns_view(r) =~= (ColumnsView { len: column_cnt, columns: indices@.to_set() }));
    }
    r
}

} // verus!

//! Sets of small numbers, such as columns.

use fixedbitset::FixedBitSet;
use vstd::prelude::*;

verus! {

/// The type `fixedbitset::FixedBitSet`: a set of numbers below its length.
#[verifier::external_type_specification]
#[verifier::external_body]
pub struct ExFixedBitSet(fixedbitset::FixedBitSet);

/// The numbers in the set.
pub uninterp spec fn bit_set_content(s: fixedbitset::FixedBitSet) -> Set<usize>;

/// The length of the set: how many numbers it has room for.
pub uninterp spec fn bit_set_len(s: fixedbitset::FixedBitSet) -> usize;

/// `FixedBitSet::with_capacity` gives a set of the given length that holds no number.
#[verifier::external_body]
pub(crate) fn bit_set_with_capacity(bits: usize) -> (r: FixedBitSet)
    ensures
        bit_set_content(r) == Set::<usize>::empty(),
        bit_set_len(r) == bits,
{
    FixedBitSet::with_capacity(bits)
}

/// `FixedBitSet::len` returns the length of the set.
#[verifier::external_body]
pub(crate) fn bit_set_length(s: &FixedBitSet) -> (r: usize)
    ensures
        r == bit_set_len(*s),
{
    s.len()
}

/// `FixedBitSet::insert` puts a number into the set. It panics unless the number
/// is below the length.
#[verifier::external_body]
pub(crate) fn bit_set_insert(s: &mut FixedBitSet, bit: usize)
    requires
        bit < bit_set_len(*old(s)),
    ensures
        bit_set_content(*final(s)) == bit_set_content(*old(s)).insert(bit),
        bit_set_len(*final(s)) == bit_set_len(*old(s)),
{
    s.insert(bit)
}

/// `FixedBitSet::toggle_range` puts those numbers of the range into the set that
/// are not in it, and takes the others out. It panics unless the range lies
/// below the length.
#[verifier::external_body]
pub(crate) fn bit_set_toggle_below(s: &mut FixedBitSet, end: usize)
    requires
        end <= bit_set_len(*old(s)),
    ensures
        bit_set_content(*final(s)) == Set::new(
            |b: usize| (b < end) != bit_set_content(*old(s)).contains(b),
        ),
        bit_set_len(*final(s)) == bit_set_len(*old(s)),
{
    s.toggle_range(0..end)
}

/// `FixedBitSet::union_with` adds all numbers of the other set, and takes its
/// length where that is larger.
#[verifier::external_body]
pub(crate) fn bit_set_union_with(s: &mut FixedBitSet, other: &FixedBitSet)
    ensures
        bit_set_content(*final(s)) == bit_set_content(*old(s)).union(bit_set_content(*other)),
        bit_set_len(*final(s)) == if bit_set_len(*other) > bit_set_len(*old(s)) {
            bit_set_len(*other)
        } else {
            bit_set_len(*old(s))
        },
{
    s.union_with(other)
}

/// `FixedBitSet::is_subset` tells whether the other set holds all numbers of this one.
#[verifier::external_body]
pub(crate) fn bit_set_is_subset(s: &FixedBitSet, other: &FixedBitSet) -> (r: bool)
    ensures
        r == bit_set_content(*s).subset_of(bit_set_content(*other)),
{
    s.is_subset(other)
}

/// `FixedBitSet::is_superset` tells whether this set holds all numbers of the other.
#[verifier::external_body]
pub(crate) fn bit_set_is_superset(s: &FixedBitSet, other: &FixedBitSet) -> (r: bool)
    ensures
        r == bit_set_content(*other).subset_of(bit_set_content(*s)),
{
    s.is_superset(other)
}

/// `Clone::clone` of `FixedBitSet` gives a set with the same numbers and length.
#[verifier::external_body]
pub(crate) fn bit_set_clone(s: &FixedBitSet) -> (r: FixedBitSet)
    ensures
        bit_set_content(r) == bit_set_content(*s),
        bit_set_len(r) == bit_set_len(*s),
{
    s.clone()
}

/// `PartialEq::eq` of `FixedBitSet` tells whether two sets have the same numbers
/// and the same length.
#[verifier::external_body]
pub(crate) fn bit_set_equal(s: &FixedBitSet, other: &FixedBitSet) -> (r: bool)
    ensures
        r == (bit_set_content(*s) == bit_set_content(*other) && bit_set_len(*s) == bit_set_len(*other)),
{
    s == other
}

/// The number that `Extend::extend` makes the length at least, for the first `n` numbers.
pub open spec fn length_for(numbers: Seq<usize>, len: int, n: int) -> int
    decreases n,
{
    if n <= 0 {
        len
    } else {
        let before = length_for(numbers, len, n - 1);
        if numbers[n - 1] >= before {
            numbers[n - 1] + 1
        } else {
            before
        }
    }
}

/// `Extend::extend` of `FixedBitSet` puts all the numbers into the set, and makes
/// the set as long as they need. A number that leaves no room for a length above
/// it makes it panic.
#[verifier::external_body]
pub(crate) fn bit_set_extend(s: &mut FixedBitSet, numbers: &Vec<usize>)
    requires
        forall|i: int| 0 <= i < numbers@.len() ==> (#[trigger] numbers@[i]) < usize::MAX,
    ensures
        bit_set_content(*final(s)) == bit_set_content(*old(s)).union(numbers@.to_set()),
        bit_set_len(*final(s)) == length_for(numbers@, bit_set_len(*old(s)) as int, numbers@.len() as int),
{
    s.extend(numbers.iter().copied())
}

/// `FromIterator::from_iter` of `FixedBitSet`, on the numbers below `end`, gives
/// the set of these, with room for just them.
#[verifier::external_body]
pub(crate) fn bit_set_from_below(end: usize) -> (r: FixedBitSet)
    ensures
        bit_set_content(r) == Set::new(|b: usize| b < end),
        bit_set_len(r) == end,
{
    FixedBitSet::from_iter(0..end)
}

/// Where all numbers are below the length, it stays.
pub proof fn lemma_length_stays(numbers: Seq<usize>, len: int, n: int)
    requires
        0 <= n <= numbers.len(),
        forall|i: int| 0 <= i < n ==> (#[trigger] numbers[i]) < len,
    ensures
        length_for(numbers, len, n) == len,
    decreases n,
{
    if n > 0 {
        lemma_length_stays(numbers, len, n - 1);
    }
}

/// Numbers in rising order.
pub open spec fn rising(numbers: Seq<usize>) -> bool {
    forall|i: int, j: int| 0 <= i < j < numbers.len() ==> (#[trigger] numbers[i]) < (#[trigger] numbers[j])
}

/// The numbers of a finite set in rising order.
pub open spec fn rising_list(set: Set<usize>) -> Seq<usize> {
    choose|list: Seq<usize>| rising(list) && list.to_set() == set
}

/// There is only one way to list a set in rising order.
pub proof fn lemma_rising_list(list: Seq<usize>)
    requires
        rising(list),
    ensures
        rising_list(list.to_set()) == list,
{
    lemma_rising_unique(rising_list(list.to_set()), list);
}

proof fn lemma_rising_unique(a: Seq<usize>, b: Seq<usize>)
    requires
        rising(a),
        rising(b),
        a.to_set() == b.to_set(),
    ensures
        a == b,
    decreases a.len(),
{
    if a.len() == 0 {
        if b.len() > 0 {
            assert(b.to_set().contains(b[0]));
            assert(a.to_set().contains(b[0]));
        }
        assert(a =~= b);
    } else {
        assert(a.to_set().contains(a[0]));
        assert(b.to_set().contains(a[0]));
        let (x, y) = (a.last(), b.last());
        assert(a.to_set().contains(x) && b.to_set().contains(y));
        let i = b.index_of(x);
        let j = a.index_of(y);
        assert(b[i] == x && a[j] == y);
        assert(x == y);
        let (a1, b1) = (a.drop_last(), b.drop_last());
        assert(a1.to_set() =~= b1.to_set()) by {
            assert forall|c: usize| a1.to_set().contains(c) == b1.to_set().contains(c) by {
                if a1.contains(c) {
                    let k = a1.index_of(c);
                    assert(a[k] == c);
                    assert(a.to_set().contains(c));
                    assert(b.to_set().contains(c));
                    let m = b.index_of(c);
                    assert(b[m] == c && c != y);
                    assert(b1[m] == c);
                }
                if b1.contains(c) {
                    let k = b1.index_of(c);
                    assert(b[k] == c);
                    assert(b.to_set().contains(c));
                    assert(a.to_set().contains(c));
                    let m = a.index_of(c);
                    assert(a[m] == c && c != x);
                    assert(a1[m] == c);
                }
            }
        }
        lemma_rising_unique(a1, b1);
        assert(a =~= a1.push(x));
        assert(b =~= b1.push(y));
    }
}

/// The position, from `i` on, of the first number that is not below `g`.
pub open spec fn split_at(list: Seq<usize>, g: int, i: int) -> int
    decreases list.len() - i,
{
    if i >= list.len() || list[i] >= g {
        i
    } else {
        split_at(list, g, i + 1)
    }
}

pub proof fn lemma_split(list: Seq<usize>, g: int, i: int)
    requires
        rising(list),
        0 <= i <= list.len(),
        forall|j: int| 0 <= j < i ==> (#[trigger] list[j]) < g,
    ensures
        i <= split_at(list, g, i) <= list.len(),
        forall|j: int| 0 <= j < split_at(list, g, i) ==> (#[trigger] list[j]) < g,
        forall|j: int| split_at(list, g, i) <= j < list.len() ==> (#[trigger] list[j]) >= g,
    decreases list.len() - i,
{
    if i < list.len() && list[i] < g {
        lemma_split(list, g, i + 1);
    }
}

/// Every finite set can be listed in rising order.
pub proof fn lemma_rising_exists(set: Set<usize>)
    requires
        set.finite(),
    ensures
        rising(rising_list(set)),
        rising_list(set).to_set() == set,
    decreases set.len(),
{
    if set.len() == 0 {
        let list = Seq::<usize>::empty();
        assert(list.to_set() =~= set);
        assert(rising(list));
    } else {
        let x = set.choose();
        let rest = set.remove(x);
        lemma_rising_exists(rest);
        let list = rising_list(rest);
        lemma_split(list, x as int, 0);
        let m = split_at(list, x as int, 0);
        let longer = list.insert(m, x);
        assert(!list.contains(x)) by {
            if list.contains(x) {
                assert(list.to_set().contains(x));
            }
        }
        assert forall|i: int, j: int| 0 <= i < j < longer.len() implies (#[trigger] longer[i]) < (#[trigger] longer[j]) by {
            if j == m {
                assert(longer[i] == list[i]);
            } else if i == m {
                assert(longer[j] == list[j - 1]);
                assert(list.contains(list[j - 1]));
            } else {
                let a = if i < m {
                    i
                } else {
                    i - 1
                };
                let b = if j < m {
                    j
                } else {
                    j - 1
                };
                assert(longer[i] == list[a] && longer[j] == list[b]);
            }
        }
        assert(longer.to_set() =~= set) by {
            assert forall|c: usize| longer.to_set().contains(c) == set.contains(c) by {
                if longer.contains(c) {
                    let k = longer.index_of(c);
                    if k < m {
                        assert(list[k] == c);
                        assert(list.to_set().contains(c));
                    } else if k > m {
                        assert(list[k - 1] == c);
                        assert(list.to_set().contains(c));
                    }
                }
                if set.contains(c) {
                    if c == x {
                        assert(longer[m] == c);
                    } else {
                        assert(list.to_set().contains(c));
                        let k = list.index_of(c);
                        if k < m {
                            assert(longer[k] == c);
                        } else {
                            assert(longer[k + 1] == c);
                        }
                    }
                }
            }
        }
        assert(rising(longer));
    }
}

/// `FixedBitSet::ones` gives the numbers of the set in rising order.
#[verifier::external_body]
pub(crate) fn bit_set_ones(s: &FixedBitSet) -> (r: Vec<usize>)
    ensures
        rising(r@),
        r@.to_set() == bit_set_content(*s),
{
    s.ones().collect()
}

} // verus!

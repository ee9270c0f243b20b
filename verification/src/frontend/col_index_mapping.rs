//! How columns change their positions.

use fixedbitset::FixedBitSet;
use vstd::prelude::*;

use crate::common::bit_set::{bit_set_content, bit_set_len, bit_set_length, bit_set_ones, lemma_rising_list, rising_list};
use crate::frontend::property::{Distribution, DistView};

verus! {

/// The new position of each column, if it has one.
#[derive(Debug)]
pub struct ColIndexMapping {
    pub map: Vec<Option<usize>>,
}

impl View for ColIndexMapping {
    type V = Seq<Option<usize>>;

    open spec fn view(&self) -> Seq<Option<usize>> {
        self.map@
    }
}

/// Where column `i` goes.
pub open spec fn mapped(map: Seq<Option<usize>>, i: usize) -> Option<usize> {
    if i < map.len() {
        map[i as int]
    } else {
        None
    }
}

/// The columns of the list move together, in the order of the list, and the
/// others have no new position.
pub open spec fn remaining(list: Seq<usize>, len: nat) -> Seq<Option<usize>> {
    Seq::new(
        len,
        |i: int|
            if list.contains(i as usize) {
                Some(list.index_of(i as usize) as usize)
            } else {
                None
            },
    )
}

/// First one mapping, then the other.
pub open spec fn composed(a: Seq<Option<usize>>, b: Seq<Option<usize>>) -> Seq<Option<usize>> {
    Seq::new(
        a.len(),
        |i: int|
            match a[i] {
                Some(j) => mapped(b, j),
                None => None,
            },
    )
}

/// The new positions of columns.
pub open spec fn mapped_all(map: Seq<Option<usize>>, indices: Seq<usize>) -> Seq<usize> {
    Seq::new(indices.len(), |i: int| mapped(map, indices[i]).unwrap())
}

/// All of the columns have a new position.
pub open spec fn maps_all(map: Seq<Option<usize>>, indices: Seq<usize>) -> bool {
    forall|i: int| 0 <= i < indices.len() ==> mapped(map, #[trigger] indices[i]) is Some
}

/// A distribution whose columns have moved. Where a column is gone, the rows
/// are still sharded, but it is not known how.
pub open spec fn moved_distribution(map: Seq<Option<usize>>, dist: DistView) -> DistView {
    match dist {
        DistView::HashShard(keys) => if maps_all(map, keys) {
            DistView::HashShard(mapped_all(map, keys))
        } else {
            DistView::AnyShard
        },
        _ => dist,
    }
}

/// A column that remains is found again: its new position in the list of
/// remaining columns holds the column.
pub proof fn law_remaining_keeps_column(list: Seq<usize>, len: nat, i: usize)
    requires
        list.len() <= usize::MAX,
        i < len,
        list.contains(i),
    ensures
        mapped(remaining(list, len), i) matches Some(j) && j < list.len() && list[j as int] == i,
{
    assert(list[list.index_of(i)] == i);
}

impl ColIndexMapping {
    /// The columns of the set move together, and the others have no new position.
    pub fn with_remaining_columns(cols: &FixedBitSet) -> (r: ColIndexMapping)
        requires
            forall|c: usize| #[trigger] bit_set_content(*cols).contains(c) ==> c < bit_set_len(*cols),
        ensures
            r@ == remaining(rising_list(bit_set_content(*cols)), bit_set_len(*cols) as nat),
    {
        let n: usize = bit_set_length(cols);
        let ones = bit_set_ones(cols);
        proof {
            lemma_rising_list(ones@);
            assert forall|j: int| 0 <= j < ones@.len() implies (#[trigger] ones@[j]) < n by {
                assert(ones@.to_set().contains(ones@[j]));
            }
        }
        let mut map: Vec<Option<usize>> = Vec::new();
        let mut i: usize = 0;
        while i < n
            invariant
                i <= n,
                map@.len() == i,
                forall|j: int| 0 <= j < i ==> map@[j] is None,
            decreases n - i,
        {
            map.push(None);
            i = i + 1;
        }
        let mut k: usize = 0;
        while k < ones.len()
            invariant
                k <= ones@.len(),
                map@.len() == n,
                crate::common::bit_set::rising(ones@),
                forall|j: int| 0 <= j < ones@.len() ==> (#[trigger] ones@[j]) < n,
                forall|j: int| 0 <= j < k ==> map@[(#[trigger] ones@[j]) as int] == Some(j as usize),
                forall|c: int|
                    0 <= c < n && (forall|j: int| 0 <= j < k ==> (#[trigger] ones@[j]) != c) ==> (#[trigger] map@[c]) is None,
            decreases ones@.len() - k,
        {
            map.set(ones[k], Some(k));
            k = k + 1;
        }
        proof {
            let want = remaining(ones@, n as nat);
            assert forall|c: int| 0 <= c < n implies map@[c] == want[c] by {
                if ones@.contains(c as usize) {
                    let j = ones@.index_of(c as usize);
                    assert(map@[ones@[j] as int] == Some(j as usize));
                } else {
                    assert forall|j: int| 0 <= j < k implies (#[trigger] ones@[j]) != c by {
                        assert(ones@.contains(ones@[j]));
                    }
                }
            }
            assert(map@ =~= want);
        }
        ColIndexMapping { map }
    }

    /// Where column `i` goes.
    pub fn try_map(&self, i: usize) -> (r: Option<usize>)
        ensures
            r == mapped(self@, i),
    {
        if i < self.map.len() {
            self.map[i]
        } else {
            None
        }
    }

    /// The new position of a column that has one.
    pub fn map(&self, i: usize) -> (r: usize)
        requires
            mapped(self@, i) is Some,
        ensures
            mapped(self@, i) == Some(r),
    {
        self.try_map(i).unwrap()
    }

    /// First this mapping, then the other.
    pub fn composite(&self, following: &ColIndexMapping) -> (r: ColIndexMapping)
        ensures
            r@ == composed(self@, following@),
    {
        let mut map: Vec<Option<usize>> = Vec::new();
        let mut i: usize = 0;
        while i < self.map.len()
            invariant
                i <= self.map@.len(),
                map@ == composed(self@, following@).subrange(0, i as int),
            decreases self.map@.len() - i,
        {
            let target = match self.map[i] {
                Some(j) => following.try_map(j),
                None => None,
            };
            map.push(target);
            i = i + 1;
            proof {
                assert(map@ =~= composed(self@, following@).subrange(0, i as int));
            }
        }
        proof {
            assert(map@ =~= composed(self@, following@));
        }
        ColIndexMapping { map }
    }

    /// The new positions of columns that all have one.
    pub fn map_all(&self, indices: &Vec<usize>) -> (r: Vec<usize>)
        requires
            maps_all(self@, indices@),
        ensures
            r@ == mapped_all(self@, indices@),
    {
        let mut r: Vec<usize> = Vec::new();
        let mut i: usize = 0;
        while i < indices.len()
            invariant
                i <= indices@.len(),
                maps_all(self@, indices@),
                r@ == mapped_all(self@, indices@).subrange(0, i as int),
            decreases indices@.len() - i,
        {
            assert(mapped(self@, indices@[i as int]) is Some);
            r.push(self.map(indices[i]));
            i = i + 1;
            proof {
                assert(r@ =~= mapped_all(self@, indices@).subrange(0, i as int));
            }
        }
        proof {
            assert(r@ =~= mapped_all(self@, indices@));
        }
        r
    }

    /// A distribution whose columns have moved.
    pub fn rewrite_provided_distribution(&self, dist: &Distribution) -> (r: Distribution)
        ensures
            r@ == moved_distribution(self@, dist@),
    {
        match dist {
            Distribution::HashShard(keys) => {
                let mut i: usize = 0;
                while i < keys.len()
                    invariant
                        i <= keys@.len(),
                        dist@ == DistView::HashShard(keys@),
                        forall|j: int| 0 <= j < i ==> mapped(self@, #[trigger] keys@[j]) is Some,
                    decreases keys@.len() - i,
                {
                    if self.try_map(keys[i]).is_none() {
                        proof {
                            assert(!maps_all(self@, keys@));
                        }
                        return Distribution::AnyShard;
                    }
                    i = i + 1;
                }
                Distribution::HashShard(self.map_all(keys))
            },
            _ => dist.copy(),
        }
    }
}

/// A column that goes on through two mappings ends where the second one takes it from where the first
/// one has put it; where one of them drops it, it is gone.
pub proof fn law_composite_goes_through_both(a: Seq<Option<usize>>, b: Seq<Option<usize>>, i: int)
    requires
        0 <= i < a.len(),
    ensures
        composed(a, b).len() == a.len(),
        a[i] is None ==> composed(a, b)[i] is None,
        a[i] matches Some(j) ==> j >= b.len() ==> composed(a, b)[i] is None,
        a[i] matches Some(j) ==> j < b.len() ==> composed(a, b)[i] == b[j as int],
{
}

/// The remaining columns stand without a gap: no two have one new position, and the columns that are
/// not in the list have none.
pub proof fn law_remaining_columns_differ(list: Seq<usize>, len: nat, i: usize, j: usize)
    requires
        list.len() <= usize::MAX,
        len <= usize::MAX,
        i < len,
        j < len,
    ensures
        remaining(list, len).len() == len,
        remaining(list, len)[i as int] is Some <==> list.contains(i),
        remaining(list, len)[i as int] is Some && remaining(list, len)[i as int] == remaining(list, len)[j as int] ==> i
            == j,
{
    if list.contains(i) {
        law_remaining_keeps_column(list, len, i);
    }
    if list.contains(j) {
        law_remaining_keeps_column(list, len, j);
    }
}

/// Rows that are sharded by columns which all remain are sharded by these columns at their new
/// positions, in their order. If one of them is gone, it is only known that the rows are sharded; all
/// other distributions stay.
pub proof fn law_moved_distribution(map: Seq<Option<usize>>, dist: DistView)
    ensures
        match dist {
            DistView::HashShard(keys) => {
                if forall|k: int| 0 <= k < keys.len() ==> (#[trigger] keys[k]) < map.len() && map[keys[k] as int] is Some {
                    &&& moved_distribution(map, dist) matches DistView::HashShard(moved)
                    &&& moved.len() == keys.len()
                    &&& forall|k: int| 0 <= k < keys.len() ==> map[(#[trigger] keys[k]) as int] == Some(moved[k])
                } else {
                    moved_distribution(map, dist) == DistView::AnyShard
                }
            },
            _ => moved_distribution(map, dist) == dist,
        },
{
    if let DistView::HashShard(keys) = dist {
        if maps_all(map, keys) {
            assert forall|k: int| 0 <= k < keys.len() implies (#[trigger] keys[k]) < map.len() && map[keys[k] as int] is Some by {
                assert(mapped(map, keys[k]) is Some);
            }
        } else {
            let k = choose|k: int| 0 <= k < keys.len() && !(mapped(map, #[trigger] keys[k]) is Some);
            assert(!(keys[k] < map.len() && map[keys[k] as int] is Some));
        }
    }
}

} // verus!

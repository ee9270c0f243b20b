//! How the rows of a plan are distributed and ordered.

use vstd::prelude::*;

use crate::catalog::OrderType;
use crate::common::lists::{copy_indices, has_key};

verus! {

/// How rows are spread over the parts of a cluster.
#[derive(Debug, PartialEq, Eq)]
pub enum Distribution {
    Any,
    Single,
    Broadcast,
    AnyShard,
    HashShard(Vec<usize>),
}

/// A distribution by its meaning.
pub enum DistView {
    Any,
    Single,
    Broadcast,
    AnyShard,
    HashShard(Seq<usize>),
}

impl View for Distribution {
    type V = DistView;

    open spec fn view(&self) -> DistView {
        match self {
            Distribution::Any => DistView::Any,
            Distribution::Single => DistView::Single,
            Distribution::Broadcast => DistView::Broadcast,
            Distribution::AnyShard => DistView::AnyShard,
            Distribution::HashShard(keys) => DistView::HashShard(keys@),
        }
    }
}

/// All of `sub` occurs in `keys`.
pub open spec fn keys_within(sub: Seq<usize>, keys: Seq<usize>) -> bool {
    forall|i: int| 0 <= i < sub.len() ==> keys.contains(#[trigger] sub[i])
}

/// Rows that are distributed by `a` are also distributed by `b`. Of "any" nothing is
/// known, so that it satisfies only itself.
pub open spec fn satisfies(a: DistView, b: DistView) -> bool {
    match a {
        DistView::Any => b is Any,
        DistView::Single => b is Any || b is Single,
        DistView::Broadcast => b is Any || b is Broadcast,
        DistView::AnyShard => b is Any || b is AnyShard,
        DistView::HashShard(keys) => match b {
            DistView::Any => true,
            DistView::AnyShard => true,
            DistView::HashShard(sub) => keys_within(sub, keys),
            _ => false,
        },
    }
}

/// Every distribution satisfies itself.
pub proof fn law_satisfies_reflexive(a: DistView)
    ensures
        satisfies(a, a),
{
}

/// Every distribution satisfies "any".
pub proof fn law_all_satisfy_any(a: DistView)
    ensures
        satisfies(a, DistView::Any),
{
}

/// "Any" satisfies no distribution but itself.
pub proof fn law_any_satisfies_only_any(b: DistView)
    ensures
        satisfies(DistView::Any, b) ==> b is Any,
{
}

/// What satisfies a distribution satisfies all that this one satisfies.
pub proof fn law_satisfies_transitive(a: DistView, b: DistView, c: DistView)
    requires
        satisfies(a, b),
        satisfies(b, c),
    ensures
        satisfies(a, c),
{
    if let (DistView::HashShard(x), DistView::HashShard(y)) = (a, b) {
        if let DistView::HashShard(z) = c {
            assert forall|i: int| 0 <= i < z.len() implies x.contains(#[trigger] z[i]) by {
                let k = y.index_of(z[i]);
                assert(y[k] == z[i]);
            }
        }
    }
}

/// Shards by more columns satisfy shards by fewer of them.
pub proof fn law_more_keys_satisfy_fewer(keys: Seq<usize>, sub: Seq<usize>)
    requires
        sub.to_set().subset_of(keys.to_set()),
    ensures
        satisfies(DistView::HashShard(keys), DistView::HashShard(sub)),
{
    assert forall|i: int| 0 <= i < sub.len() implies keys.contains(#[trigger] sub[i]) by {
        assert(sub.to_set().contains(sub[i]));
    }
}

impl Distribution {
    /// A copy of the distribution.
    pub fn copy(&self) -> (r: Distribution)
        ensures
            r@ == self@,
    {
        match self {
            Distribution::Any => Distribution::Any,
            Distribution::Single => Distribution::Single,
            Distribution::Broadcast => Distribution::Broadcast,
            Distribution::AnyShard => Distribution::AnyShard,
            Distribution::HashShard(keys) => Distribution::HashShard(copy_indices(keys)),
        }
    }

    /// Whether rows that are distributed like this are also distributed like the other.
    pub fn satisfies(&self, other: &Distribution) -> (r: bool)
        ensures
            r == satisfies(self@, other@),
    {
        match self {
            Distribution::Any => matches!(other, Distribution::Any),
            Distribution::Single => matches!(other, Distribution::Any | Distribution::Single),
            Distribution::Broadcast => matches!(other, Distribution::Any | Distribution::Broadcast),
            Distribution::AnyShard => matches!(other, Distribution::Any | Distribution::AnyShard),
            Distribution::HashShard(keys) => match other {
                Distribution::Any => true,
                Distribution::AnyShard => true,
                Distribution::HashShard(other_keys) => {
                    let mut i: usize = 0;
                    while i < other_keys.len()
                        invariant
                            i <= other_keys@.len(),
                            self@ == DistView::HashShard(keys@),
                            other@ == DistView::HashShard(other_keys@),
                            forall|j: int| 0 <= j < i ==> keys@.contains(#[trigger] other_keys@[j]),
                        decreases other_keys@.len() - i,
                    {
                        if !has_key(keys, other_keys[i]) {
                            proof {
                                assert(!keys@.contains(other_keys@[i as int]));
                            }
                            return false;
                        }
                        i = i + 1;
                    }
                    true
                },
                _ => false,
            },
        }
    }

    /// The distribution of which nothing is known.
    pub fn any() -> (r: Distribution)
        ensures
            r@ == DistView::Any,
    {
        Distribution::Any
    }

    /// Whether nothing is known of the distribution.
    pub fn is_any(&self) -> (r: bool)
        ensures
            r == (self@ is Any),
    {
        matches!(self, Distribution::Any)
    }

    /// The columns by which rows are sharded; none in other distributions.
    pub fn dist_column_indices(&self) -> (r: Vec<usize>)
        ensures
            r@ == match self@ {
                DistView::HashShard(keys) => keys,
                _ => Seq::empty(),
            },
    {
        match self {
            Distribution::HashShard(keys) => copy_indices(keys),
            _ => {
                let r: Vec<usize> = Vec::new();
                proof {
                    assert(r@ =~= Seq::empty());
                }
                r
            },
        }
    }
}

/// What has a distribution.
pub trait WithDistribution {
    /// The distribution.
    spec fn spec_distribution(&self) -> DistView;

    /// the distribution property of the PlanNode's output
    fn distribution(&self) -> (r: &Distribution)
        ensures
            r@ == self.spec_distribution(),
    ;
}

/// One column of an order.
#[derive(Clone, Copy, Debug, PartialEq, Eq, Structural)]
pub struct FieldOrder {
    pub index: usize,
    pub direct: OrderType,
}

/// The order of rows; no columns stand for any order.
#[derive(Debug)]
pub struct Order {
    pub field_order: Vec<FieldOrder>,
}

impl View for Order {
    type V = Seq<FieldOrder>;

    open spec fn view(&self) -> Seq<FieldOrder> {
        self.field_order@
    }
}

impl Order {
    /// Any order.
    pub fn any() -> (r: Order)
        ensures
            r@ == Seq::<FieldOrder>::empty(),
    {
        let field_order: Vec<FieldOrder> = Vec::new();
        proof {
            assert(field_order@ =~= Seq::<FieldOrder>::empty());
        }
        Order { field_order }
    }

    /// A copy of the order.
    pub fn copy(&self) -> (r: Order)
        ensures
            r@ == self@,
    {
        let mut field_order: Vec<FieldOrder> = Vec::new();
        let mut i: usize = 0;
        while i < self.field_order.len()
            invariant
                i <= self.field_order@.len(),
                field_order@ == self.field_order@.subrange(0, i as int),
            decreases self.field_order@.len() - i,
        {
            field_order.push(self.field_order[i]);
            i = i + 1;
            proof {
                assert(field_order@ =~= self.field_order@.subrange(0, i as int));
            }
        }
        proof {
            assert(self.field_order@.subrange(0, i as int) =~= self.field_order@);
        }
        Order { field_order }
    }
}

/// What each distribution satisfies, apart from any distribution: a single one, a broadcast and a sharded one only
/// themselves, and one that is sharded by columns every other whose columns are all among them.
pub proof fn law_what_distributions_satisfy(keys: Seq<usize>, sub: Seq<usize>, b: DistView)
    requires
        !(b is Any),
    ensures
        satisfies(DistView::Single, b) <==> b is Single,
        satisfies(DistView::Broadcast, b) <==> b is Broadcast,
        satisfies(DistView::AnyShard, b) <==> b is AnyShard,
        satisfies(DistView::HashShard(keys), DistView::AnyShard),
        !satisfies(DistView::HashShard(keys), DistView::Single),
        !satisfies(DistView::HashShard(keys), DistView::Broadcast),
        satisfies(DistView::HashShard(keys), DistView::HashShard(sub)) <==> sub.to_set().subset_of(keys.to_set()),
{
    if satisfies(DistView::HashShard(keys), DistView::HashShard(sub)) {
        assert forall|c: usize| sub.to_set().contains(c) implies keys.to_set().contains(c) by {
            let i = sub.index_of(c);
            assert(keys.contains(sub[i]));
        }
    }
    if sub.to_set().subset_of(keys.to_set()) {
        law_more_keys_satisfy_fewer(keys, sub);
    }
}

} // verus!

//! Joins.

use vstd::prelude::*;

use crate::catalog::{Field, Schema};
use crate::common::lists::copy_indices;
use crate::frontend::col_index_mapping::ColIndexMapping;
use crate::frontend::expr::ExprImpl;
use crate::frontend::plan_node::base::{logical_base, PlanBase, QueryContext};
use crate::frontend::plan_node::logical_scan::picked;
use crate::frontend::plan_node::node::{schema_of_plan, EqJoinPredicate, JoinType, LogicalJoin, PlanRef};

verus! {

/// The columns of the rows that a join makes, before it picks the ones to put out.
pub open spec fn internal_fields(left: Seq<Field>, right: Seq<Field>, join_type: JoinType) -> Seq<Field> {
    match join_type {
        JoinType::LeftSemi => left,
        JoinType::LeftAnti => left,
        JoinType::RightSemi => right,
        JoinType::RightAnti => right,
        _ => left + right,
    }
}

/// The same for a join.
pub open spec fn join_fields(join: LogicalJoin) -> Seq<Field> {
    internal_fields(schema_of_plan(join.left), schema_of_plan(join.right), join.join_type)
}

/// All positions are below `n`.
pub open spec fn indices_below(indices: Seq<usize>, n: nat) -> bool {
    forall|i: int| 0 <= i < indices.len() ==> (#[trigger] indices[i]) < n
}

/// The last of the first `n` positions of the list at which `c` stands.
pub open spec fn last_position(list: Seq<usize>, n: int, c: usize) -> Option<usize>
    decreases n,
{
    if n <= 0 {
        None
    } else if list[n - 1] == c {
        Some((n - 1) as usize)
    } else {
        last_position(list, n - 1, c)
    }
}

/// Where each of `len` columns goes that are put out by the list.
pub open spec fn placed(list: Seq<usize>, len: nat) -> Seq<Option<usize>> {
    Seq::new(len, |c: int| last_position(list, list.len() as int, c as usize))
}

/// Where the columns of the left relation go in the rows that a join makes.
pub open spec fn left_to_internal(width: nat, join_type: JoinType) -> Seq<Option<usize>> {
    Seq::new(
        width,
        |i: int|
            match join_type {
                JoinType::RightSemi => None,
                JoinType::RightAnti => None,
                _ => Some(i as usize),
            },
    )
}

/// Fields one after the other.
fn append_fields(fields: &mut Vec<Field>, more: &Vec<Field>)
    ensures
        final(fields)@ == old(fields)@ + more@,
{
    let ghost before = fields@;
    let mut i: usize = 0;
    proof {
        assert(before + more@.subrange(0, 0) =~= before);
    }
    while i < more.len()
        invariant
            i <= more@.len(),
            fields@ == before + more@.subrange(0, i as int),
        decreases more@.len() - i,
    {
        fields.push(more[i].copy());
        i = i + 1;
        proof {
            assert(fields@ =~= before + more@.subrange(0, i as int));
        }
    }
    proof {
        assert(more@.subrange(0, more@.len() as int) =~= more@);
    }
}

/// The fields of two relations, one after the other.
pub fn concat_fields(left: &Schema, right: &Schema) -> (r: Vec<Field>)
    ensures
        r@ == left@ + right@,
{
    let mut r: Vec<Field> = Vec::new();
    append_fields(&mut r, &left.fields);
    append_fields(&mut r, &right.fields);
    proof {
        assert(r@ =~= left@ + right@);
    }
    r
}

impl LogicalJoin {
    /// The columns that the join puts out exist.
    pub open spec fn wf(&self) -> bool {
        indices_below(self.output_indices@, join_fields(*self).len())
    }

    /// A join of two relations.
    pub fn new(
        left: PlanRef,
        right: PlanRef,
        join_type: JoinType,
        on: Option<ExprImpl>,
        output_indices: Vec<usize>,
        pk_indices: Vec<usize>,
        ctx: &mut QueryContext,
    ) -> (r: LogicalJoin)
        requires
            indices_below(
                output_indices@,
                internal_fields(schema_of_plan(left), schema_of_plan(right), join_type).len(),
            ),
            old(ctx).has_ids(1),
        ensures
            r.wf(),
            r.left == left,
            r.right == right,
            r.join_type == join_type,
            r.on == on,
            r.output_indices == output_indices,
            r.base@ == logical_base(
                old(ctx).next_id,
                picked(
                    internal_fields(schema_of_plan(left), schema_of_plan(right), join_type),
                    output_indices@,
                ),
                pk_indices@,
            ),
            *final(ctx) == old(ctx).after_ids(1),
    {
        let internal: Vec<Field> = match join_type {
            JoinType::LeftSemi | JoinType::LeftAnti => left.schema().copy().fields,
            JoinType::RightSemi | JoinType::RightAnti => right.schema().copy().fields,
            _ => concat_fields(left.schema(), right.schema()),
        };
        let ghost all = picked(internal@, output_indices@);
        let mut fields: Vec<Field> = Vec::new();
        let mut i: usize = 0;
        while i < output_indices.len()
            invariant
                i <= output_indices@.len(),
                indices_below(output_indices@, internal@.len()),
                all == picked(internal@, output_indices@),
                fields@ == all.subrange(0, i as int),
            decreases output_indices@.len() - i,
        {
            assert(output_indices@[i as int] < internal@.len());
            fields.push(internal[output_indices[i]].copy());
            i = i + 1;
            proof {
                assert(fields@ =~= all.subrange(0, i as int));
            }
        }
        proof {
            assert(fields@ =~= all);
        }
        let base = PlanBase::new_logical(ctx, Schema::new(fields), pk_indices);
        LogicalJoin { base, left, right, join_type, on, output_indices }
    }

    /// The same join of two other relations.
    pub fn clone_with_left_right(&self, left: PlanRef, right: PlanRef, ctx: &mut QueryContext) -> (r: LogicalJoin)
        requires
            indices_below(
                self.output_indices@,
                internal_fields(schema_of_plan(left), schema_of_plan(right), self.join_type).len(),
            ),
            old(ctx).has_ids(1),
        ensures
            r.wf(),
            r.left == left,
            r.right == right,
            r.join_type == self.join_type,
            r.on == self.on,
            r.output_indices@ == self.output_indices@,
            r.base@ == logical_base(
                old(ctx).next_id,
                picked(
                    internal_fields(schema_of_plan(left), schema_of_plan(right), self.join_type),
                    self.output_indices@,
                ),
                self.base@.pk_indices,
            ),
            *final(ctx) == old(ctx).after_ids(1),
    {
        let on = match &self.on {
            Some(e) => Some(e.copy()),
            None => None,
        };
        LogicalJoin::new(
            left,
            right,
            self.join_type,
            on,
            copy_indices(&self.output_indices),
            copy_indices(&self.base.pk_indices),
            ctx,
        )
    }

    /// How many columns the rows have that the join makes.
    pub fn internal_column_num(&self) -> (r: usize)
        requires
            join_fields(*self).len() <= usize::MAX,
        ensures
            r == join_fields(*self).len(),
    {
        match self.join_type {
            JoinType::LeftSemi | JoinType::LeftAnti => self.left.schema().len(),
            JoinType::RightSemi | JoinType::RightAnti => self.right.schema().len(),
            _ => self.left.schema().len() + self.right.schema().len(),
        }
    }

    /// Where the columns of the left relation go in the rows that the join makes.
    pub fn l2i_col_mapping(&self) -> (r: ColIndexMapping)
        ensures
            r@ == left_to_internal(schema_of_plan(self.left).len(), self.join_type),
    {
        let n: usize = self.left.schema().len();
        let keep: bool = !matches!(self.join_type, JoinType::RightSemi | JoinType::RightAnti);
        let ghost all = left_to_internal(n as nat, self.join_type);
        let mut map: Vec<Option<usize>> = Vec::new();
        let mut i: usize = 0;
        while i < n
            invariant
                i <= n,
                all == left_to_internal(n as nat, self.join_type),
                keep == !(self.join_type == JoinType::RightSemi || self.join_type == JoinType::RightAnti),
                map@ == all.subrange(0, i as int),
            decreases n - i,
        {
            map.push(
                if keep {
                    Some(i)
                } else {
                    None
                },
            );
            i = i + 1;
            proof {
                assert(map@ =~= all.subrange(0, i as int));
            }
        }
        proof {
            assert(map@ =~= all);
        }
        ColIndexMapping { map }
    }

    /// Where the columns of the rows that the join makes go in its output.
    pub fn i2o_col_mapping(&self) -> (r: ColIndexMapping)
        requires
            join_fields(*self).len() <= usize::MAX,
        ensures
            r@ == placed(self.output_indices@, join_fields(*self).len()),
    {
        let n: usize = self.internal_column_num();
        let ghost list = self.output_indices@;
        let mut map: Vec<Option<usize>> = Vec::new();
        let mut c: usize = 0;
        while c < n
            invariant
                c <= n,
                list == self.output_indices@,
                map@ == placed(list, n as nat).subrange(0, c as int),
            decreases n - c,
        {
            let mut k: usize = self.output_indices.len();
            let mut target: Option<usize> = None;
            while k > 0 && target.is_none()
                invariant
                    k <= list.len(),
                    list == self.output_indices@,
                    match target {
                        Some(t) => last_position(list, list.len() as int, c) == Some(t),
                        None => last_position(list, list.len() as int, c) == last_position(list, k as int, c),
                    },
                decreases k,
            {
                k = k - 1;
                if self.output_indices[k] == c {
                    target = Some(k);
                }
            }
            map.push(target);
            c = c + 1;
            proof {
                assert(map@ =~= placed(list, n as nat).subrange(0, c as int));
            }
        }
        proof {
            assert(map@ =~= placed(list, n as nat));
        }
        ColIndexMapping { map }
    }
}

/// The left columns of the equalities.
pub open spec fn left_keys(keys: Seq<(usize, usize)>) -> Seq<usize> {
    Seq::new(keys.len(), |i: int| keys[i].0)
}

/// The right columns of the equalities, by their position in the right relation.
pub open spec fn right_keys(keys: Seq<(usize, usize)>, left_cols_num: usize) -> Seq<usize> {
    Seq::new(keys.len(), |i: int| (keys[i].1 - left_cols_num) as usize)
}

impl EqJoinPredicate {
    /// The right columns stand behind the left ones.
    pub open spec fn wf(&self) -> bool {
        forall|i: int| 0 <= i < self.eq_keys@.len() ==> (#[trigger] self.eq_keys@[i]).1 >= self.left_cols_num
    }

    /// The left columns of the equalities.
    pub fn left_eq_indexes(&self) -> (r: Vec<usize>)
        ensures
            r@ == left_keys(self.eq_keys@),
    {
        let mut r: Vec<usize> = Vec::new();
        let mut i: usize = 0;
        while i < self.eq_keys.len()
            invariant
                i <= self.eq_keys@.len(),
                r@ == left_keys(self.eq_keys@).subrange(0, i as int),
            decreases self.eq_keys@.len() - i,
        {
            r.push(self.eq_keys[i].0);
            i = i + 1;
            proof {
                assert(r@ =~= left_keys(self.eq_keys@).subrange(0, i as int));
            }
        }
        proof {
            assert(r@ =~= left_keys(self.eq_keys@));
        }
        r
    }

    /// The right columns of the equalities, by their position in the right relation.
    pub fn right_eq_indexes(&self) -> (r: Vec<usize>)
        requires
            self.wf(),
        ensures
            r@ == right_keys(self.eq_keys@, self.left_cols_num),
    {
        let mut r: Vec<usize> = Vec::new();
        let mut i: usize = 0;
        while i < self.eq_keys.len()
            invariant
                i <= self.eq_keys@.len(),
                self.wf(),
                r@ == right_keys(self.eq_keys@, self.left_cols_num).subrange(0, i as int),
            decreases self.eq_keys@.len() - i,
        {
            assert(self.eq_keys@[i as int].1 >= self.left_cols_num);
            r.push(self.eq_keys[i].1 - self.left_cols_num);
            i = i + 1;
            proof {
                assert(r@ =~= right_keys(self.eq_keys@, self.left_cols_num).subrange(0, i as int));
            }
        }
        proof {
            assert(r@ =~= right_keys(self.eq_keys@, self.left_cols_num));
        }
        r
    }
}

/// A join makes rows of the columns of its left relation, then those of its right one; if it only asks
/// whether there is a row on the other side, of the columns of one relation alone.
pub proof fn law_joined_columns(left: Seq<Field>, right: Seq<Field>, join_type: JoinType, i: int)
    ensures
        ({
            let fields = internal_fields(left, right, join_type);
            let one_sided = join_type == JoinType::LeftSemi || join_type == JoinType::LeftAnti || join_type
                == JoinType::RightSemi || join_type == JoinType::RightAnti;
            &&& !one_sided ==> fields.len() == left.len() + right.len()
            &&& !one_sided && 0 <= i < left.len() ==> fields[i] == left[i]
            &&& !one_sided && 0 <= i < right.len() ==> fields[left.len() + i] == right[i]
            &&& join_type == JoinType::LeftSemi || join_type == JoinType::LeftAnti ==> fields == left
            &&& join_type == JoinType::RightSemi || join_type == JoinType::RightAnti ==> fields == right
        }),
{
}

proof fn lemma_last_position_is_last(list: Seq<usize>, n: int, c: usize)
    requires
        0 <= n <= list.len() <= usize::MAX,
    ensures
        match last_position(list, n, c) {
            Some(p) => p < n && list[p as int] == c && forall|j: int| p < j < n ==> #[trigger] list[j] != c,
            None => forall|j: int| 0 <= j < n ==> #[trigger] list[j] != c,
        },
    decreases n,
{
    if n > 0 {
        lemma_last_position_is_last(list, n - 1, c);
    }
}

/// A column goes to the last place at which the join puts it out, and nowhere if it is not put out.
pub proof fn law_column_goes_to_its_last_place(list: Seq<usize>, len: nat, c: usize)
    requires
        list.len() <= usize::MAX,
        c < len,
    ensures
        placed(list, len).len() == len,
        match placed(list, len)[c as int] {
            Some(p) => p < list.len() && list[p as int] == c && forall|j: int| p < j < list.len() ==> #[trigger] list[j] != c,
            None => !list.contains(c),
        },
{
    lemma_last_position_is_last(list, list.len() as int, c);
}

/// The columns of the left relation keep their positions in the rows that a join makes, unless it
/// makes rows of the right relation alone.
pub proof fn law_left_columns_keep_positions(width: nat, join_type: JoinType, c: usize)
    requires
        c < width,
    ensures
        left_to_internal(width, join_type).len() == width,
        left_to_internal(width, join_type)[c as int] == if join_type == JoinType::RightSemi || join_type
            == JoinType::RightAnti {
            None
        } else {
            Some(c)
        },
{
}

/// The two columns of each equality, each by its position in its own relation.
pub proof fn law_equality_columns(keys: Seq<(usize, usize)>, left_cols_num: usize, i: int)
    requires
        0 <= i < keys.len(),
        keys[i].1 >= left_cols_num,
    ensures
        left_keys(keys).len() == keys.len(),
        right_keys(keys, left_cols_num).len() == keys.len(),
        left_keys(keys)[i] == keys[i].0,
        right_keys(keys, left_cols_num)[i] + left_cols_num == keys[i].1,
{
}

} // verus!

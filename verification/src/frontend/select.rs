//! Binding SELECT statements.

use std::sync::Arc;
use vstd::prelude::*;
use vstd::string::StringExecFns;

use crate::catalog::{describes, is_plain_field, type_text, ColumnDesc, DataType, Field, Schema};
use crate::common::error::{fails, ErrorCode, ErrorView};
use crate::frontend::binder::{
    are_all_fields, are_columns, binding_ref, can_extract, destination, extract, field_of, field_position,
    fields_countable, follows, is_one_field, names_column, picks, picks_all, single_error, walk, wildcard_error,
    AstExpr, BindContext, Binder, Bound, Clause, ColumnBinding, Ident, SelectItem,
};
use crate::frontend::expr::{
    any_correlated, column_index, is_correlated_expr, picked_field, type_of, types_of, ExprImpl,
    FunctionCall,
};

verus! {

/// The name of a column that was given none.
pub open spec fn unnamed_column() -> Seq<char> {
    "?column?"@
}

/// The prefix of column names that are reserved.
pub open spec fn reserved_prefix() -> Seq<char> {
    "_row_id"@
}

/// The column name is reserved.
pub open spec fn is_reserved(name: Seq<char>) -> bool {
    name.len() >= reserved_prefix().len() && name.subrange(0, reserved_prefix().len() as int) == reserved_prefix()
}

/// The error of a reserved column name.
pub open spec fn reserved_error() -> ErrorView {
    ErrorView::InternalError("column name prefixed with \"_row_id\" are reserved word."@)
}

/// Whether the column name is reserved.
pub fn is_row_id_column_name(name: &str) -> (r: bool)
    ensures
        r == is_reserved(name@),
{
    let prefix: &str = "_row_id";
    let n: usize = name.unicode_len();
    let m: usize = prefix.unicode_len();
    if n < m {
        return false;
    }
    let mut i: usize = 0;
    while i < m
        invariant
            i <= m <= n,
            prefix@ == reserved_prefix(),
            m == prefix@.len(),
            n == name@.len(),
            forall|j: int| 0 <= j < i ==> name@[j] == prefix@[j],
        decreases m - i,
    {
        if name.get_char(i) != prefix.get_char(i) {
            proof {
                assert(name@.subrange(0, m as int)[i as int] != prefix@[i as int]);
            }
            return false;
        }
        i = i + 1;
    }
    proof {
        assert(name@.subrange(0, m as int) =~= prefix@);
    }
    true
}

/// Check if the column name does not conflict with the internally reserved column name.
pub fn check_valid_column_name(name: &str) -> (r: Result<(), ErrorCode>)
    ensures
        if is_reserved(name@) {
            fails(r, reserved_error())
        } else {
            r is Ok
        },
{
    if is_row_id_column_name(name) {
        Err(ErrorCode::InternalError("column name prefixed with \"_row_id\" are reserved word.".to_owned()))
    } else {
        Ok(())
    }
}

/// The positions from `begin` up to `end`.
pub open spec fn index_range(begin: int, end: int) -> Seq<usize> {
    Seq::new((end - begin) as nat, |i: int| (begin + i) as usize)
}

/// Which of the first `n` columns are not hidden.
pub open spec fn visible(columns: Seq<ColumnBinding>, n: int) -> Seq<usize>
    decreases n,
{
    if n <= 0 {
        Seq::empty()
    } else if columns[n - 1].is_hidden {
        visible(columns, n - 1)
    } else {
        visible(columns, n - 1).push((n - 1) as usize)
    }
}

/// The error that the binding of an expression gave.
pub open spec fn bound_error(bound: Bound) -> Option<ErrorView> {
    match bound {
        Ok(_) => None,
        Err(e) => Some(e@),
    }
}

/// The error of a relation that does not exist.
pub open spec fn no_relation(name: Seq<char>) -> ErrorView {
    ErrorView::ItemNotFound("relation \""@ + name + "\""@)
}

/// The error of an item of a SELECT clause.
pub open spec fn item_error(ctx: BindContext, item: SelectItem) -> Option<ErrorView> {
    match item {
        SelectItem::UnnamedExpr(AstExpr::FieldIdentifier(expr, ids), _) => single_error(ctx, *expr, ids@),
        SelectItem::UnnamedExpr(_, bound) => bound_error(bound),
        SelectItem::ExprWithAlias { bound, alias } => if is_reserved(alias.value@) {
            Some(reserved_error())
        } else {
            bound_error(bound)
        },
        SelectItem::QualifiedWildcard(names) => if ctx.range_of@.contains_key(names@.last().value@) {
            None
        } else {
            Some(no_relation(names@.last().value@))
        },
        SelectItem::ExprQualifiedWildcard(expr, ids) => wildcard_error(ctx, expr, ids@),
        SelectItem::Wildcard => None,
    }
}

/// The item is one that can be bound.
pub open spec fn item_wf(ctx: BindContext, item: SelectItem) -> bool {
    match item {
        SelectItem::UnnamedExpr(AstExpr::FieldIdentifier(expr, ids), _) => can_extract(ctx, *expr, ids@),
        SelectItem::UnnamedExpr(_, bound) => bound_in_scope(ctx, bound),
        SelectItem::ExprWithAlias { bound, .. } => bound_in_scope(ctx, bound),
        SelectItem::QualifiedWildcard(names) => names@.len() > 0,
        SelectItem::ExprQualifiedWildcard(expr, ids) => can_extract(ctx, expr, ids@),
        SelectItem::Wildcard => true,
    }
}

/// The column that the expression reads exists.
pub open spec fn in_scope(ctx: BindContext, e: ExprImpl) -> bool {
    column_index(e) matches Some(i) ==> i < ctx.columns@.len()
}

/// The same of what the binding of an expression gave.
pub open spec fn bound_in_scope(ctx: BindContext, bound: Bound) -> bool {
    bound matches Ok(e) ==> in_scope(ctx, e)
}

/// The name that an expression gives to its column.
pub open spec fn own_name(expr: AstExpr) -> Option<String> {
    match expr {
        AstExpr::Identifier(ident) => Some(ident.value),
        AstExpr::CompoundIdentifier(idents) => if idents@.len() > 0 {
            Some(idents@.last().value)
        } else {
            None
        },
        _ => None,
    }
}

/// One expression and its name.
pub open spec fn is_single(exprs: Seq<ExprImpl>, names: Seq<Option<String>>, e: ExprImpl, name: Option<String>) -> bool {
    exprs == seq![e] && names == seq![name]
}

/// What an item of a SELECT clause becomes.
pub open spec fn item_gives(ctx: BindContext, item: SelectItem, exprs: Seq<ExprImpl>, names: Seq<Option<String>>) -> bool {
    match item {
        SelectItem::UnnamedExpr(AstExpr::FieldIdentifier(expr, ids), _) => exprs.len() == 1 && names.len() == 1
            && is_one_field(exprs[0], names[0], ctx, *expr, ids@),
        SelectItem::UnnamedExpr(expr, bound) => is_single(exprs, names, bound->Ok_0, own_name(expr)),
        SelectItem::ExprWithAlias { bound, alias } => is_single(exprs, names, bound->Ok_0, Some(alias.value)),
        SelectItem::QualifiedWildcard(table) => {
            let (begin, end) = ctx.range_of@[table@.last().value@];
            are_columns(exprs, names, ctx.columns@, index_range(begin as int, end as int))
        },
        SelectItem::ExprQualifiedWildcard(expr, ids) => are_all_fields(exprs, names, ctx, expr, ids@),
        SelectItem::Wildcard => are_columns(
            exprs,
            names,
            ctx.columns@,
            visible(ctx.columns@, ctx.columns@.len() as int),
        ),
    }
}

/// How many columns an item becomes.
pub open spec fn item_width(ctx: BindContext, item: SelectItem) -> nat {
    match item {
        SelectItem::UnnamedExpr(_, _) => 1,
        SelectItem::ExprWithAlias { .. } => 1,
        SelectItem::QualifiedWildcard(table) => {
            let (begin, end) = ctx.range_of@[table@.last().value@];
            (end - begin) as nat
        },
        SelectItem::ExprQualifiedWildcard(expr, ids) => (destination(ctx, expr, ids@)->Ok_0).2.field_descs@.len(),
        SelectItem::Wildcard => visible(ctx.columns@, ctx.columns@.len() as int).len(),
    }
}

/// The first error of the first `n` items.
pub open spec fn project_error(ctx: BindContext, items: Seq<SelectItem>, n: int) -> Option<ErrorView>
    decreases n,
{
    if n <= 0 {
        None
    } else {
        match project_error(ctx, items, n - 1) {
            Some(e) => Some(e),
            None => item_error(ctx, items[n - 1]),
        }
    }
}

/// How many columns the first `n` items become.
pub open spec fn width_of(ctx: BindContext, items: Seq<SelectItem>, n: int) -> nat
    decreases n,
{
    if n <= 0 {
        0
    } else {
        width_of(ctx, items, n - 1) + item_width(ctx, items[n - 1])
    }
}

/// What the first `n` items become, one after the other.
pub open spec fn project_gives(
    ctx: BindContext,
    items: Seq<SelectItem>,
    n: int,
    exprs: Seq<ExprImpl>,
    names: Seq<Option<String>>,
) -> bool {
    &&& exprs.len() == width_of(ctx, items, n)
    &&& names.len() == exprs.len()
    &&& forall|k: int|
        0 <= k < n ==> item_gives(
            ctx,
            #[trigger] items[k],
            exprs.subrange(width_of(ctx, items, k) as int, width_of(ctx, items, k + 1) as int),
            names.subrange(width_of(ctx, items, k) as int, width_of(ctx, items, k + 1) as int),
        )
}

proof fn lemma_width_grows(ctx: BindContext, items: Seq<SelectItem>, i: int, n: int)
    requires
        0 <= i <= n,
    ensures
        width_of(ctx, items, i) <= width_of(ctx, items, n),
    decreases n,
{
    if i < n {
        lemma_width_grows(ctx, items, i, n - 1);
    }
}

proof fn lemma_project_error_stays(ctx: BindContext, items: Seq<SelectItem>, i: int, n: int)
    requires
        0 <= i <= n,
        project_error(ctx, items, i) is Some,
    ensures
        project_error(ctx, items, n) == project_error(ctx, items, i),
    decreases n,
{
    if i < n {
        lemma_project_error_stays(ctx, items, i, n - 1);
    }
}

proof fn lemma_project_next(
    ctx: BindContext,
    items: Seq<SelectItem>,
    n: int,
    exprs: Seq<ExprImpl>,
    names: Seq<Option<String>>,
    more: Seq<ExprImpl>,
    more_names: Seq<Option<String>>,
)
    requires
        0 <= n < items.len(),
        project_gives(ctx, items, n, exprs, names),
        item_gives(ctx, items[n], more, more_names),
        more.len() == item_width(ctx, items[n]),
        more_names.len() == more.len(),
    ensures
        project_gives(ctx, items, n + 1, exprs + more, names + more_names),
{
    assert forall|k: int| 0 <= k < n + 1 implies item_gives(
        ctx,
        #[trigger] items[k],
        (exprs + more).subrange(width_of(ctx, items, k) as int, width_of(ctx, items, k + 1) as int),
        (names + more_names).subrange(width_of(ctx, items, k) as int, width_of(ctx, items, k + 1) as int),
    ) by {
        let (a, b) = (width_of(ctx, items, k) as int, width_of(ctx, items, k + 1) as int);
        if k < n {
            lemma_width_grows(ctx, items, k + 1, n);
            lemma_width_grows(ctx, items, k, k + 1);
            assert((exprs + more).subrange(a, b) =~= exprs.subrange(a, b));
            assert((names + more_names).subrange(a, b) =~= names.subrange(a, b));
        } else {
            assert((exprs + more).subrange(a, b) =~= more);
            assert((names + more_names).subrange(a, b) =~= more_names);
        }
    }
}

/// A path of fields reads the column that it starts from.
pub proof fn lemma_follows_index(e: ExprImpl, expr: ExprImpl, desc: ColumnDesc, idents: Seq<Ident>, n: int)
    requires
        follows(e, expr, desc, idents, n),
    ensures
        column_index(e) == column_index(expr),
    decreases n,
{
    if n > 0 {
        if let ExprImpl::FunctionCall(call) = e {
            lemma_follows_index(call.inputs@[0], expr, desc, idents, n - 1);
        }
    }
}

/// What the binding of an expression gave.
fn copy_bound(bound: &Bound) -> (r: Bound)
    ensures
        r == *bound,
{
    match bound {
        Ok(e) => Ok(e.copy()),
        Err(e) => Err(e.copy()),
    }
}

/// The name that an expression gives to its column.
fn name_of(expr: &AstExpr) -> (r: Option<String>)
    ensures
        r == own_name(*expr),
{
    match expr {
        AstExpr::Identifier(ident) => Some(ident.value.clone()),
        AstExpr::CompoundIdentifier(idents) => {
            if idents.len() > 0 {
                Some(idents[idents.len() - 1].value.clone())
            } else {
                None
            }
        },
        _ => None,
    }
}

/// One expression and its name.
fn single(e: ExprImpl, name: Option<String>) -> (r: (Vec<ExprImpl>, Vec<Option<String>>))
    ensures
        is_single(r.0@, r.1@, e, name),
{
    let mut exprs: Vec<ExprImpl> = Vec::new();
    let mut names: Vec<Option<String>> = Vec::new();
    exprs.push(e);
    names.push(name);
    proof {
        assert(exprs@ =~= seq![e]);
        assert(names@ =~= seq![name]);
    }
    (exprs, names)
}

/// A SELECT statement whose names are bound.
#[derive(Debug)]
pub struct BoundSelect {
    pub distinct: bool,
    pub select_items: Vec<ExprImpl>,
    pub aliases: Vec<Option<String>>,
    /// The number of the relation that is read.
    pub from: Option<u64>,
    pub where_clause: Option<ExprImpl>,
    pub group_by: Vec<ExprImpl>,
    pub schema: Schema,
}

/// The name of a column: its alias, or the name of columns without one.
pub open spec fn shown_name(alias: Option<String>) -> Seq<char> {
    match alias {
        Some(name) => name@,
        None => unnamed_column(),
    }
}

/// The name of a column.
fn show_name(alias: &Option<String>) -> (r: String)
    ensures
        r@ == shown_name(*alias),
{
    match alias {
        Some(name) => name.clone(),
        None => "?column?".to_owned(),
    }
}

impl BoundSelect {
    /// The names returned by this [`BoundSelect`].
    pub fn names(&self) -> (r: Vec<String>)
        ensures
            r@.len() == self.aliases@.len(),
            forall|i: int| 0 <= i < r@.len() ==> (#[trigger] r@[i])@ == shown_name(self.aliases@[i]),
    {
        let mut r: Vec<String> = Vec::new();
        let mut i: usize = 0;
        while i < self.aliases.len()
            invariant
                i <= self.aliases@.len(),
                r@.len() == i,
                forall|j: int| 0 <= j < i ==> (#[trigger] r@[j])@ == shown_name(self.aliases@[j]),
            decreases self.aliases@.len() - i,
        {
            r.push(show_name(&self.aliases[i]));
            i = i + 1;
        }
        r
    }

    /// The types returned by this [`BoundSelect`].
    pub fn data_types(&self) -> (r: Vec<DataType>)
        ensures
            r@ == types_of(self.select_items@),
    {
        let mut r: Vec<DataType> = Vec::new();
        let mut i: usize = 0;
        while i < self.select_items.len()
            invariant
                i <= self.select_items@.len(),
                r@ == types_of(self.select_items@).subrange(0, i as int),
            decreases self.select_items@.len() - i,
        {
            r.push(self.select_items[i].return_type());
            i = i + 1;
            proof {
                assert(r@ =~= types_of(self.select_items@).subrange(0, i as int));
            }
        }
        proof {
            assert(r@ =~= types_of(self.select_items@));
        }
        r
    }

    /// Whether any expression refers to a column of a query around this one.
    pub fn is_correlated(&self) -> (r: bool)
        ensures
            r == ((exists|i: int|
                0 <= i < self.select_items@.len() && is_correlated_expr(#[trigger] self.select_items@[i])) || (
            exists|i: int| 0 <= i < self.group_by@.len() && is_correlated_expr(#[trigger] self.group_by@[i])) || (
            self.where_clause matches Some(e) && is_correlated_expr(e))),
    {
        if any_correlated(&self.select_items) || any_correlated(&self.group_by) {
            return true;
        }
        match &self.where_clause {
            Some(e) => e.has_correlated_input_ref(),
            None => false,
        }
    }
}

/// The field of a result column.
pub open spec fn is_result_field(ctx: BindContext, e: ExprImpl, alias: Option<String>, field: Field) -> bool {
    match column_index(e) {
        Some(i) => {
            let column = picked_field(e, ctx.columns@[i as int].desc)->0;
            &&& field.data_type == type_of(e)
            &&& field.name@ == shown_name(alias)
            &&& field.struct_type_name@ == column.struct_type_name@
            &&& field.sub_fields@.len() == column.field_descs@.len()
            &&& forall|j: int|
                0 <= j < column.field_descs@.len() ==> describes(
                    #[trigger] column.field_descs@[j],
                    field.sub_fields@[j],
                )
        },
        None => is_plain_field(field, type_of(e), shown_name(alias)),
    }
}

/// The expression picks no field that its column lacks.
pub open spec fn has_result_field(ctx: BindContext, e: ExprImpl) -> bool {
    column_index(e) matches Some(i) ==> picked_field(e, ctx.columns@[i as int].desc) is Some
}

/// All expressions read columns that exist.
pub open spec fn all_in_scope(ctx: BindContext, exprs: Seq<ExprImpl>) -> bool {
    forall|i: int| 0 <= i < exprs.len() ==> in_scope(ctx, #[trigger] exprs[i])
}

/// No expression picks a field that its column lacks.
pub open spec fn all_have_fields(ctx: BindContext, exprs: Seq<ExprImpl>) -> bool {
    forall|i: int| 0 <= i < exprs.len() ==> has_result_field(ctx, #[trigger] exprs[i])
}

/// The item is an expression that picks a field that its column lacks.
pub open spec fn item_lacks_field(ctx: BindContext, item: SelectItem) -> bool {
    match item {
        SelectItem::UnnamedExpr(AstExpr::FieldIdentifier(_, _), _) => false,
        SelectItem::UnnamedExpr(_, bound) => bound matches Ok(e) && !has_result_field(ctx, e),
        SelectItem::ExprWithAlias { bound, .. } => bound matches Ok(e) && !has_result_field(ctx, e),
        _ => false,
    }
}

/// One of the first `n` items is such an expression.
pub open spec fn lacks_field(ctx: BindContext, items: Seq<SelectItem>, n: int) -> bool
    decreases n,
{
    n > 0 && (lacks_field(ctx, items, n - 1) || item_lacks_field(ctx, items[n - 1]))
}

proof fn lemma_have_concat(ctx: BindContext, a: Seq<ExprImpl>, b: Seq<ExprImpl>)
    ensures
        all_have_fields(ctx, a + b) == (all_have_fields(ctx, a) && all_have_fields(ctx, b)),
        all_in_scope(ctx, a + b) == (all_in_scope(ctx, a) && all_in_scope(ctx, b)),
{
    let c = a + b;
    if all_have_fields(ctx, c) {
        assert forall|i: int| 0 <= i < a.len() implies has_result_field(ctx, #[trigger] a[i]) by {
            assert(c[i] == a[i]);
        }
        assert forall|i: int| 0 <= i < b.len() implies has_result_field(ctx, #[trigger] b[i]) by {
            assert(c[a.len() + i] == b[i]);
        }
    }
    if all_in_scope(ctx, c) {
        assert forall|i: int| 0 <= i < a.len() implies in_scope(ctx, #[trigger] a[i]) by {
            assert(c[i] == a[i]);
        }
        assert forall|i: int| 0 <= i < b.len() implies in_scope(ctx, #[trigger] b[i]) by {
            assert(c[a.len() + i] == b[i]);
        }
    }
}

/// The first error of the first `n` expressions of a list.
pub open spec fn list_error(list: Seq<Bound>, n: int) -> Option<ErrorView>
    decreases n,
{
    if n <= 0 {
        None
    } else {
        match list_error(list, n - 1) {
            Some(e) => Some(e),
            None => bound_error(list[n - 1]),
        }
    }
}

proof fn lemma_list_error_stays(list: Seq<Bound>, i: int, n: int)
    requires
        0 <= i <= n,
        list_error(list, i) is Some,
    ensures
        list_error(list, n) == list_error(list, i),
    decreases n,
{
    if i < n {
        lemma_list_error_stays(list, i, n - 1);
    }
}

/// A SELECT statement: its clauses, with what the binding of each expression gave.
#[derive(Debug)]
pub struct Select {
    pub distinct: bool,
    pub from: Result<Option<u64>, ErrorCode>,
    pub selection: Option<Bound>,
    pub group_by: Vec<Bound>,
    pub projection: Vec<SelectItem>,
}

/// The error of a WHERE clause.
pub open spec fn where_error(selection: Option<Bound>) -> Option<ErrorView> {
    match selection {
        None => None,
        Some(Err(e)) => Some(e@),
        Some(Ok(e)) => if type_of(e) == DataType::Boolean {
            None
        } else {
            Some(
                ErrorView::InternalError("argument of WHERE must be boolean, not type "@ + type_text(type_of(e))),
            )
        },
    }
}

/// The first error of a SELECT statement before its result columns are described.
pub open spec fn select_error(ctx: BindContext, select: Select) -> Option<ErrorView> {
    match select.from {
        Err(e) => Some(e@),
        Ok(_) => match where_error(select.selection) {
            Some(e) => Some(e),
            None => match list_error(select.group_by@, select.group_by@.len() as int) {
                Some(e) => Some(e),
                None => project_error(ctx, select.projection@, select.projection@.len() as int),
            },
        },
    }
}

/// The clause of a binder after a SELECT statement: none, unless its FROM or its WHERE clause
/// cannot be bound.
pub open spec fn clause_after(before: Option<Clause>, select: Select) -> Option<Clause> {
    if select.from is Err {
        before
    } else if select.selection matches Some(Err(_)) {
        Some(Clause::Where)
    } else {
        None
    }
}

/// The condition of a SELECT statement.
pub open spec fn where_bound(select: Select) -> Option<ExprImpl> {
    match select.selection {
        Some(Ok(e)) => Some(e),
        _ => None,
    }
}

/// The clauses of a bound SELECT statement.
pub open spec fn clauses_bound(select: Select, bound: BoundSelect) -> bool {
    &&& bound.distinct == select.distinct
    &&& select.from == Ok::<Option<u64>, ErrorCode>(bound.from)
    &&& bound.where_clause == where_bound(select)
    &&& bound.group_by@.len() == select.group_by@.len()
    &&& forall|i: int|
        0 <= i < bound.group_by@.len() ==> select.group_by@[i] == Ok::<ExprImpl, ErrorCode>(
            #[trigger] bound.group_by@[i],
        )
}

/// What a SELECT statement becomes.
pub open spec fn is_bound_select(ctx: BindContext, select: Select, bound: BoundSelect) -> bool {
    &&& clauses_bound(select, bound)
    &&& project_gives(
        ctx,
        select.projection@,
        select.projection@.len() as int,
        bound.select_items@,
        bound.aliases@,
    )
    &&& bound.schema@.len() == bound.select_items@.len()
    &&& forall|i: int|
        0 <= i < bound.schema@.len() ==> is_result_field(
            ctx,
            #[trigger] bound.select_items@[i],
            bound.aliases@[i],
            bound.schema@[i],
        )
}

/// The items of a SELECT clause can be bound.
pub open spec fn items_wf(ctx: BindContext, items: Seq<SelectItem>) -> bool {
    forall|i: int| 0 <= i < items.len() ==> item_wf(ctx, #[trigger] items[i])
}

impl Binder {
    /// Binds one item of a SELECT clause.
    #[verifier::rlimit(40)]
    fn bind_item(&self, item: &SelectItem) -> (r: Result<(Vec<ExprImpl>, Vec<Option<String>>), ErrorCode>)
        requires
            self.context.wf(),
            item_wf(self.context, *item),
        ensures
            match item_error(self.context, *item) {
                Some(e) => fails(r, e),
                None => {
                    &&& r matches Ok((exprs, names))
                    &&& item_gives(self.context, *item, exprs@, names@)
                    &&& exprs@.len() == item_width(self.context, *item)
                    &&& names@.len() == exprs@.len()
                    &&& all_in_scope(self.context, exprs@)
                    &&& all_have_fields(self.context, exprs@) == !item_lacks_field(self.context, *item)
                },
            },
    {
        match item {
            SelectItem::UnnamedExpr(expr, bound) => {
                if let AstExpr::FieldIdentifier(field_expr, idents) = expr {
                    return match self.bind_single_field_column(field_expr, idents) {
                        Ok((e, name)) => {
                            let r = single(e, name);
                            proof {
                                lemma_one_field_has(self.context, &**field_expr, idents@, e, name);
                                lemma_single_has(self.context, r.0@, e);
                            }
                            Ok(r)
                        },
                        Err(e) => Err(e),
                    };
                }
                match copy_bound(bound) {
                    Ok(e) => {
                        let r = single(e, name_of(expr));
                        proof {
                            lemma_single_has(self.context, r.0@, e);
                        }
                        Ok(r)
                    },
                    Err(e) => Err(e),
                }
            },
            SelectItem::ExprWithAlias { bound, alias } => {
                match check_valid_column_name(alias.value.as_str()) {
                    Ok(_) => {},
                    Err(e) => {
                        return Err(e);
                    },
                }
                match copy_bound(bound) {
                    Ok(e) => {
                        let r = single(e, Some(alias.value.clone()));
                        proof {
                            lemma_single_has(self.context, r.0@, e);
                        }
                        Ok(r)
                    },
                    Err(e) => Err(e),
                }
            },
            SelectItem::QualifiedWildcard(obj_name) => {
                let table_name = &obj_name[obj_name.len() - 1].value;
                let (begin, end): (usize, usize) = match self.context.range_of.get(table_name.as_str()) {
                    Some(range) => (range.0, range.1),
                    None => {
                        let mut m: String = "relation \"".to_owned();
                        m.append(table_name.as_str());
                        m.append("\"");
                        return Err(ErrorCode::ItemNotFound(m));
                    },
                };
                let mut picked: Vec<usize> = Vec::new();
                let mut i: usize = begin;
                while i < end
                    invariant
                        begin <= i <= end,
                        picked@ == index_range(begin as int, end as int).subrange(0, i - begin),
                    decreases end - i,
                {
                    picked.push(i);
                    i = i + 1;
                    proof {
                        assert(picked@ =~= index_range(begin as int, end as int).subrange(0, i - begin));
                    }
                }
                proof {
                    assert(picked@ =~= index_range(begin as int, end as int));
                }
                let r = Binder::bind_columns_iter(&self.context.columns, &picked);
                proof {
                    lemma_columns_have(self.context, r.0@, r.1@, picked@);
                }
                Ok(r)
            },
            SelectItem::ExprQualifiedWildcard(expr, idents) => {
                match self.bind_wildcard_field_column(expr, idents) {
                    Ok((exprs, names)) => {
                        proof {
                            lemma_all_fields_have(self.context, *expr, idents@, exprs@, names@);
                        }
                        Ok((exprs, names))
                    },
                    Err(e) => Err(e),
                }
            },
            SelectItem::Wildcard => {
                let columns = &self.context.columns;
                let mut picked: Vec<usize> = Vec::new();
                let mut i: usize = 0;
                while i < columns.len()
                    invariant
                        i <= columns@.len(),
                        picked@ == visible(columns@, i as int),
                        forall|j: int| 0 <= j < picked@.len() ==> (#[trigger] picked@[j]) < i,
                    decreases columns@.len() - i,
                {
                    if !columns[i].is_hidden {
                        picked.push(i);
                    }
                    i = i + 1;
                }
                let r = Binder::bind_columns_iter(columns, &picked);
                proof {
                    lemma_columns_have(self.context, r.0@, r.1@, picked@);
                }
                Ok(r)
            },
        }
    }

    /// Binds the items of a SELECT clause.
    #[verifier::spinoff_prover]
    #[verifier::rlimit(60)]
    pub fn bind_project(&self, select_items: &Vec<SelectItem>) -> (r: Result<
        (Vec<ExprImpl>, Vec<Option<String>>),
        ErrorCode,
    >)
        requires
            self.context.wf(),
            items_wf(self.context, select_items@),
        ensures
            match project_error(self.context, select_items@, select_items@.len() as int) {
                Some(e) => fails(r, e),
                None => {
                    &&& r matches Ok((exprs, names))
                    &&& project_gives(
                        self.context,
                        select_items@,
                        select_items@.len() as int,
                        exprs@,
                        names@,
                    )
                    &&& all_in_scope(self.context, exprs@)
                    &&& all_have_fields(self.context, exprs@) == !lacks_field(
                        self.context,
                        select_items@,
                        select_items@.len() as int,
                    )
                },
            },
    {
        let ghost ctx = self.context;
        let ghost n = select_items@.len() as int;
        let mut select_list: Vec<ExprImpl> = Vec::new();
        let mut aliases: Vec<Option<String>> = Vec::new();
        let mut i: usize = 0;
        while i < select_items.len()
            invariant
                i <= n,
                n == select_items@.len(),
                ctx == self.context,
                ctx.wf(),
                items_wf(ctx, select_items@),
                project_error(ctx, select_items@, i as int) is None,
                project_gives(ctx, select_items@, i as int, select_list@, aliases@),
                all_in_scope(ctx, select_list@),
                all_have_fields(ctx, select_list@) == !lacks_field(ctx, select_items@, i as int),
            decreases n - i,
        {
            assert(item_wf(ctx, select_items@[i as int]));
            match self.bind_item(&select_items[i]) {
                Ok((mut exprs, mut names)) => {
                    proof {
                        lemma_project_next(
                            ctx,
                            select_items@,
                            i as int,
                            select_list@,
                            aliases@,
                            exprs@,
                            names@,
                        );
                    }
                    let ghost before = select_list@;
                    let ghost more = exprs@;
                    select_list.append(&mut exprs);
                    aliases.append(&mut names);
                    proof {
                        lemma_have_concat(ctx, before, more);
                    }
                },
                Err(e) => {
                    proof {
                        assert(project_error(ctx, select_items@, i + 1) is Some);
                        lemma_project_error_stays(ctx, select_items@, i + 1, n);
                    }
                    return Err(e);
                },
            }
            i = i + 1;
        }
        Ok((select_list, aliases))
    }

    /// Binds a SELECT statement. While its WHERE clause is bound, that is the clause of the binder;
    /// it stays so if the clause cannot be bound.
    pub fn bind_select(&mut self, select: Select) -> (r: Result<BoundSelect, ErrorCode>)
        requires
            old(self).context.wf(),
            items_wf(old(self).context, select.projection@),
        ensures
            match select_error(old(self).context, select) {
                Some(e) => fails(r, e),
                None => if lacks_field(old(self).context, select.projection@, select.projection@.len() as int) {
                    fails(r, ErrorView::BindError("cannot get the field of the column"@))
                } else {
                    r matches Ok(bound) && is_bound_select(old(self).context, select, bound)
                },
            },
            final(self).context == old(self).context,
            final(self).clause == clause_after(old(self).clause, select),
    {
        // Bind FROM clause.
        let from: Option<u64> = match &select.from {
            Ok(from) => *from,
            Err(e) => {
                return Err(e.copy());
            },
        };
        // Bind WHERE clause.
        self.clause = Some(Clause::Where);
        let where_clause = match &select.selection {
            Some(bound) => match bound {
                Ok(e) => Some(e.copy()),
                Err(e) => {
                    return Err(e.copy());
                },
            },
            None => None,
        };
        self.clause = None;
        if let Some(e) = &where_clause {
            let return_type = e.return_type();
            if !return_type.is_boolean() {
                let mut m: String = "argument of WHERE must be boolean, not type ".to_owned();
                m.append(return_type.to_text().as_str());
                return Err(ErrorCode::InternalError(m));
            }
        }
        // Bind GROUP BY clause.
        let mut group_by: Vec<ExprImpl> = Vec::new();
        let mut i: usize = 0;
        while i < select.group_by.len()
            invariant
                i <= select.group_by@.len(),
                self.context == old(self).context,
                self.clause is None,
                where_clause == where_bound(select),
                list_error(select.group_by@, i as int) is None,
                select.from is Ok,
                where_error(select.selection) is None,
                group_by@.len() == i,
                forall|j: int|
                    0 <= j < i ==> select.group_by@[j] == Ok::<ExprImpl, ErrorCode>(#[trigger] group_by@[j]),
            decreases select.group_by@.len() - i,
        {
            match copy_bound(&select.group_by[i]) {
                Ok(e) => {
                    group_by.push(e);
                },
                Err(e) => {
                    proof {
                        assert(list_error(select.group_by@, i + 1) is Some);
                        lemma_list_error_stays(select.group_by@, i + 1, select.group_by@.len() as int);
                    }
                    return Err(e);
                },
            }
            i = i + 1;
        }
        // Bind SELECT clause.
        let (select_items, aliases) = match self.bind_project(&select.projection) {
            Ok(project) => project,
            Err(e) => {
                return Err(e);
            },
        };
        // Get index from `select_item` to find the `column_desc` in bindings,
        // and then get the `field_desc` in expr
        // If `select_item` not have index, use `alias` and `data_type` to form
        // field.
        let mut fields: Vec<Field> = Vec::new();
        let mut k: usize = 0;
        while k < select_items.len()
            invariant
                k <= select_items@.len(),
                self.context == old(self).context,
                self.clause is None,
                select_items@.len() == aliases@.len(),
                fields@.len() == k,
                select_error(self.context, select) is None,
                project_gives(
                    self.context,
                    select.projection@,
                    select.projection@.len() as int,
                    select_items@,
                    aliases@,
                ),
                all_in_scope(self.context, select_items@),
                all_have_fields(self.context, select_items@) == !lacks_field(
                    self.context,
                    select.projection@,
                    select.projection@.len() as int,
                ),
                forall|j: int| 0 <= j < k ==> has_result_field(self.context, #[trigger] select_items@[j]),
                forall|j: int|
                    0 <= j < k ==> is_result_field(
                        self.context,
                        #[trigger] select_items@[j],
                        aliases@[j],
                        fields@[j],
                    ),
            decreases select_items@.len() - k,
        {
            assert(in_scope(self.context, select_items@[k as int]));
            match self.result_field(&select_items[k], &aliases[k]) {
                Ok(field) => {
                    fields.push(field);
                },
                Err(e) => {
                    proof {
                        assert(!has_result_field(self.context, select_items@[k as int]));
                        assert(!all_have_fields(self.context, select_items@));
                    }
                    return Err(e);
                },
            }
            k = k + 1;
        }
        Ok(
            BoundSelect {
                distinct: select.distinct,
                select_items,
                aliases,
                from,
                where_clause,
                group_by,
                schema: Schema::new(fields),
            },
        )
    }

    /// The field of a result column.
    fn result_field(&self, e: &ExprImpl, alias: &Option<String>) -> (r: Result<Field, ErrorCode>)
        requires
            in_scope(self.context, *e),
        ensures
            if has_result_field(self.context, *e) {
                r matches Ok(field) && is_result_field(self.context, *e, *alias, field)
            } else {
                fails(r, ErrorView::BindError("cannot get the field of the column"@))
            },
    {
        let name = show_name(alias);
        match e.get_index() {
            Some(index) => {
                let column = match e.get_field(&self.context.columns[index].desc) {
                    Ok(column) => column,
                    Err(err) => {
                        return Err(err);
                    },
                };
                let mut sub_fields: Vec<Field> = Vec::new();
                let mut i: usize = 0;
                while i < column.field_descs.len()
                    invariant
                        i <= column.field_descs@.len(),
                        sub_fields@.len() == i,
                        forall|j: int| 0 <= j < i ==> describes(#[trigger] column.field_descs@[j], sub_fields@[j]),
                    decreases column.field_descs@.len() - i,
                {
                    sub_fields.push(column.field_descs[i].to_field());
                    i = i + 1;
                }
                Ok(
                    Field {
                        data_type: e.return_type(),
                        name,
                        sub_fields: Arc::new(sub_fields),
                        struct_type_name: column.struct_type_name,
                    },
                )
            },
            None => Ok(Field::with_name(e.return_type(), name)),
        }
    }
}

proof fn lemma_single_has(ctx: BindContext, exprs: Seq<ExprImpl>, e: ExprImpl)
    requires
        exprs == seq![e],
    ensures
        all_in_scope(ctx, exprs) == in_scope(ctx, e),
        all_have_fields(ctx, exprs) == has_result_field(ctx, e),
{
    assert(exprs[0] == e);
}

proof fn lemma_columns_have(ctx: BindContext, exprs: Seq<ExprImpl>, names: Seq<Option<String>>, picked: Seq<usize>)
    requires
        ctx.wf(),
        are_columns(exprs, names, ctx.columns@, picked),
        forall|i: int| 0 <= i < picked.len() ==> (#[trigger] picked[i]) < ctx.columns@.len(),
    ensures
        all_in_scope(ctx, exprs),
        all_have_fields(ctx, exprs),
{
    assert forall|i: int| 0 <= i < exprs.len() implies in_scope(ctx, #[trigger] exprs[i]) && has_result_field(
        ctx,
        exprs[i],
    ) by {
        assert(picked[i] < ctx.columns@.len());
        assert(ctx.columns@[picked[i] as int].index == picked[i]);
    }
}

proof fn lemma_follows_field(e: ExprImpl, binding: ColumnBinding, idents: Seq<Ident>, n: int)
    requires
        0 <= n <= idents.len(),
        fields_countable(binding.desc),
        walk(binding.desc, idents, n) is Ok,
        follows(e, binding_ref(binding), binding.desc, idents, n),
    ensures
        picked_field(e, binding.desc) == Some(walk(binding.desc, idents, n)->Ok_0),
        fields_countable(walk(binding.desc, idents, n)->Ok_0),
    decreases n,
{
    if n > 0 {
        if let ExprImpl::FunctionCall(call) = e {
            lemma_follows_field(call.inputs@[0], binding, idents, n - 1);
            let d = walk(binding.desc, idents, n - 1)->Ok_0;
            lemma_field_of_bounds(d, idents[n - 1].value@, d.field_descs@.len() as int);
            let i = field_of(d, idents[n - 1].value@)->0;
            assert(fields_countable(d.field_descs@[i]));
        }
    }
}

proof fn lemma_field_of_bounds(d: ColumnDesc, name: Seq<char>, n: int)
    requires
        0 <= n <= d.field_descs@.len(),
    ensures
        field_position(d, name, n) matches Some(i) ==> 0 <= i < n,
    decreases n,
{
    if n > 0 {
        lemma_field_of_bounds(d, name, n - 1);
    }
}

proof fn lemma_extract_bounds(ctx: BindContext, expr: &AstExpr, ids: Seq<Ident>)
    requires
        ctx.wf(),
        extract(ctx, *expr, ids) is Ok,
    ensures
        (extract(ctx, *expr, ids)->Ok_0).0 < ctx.columns@.len(),
{
    match expr {
        AstExpr::CompoundIdentifier(idents) => {
            lemma_resolve_bounds(ctx, Some(idents@[0].value@), idents@[1].value@);
        },
        AstExpr::Identifier(ident) => {
            if names_column(ctx, ident.value@) {
                assert(ctx.indexs_of@[ident.value@]@[0] < ctx.columns@.len());
            } else {
                lemma_resolve_bounds(ctx, Some(ident.value@), ids[0].value@);
            }
        },
        _ => {},
    }
}

proof fn lemma_resolve_bounds(ctx: BindContext, table: Option<Seq<char>>, column: Seq<char>)
    requires
        ctx.wf(),
        ctx.resolve(table, column) is Ok,
    ensures
        ctx.resolve(table, column)->Ok_0 < ctx.columns@.len(),
{
    let list = ctx.indexs_of@[column]@;
    match table {
        None => {
            assert(ctx.indexs_of@[column]@[0] < ctx.columns@.len());
        },
        Some(t) => {
            lemma_in_table_bounds(ctx, column, list.len() as int, t);
        },
    }
}

proof fn lemma_in_table_bounds(ctx: BindContext, column: Seq<char>, n: int, table: Seq<char>)
    requires
        ctx.wf(),
        ctx.indexs_of@.contains_key(column),
        0 <= n <= ctx.indexs_of@[column]@.len(),
    ensures
        ctx.in_table(ctx.indexs_of@[column]@, n, table) matches Some(i) ==> i < ctx.columns@.len(),
    decreases n,
{
    if n > 0 {
        lemma_in_table_bounds(ctx, column, n - 1, table);
        assert(ctx.indexs_of@[column]@[n - 1] < ctx.columns@.len());
    }
}

proof fn lemma_one_field_has(ctx: BindContext, expr: &AstExpr, ids: Seq<Ident>, e: ExprImpl, name: Option<String>)
    requires
        ctx.wf(),
        destination(ctx, *expr, ids) is Ok,
        is_one_field(e, name, ctx, *expr, ids),
    ensures
        in_scope(ctx, e),
        has_result_field(ctx, e),
{
    let (binding, rest, last) = destination(ctx, *expr, ids)->Ok_0;
    lemma_extract_bounds(ctx, expr, ids);
    let i = (extract(ctx, *expr, ids)->Ok_0).0;
    assert(ctx.columns@[i as int].index == i);
    assert(fields_countable(ctx.columns@[i as int].desc));
    lemma_follows_index(e, binding_ref(binding), binding.desc, rest, rest.len() as int);
    lemma_follows_field(e, binding, rest, rest.len() as int);
}

proof fn lemma_all_fields_have(
    ctx: BindContext,
    expr: AstExpr,
    ids: Seq<Ident>,
    exprs: Seq<ExprImpl>,
    names: Seq<Option<String>>,
)
    requires
        ctx.wf(),
        destination(ctx, expr, ids) is Ok,
        are_all_fields(exprs, names, ctx, expr, ids),
    ensures
        all_in_scope(ctx, exprs),
        all_have_fields(ctx, exprs),
        exprs.len() == (destination(ctx, expr, ids)->Ok_0).2.field_descs@.len(),
{
    let (binding, rest, last) = destination(ctx, expr, ids)->Ok_0;
    lemma_extract_bounds(ctx, &expr, ids);
    let k = (extract(ctx, expr, ids)->Ok_0).0;
    assert(ctx.columns@[k as int].index == k);
    assert(fields_countable(ctx.columns@[k as int].desc));
    let of = choose|of: ExprImpl|
        follows(of, binding_ref(binding), binding.desc, rest, rest.len() as int) && #[trigger] picks_all(
            exprs,
            of,
            last,
        );
    lemma_follows_index(of, binding_ref(binding), binding.desc, rest, rest.len() as int);
    lemma_follows_field(of, binding, rest, rest.len() as int);
    assert forall|i: int| 0 <= i < exprs.len() implies in_scope(ctx, #[trigger] exprs[i]) && has_result_field(
        ctx,
        exprs[i],
    ) by {
        assert(picks(exprs[i], of, i, last.field_descs@[i].data_type));
        assert(column_index(exprs[i]) == column_index(of));
    }
}

/// The reserved names are those that start with `_row_id`.
pub proof fn law_reserved_names(name: Seq<char>)
    ensures
        is_reserved(name) <==> name.len() >= 7 && name[0] == '_' && name[1] == 'r' && name[2] == 'o' && name[3] == 'w'
            && name[4] == '_' && name[5] == 'i' && name[6] == 'd',
{
    reveal_strlit("_row_id");
    let p = reserved_prefix();
    assert(p =~= seq!['_', 'r', 'o', 'w', '_', 'i', 'd']);
    if name.len() >= 7 {
        let start = name.subrange(0, 7);
        if start == p {
            assert(start[0] == name[0] && start[1] == name[1] && start[2] == name[2] && start[3] == name[3] && start[4]
                == name[4] && start[5] == name[5] && start[6] == name[6]);
        }
        if name[0] == '_' && name[1] == 'r' && name[2] == 'o' && name[3] == 'w' && name[4] == '_' && name[5] == 'i'
            && name[6] == 'd' {
            assert(start =~= p);
        }
    }
}

proof fn lemma_visible(columns: Seq<ColumnBinding>, n: int)
    requires
        0 <= n <= columns.len() <= usize::MAX,
    ensures
        ({
            let list = visible(columns, n);
            &&& forall|i: int, j: int| 0 <= i < j < list.len() ==> (#[trigger] list[i]) < (#[trigger] list[j])
            &&& forall|i: int| 0 <= i < list.len() ==> (#[trigger] list[i]) < n && !columns[list[i] as int].is_hidden
            &&& forall|c: usize| c < n && !(#[trigger] columns[c as int]).is_hidden ==> list.contains(c)
        }),
    decreases n,
{
    if n > 0 {
        lemma_visible(columns, n - 1);
        let before = visible(columns, n - 1);
        let list = visible(columns, n);
        assert forall|c: usize| c < n && !(#[trigger] columns[c as int]).is_hidden implies list.contains(c) by {
            if c < n - 1 {
                assert(before.contains(c));
                let k = before.index_of(c);
                assert(list[k] == c);
            } else {
                assert(list.last() == c);
            }
        }
    }
}

/// A wildcard stands for the columns that are not hidden, all of them, in their order and under
/// their names.
pub proof fn law_wildcard_gives_visible_columns(ctx: BindContext, exprs: Seq<ExprImpl>, names: Seq<Option<String>>)
    requires
        ctx.wf(),
        item_gives(ctx, SelectItem::Wildcard, exprs, names),
    ensures
        exists|list: Seq<usize>|
            {
                &&& list.len() == exprs.len()
                &&& names.len() == exprs.len()
                &&& forall|i: int, j: int| 0 <= i < j < list.len() ==> (#[trigger] list[i]) < (#[trigger] list[j])
                &&& forall|c: usize|
                    #[trigger] list.contains(c) <==> c < ctx.columns@.len() && !ctx.columns@[c as int].is_hidden
                &&& forall|i: int|
                    0 <= i < list.len() ==> {
                        &&& (#[trigger] exprs[i]) matches ExprImpl::InputRef(r)
                        &&& r.index == list[i]
                        &&& r.data_type == ctx.columns@[list[i] as int].desc.data_type
                        &&& names[i] == Some(ctx.columns@[list[i] as int].desc.name)
                    }
            },
{
    let n = ctx.columns@.len() as int;
    assert(ctx.columns.len() == n);
    lemma_visible(ctx.columns@, n);
    let list = visible(ctx.columns@, n);
    assert forall|c: usize| #[trigger] list.contains(c) <==> c < n && !ctx.columns@[c as int].is_hidden by {
        if list.contains(c) {
            let k = list.index_of(c);
            assert(list[k] == c);
        }
    }
    assert forall|i: int| 0 <= i < list.len() implies {
        &&& (#[trigger] exprs[i]) matches ExprImpl::InputRef(r)
        &&& r.index == list[i]
        &&& r.data_type == ctx.columns@[list[i] as int].desc.data_type
        &&& names[i] == Some(ctx.columns@[list[i] as int].desc.name)
    } by {
        assert(list[i] < n);
        assert(ctx.columns@[list[i] as int].index == list[i]);
        assert(names[i] == Some(ctx.columns@[list[i] as int].desc.name));
    }
}

/// A wildcard behind the name of a table stands for the columns of this table, hidden ones too, in
/// their order and under their names.
pub proof fn law_table_wildcard_gives_its_columns(
    ctx: BindContext,
    table: Vec<Ident>,
    exprs: Seq<ExprImpl>,
    names: Seq<Option<String>>,
    i: int,
)
    requires
        ctx.wf(),
        table@.len() > 0,
        ctx.range_of@.contains_key(table@.last().value@),
        item_gives(ctx, SelectItem::QualifiedWildcard(table), exprs, names),
    ensures
        ({
            let (begin, end) = ctx.range_of@[table@.last().value@];
            &&& exprs.len() == end - begin
            &&& names.len() == end - begin
            &&& 0 <= i < end - begin ==> {
                let column = ctx.columns@[begin + i];
                &&& exprs[i] == ExprImpl::InputRef(
                    crate::frontend::expr::InputRef { index: (begin + i) as usize, data_type: column.desc.data_type },
                )
                &&& names[i] == Some(column.desc.name)
            }
        }),
{
    let (begin, end) = ctx.range_of@[table@.last().value@];
    let list = index_range(begin as int, end as int);
    if 0 <= i < end - begin {
        assert(list[i] == begin + i);
        assert(ctx.columns@[begin + i].index == begin + i);
        assert(exprs[i] == binding_ref(ctx.columns@[list[i] as int]));
        assert(names[i] == Some(ctx.columns@[list[i] as int].desc.name));
    }
}

/// The item is an expression, with or without a name, but no path of fields.
pub open spec fn is_plain_item(item: SelectItem) -> bool {
    match item {
        SelectItem::UnnamedExpr(AstExpr::FieldIdentifier(_, _), _) => false,
        SelectItem::UnnamedExpr(_, _) => true,
        SelectItem::ExprWithAlias { .. } => true,
        _ => false,
    }
}

proof fn lemma_plain_width(ctx: BindContext, items: Seq<SelectItem>, n: int)
    requires
        0 <= n <= items.len(),
        forall|i: int| 0 <= i < items.len() ==> is_plain_item(#[trigger] items[i]),
    ensures
        width_of(ctx, items, n) == n,
    decreases n,
{
    if n > 0 {
        lemma_plain_width(ctx, items, n - 1);
        assert(is_plain_item(items[n - 1]));
    }
}

/// A SELECT clause of expressions gives one column for each, in their order: what the binding of
/// the expression gave, under its alias, or else under the last name that it is written with.
pub proof fn law_expressions_keep_their_order(
    ctx: BindContext,
    items: Seq<SelectItem>,
    exprs: Seq<ExprImpl>,
    names: Seq<Option<String>>,
    i: int,
)
    requires
        forall|k: int| 0 <= k < items.len() ==> is_plain_item(#[trigger] items[k]),
        project_error(ctx, items, items.len() as int) is None,
        project_gives(ctx, items, items.len() as int, exprs, names),
        0 <= i < items.len(),
    ensures
        exprs.len() == items.len(),
        names.len() == items.len(),
        match items[i] {
            SelectItem::UnnamedExpr(expr, bound) => {
                &&& bound == Ok::<ExprImpl, ErrorCode>(exprs[i])
                &&& match expr {
                    AstExpr::Identifier(ident) => names[i] == Some(ident.value),
                    AstExpr::CompoundIdentifier(idents) => idents@.len() > 0 ==> names[i] == Some(
                        idents@[idents@.len() - 1].value,
                    ),
                    _ => names[i] is None,
                }
            },
            SelectItem::ExprWithAlias { bound, alias } => bound == Ok::<ExprImpl, ErrorCode>(exprs[i]) && names[i] == Some(
                alias.value,
            ) && !is_reserved(alias.value@),
            _ => false,
        },
{
    let n = items.len() as int;
    lemma_plain_width(ctx, items, n);
    lemma_plain_width(ctx, items, i);
    lemma_plain_width(ctx, items, i + 1);
    assert(is_plain_item(items[i]));
    lemma_no_item_error(ctx, items, n, i);
    assert(item_gives(ctx, items[i], exprs.subrange(i, i + 1), names.subrange(i, i + 1)));
    assert(exprs.subrange(i, i + 1)[0] == exprs[i]);
    assert(names.subrange(i, i + 1)[0] == names[i]);
}

proof fn lemma_no_item_error(ctx: BindContext, items: Seq<SelectItem>, n: int, i: int)
    requires
        0 <= i < n <= items.len(),
        project_error(ctx, items, n) is None,
    ensures
        item_error(ctx, items[i]) is None,
    decreases n,
{
    if i < n - 1 {
        lemma_no_item_error(ctx, items, n - 1, i);
    }
}

/// A SELECT statement with an error in one of its clauses is refused; the first clause with an error
/// decides: FROM, WHERE, GROUP BY, SELECT. A condition that is not boolean is an error.
pub proof fn law_first_clause_decides_error(ctx: BindContext, select: Select)
    ensures
        select.from matches Err(e) ==> select_error(ctx, select) == Some(e@),
        select.from is Ok ==> (select.selection matches Some(Err(e)) ==> select_error(ctx, select) == Some(e@)),
        select.from is Ok ==> (select.selection matches Some(Ok(c)) ==> type_of(c) != DataType::Boolean ==> select_error(
            ctx,
            select,
        ) is Some),
        select_error(ctx, select) is None ==> {
            &&& select.from is Ok
            &&& select.selection matches Some(c) ==> c is Ok && type_of(c->Ok_0) == DataType::Boolean
            &&& forall|i: int| 0 <= i < select.group_by@.len() ==> (#[trigger] select.group_by@[i]) is Ok
            &&& forall|i: int|
                0 <= i < select.projection@.len() ==> item_error(ctx, #[trigger] select.projection@[i]) is None
        },
{
    if select_error(ctx, select) is None {
        assert forall|i: int| 0 <= i < select.group_by@.len() implies (#[trigger] select.group_by@[i]) is Ok by {
            lemma_no_list_error(select.group_by@, select.group_by@.len() as int, i);
        }
        assert forall|i: int| 0 <= i < select.projection@.len() implies item_error(
            ctx,
            #[trigger] select.projection@[i],
        ) is None by {
            lemma_no_item_error(ctx, select.projection@, select.projection@.len() as int, i);
        }
    }
}

proof fn lemma_no_list_error(list: Seq<Bound>, n: int, i: int)
    requires
        0 <= i < n <= list.len(),
        list_error(list, n) is None,
    ensures
        list[i] is Ok,
    decreases n,
{
    if i < n - 1 {
        lemma_no_list_error(list, n - 1, i);
    }
}

/// The columns of a bound SELECT statement have the types of its expressions and their names, and
/// its clauses are those of the statement.
pub proof fn law_bound_select_shows_its_columns(ctx: BindContext, select: Select, bound: BoundSelect, i: int)
    requires
        is_bound_select(ctx, select, bound),
        0 <= i < bound.select_items@.len(),
    ensures
        bound.schema@.len() == bound.select_items@.len(),
        bound.schema@[i].data_type == type_of(bound.select_items@[i]),
        bound.aliases@[i] matches Some(name) ==> bound.schema@[i].name@ == name@,
        bound.distinct == select.distinct,
        bound.where_clause is Some <==> select.selection matches Some(Ok(_)),
        bound.group_by@.len() == select.group_by@.len(),
{
    assert(is_result_field(ctx, bound.select_items@[i], bound.aliases@[i], bound.schema@[i]));
}

/// A SELECT statement that is bound has the relation, the condition and the group columns that it was given, in
/// their order, and a column without a name is shown as one.
pub proof fn law_bound_select_keeps_its_clauses(ctx: BindContext, select: Select, bound: BoundSelect, i: int)
    requires
        is_bound_select(ctx, select, bound),
    ensures
        select.from matches Ok(from) ==> bound.from == from,
        select.selection matches Some(Ok(c)) ==> bound.where_clause == Some(c),
        select.selection is None ==> bound.where_clause is None,
        0 <= i < select.group_by@.len() ==> select.group_by@[i] == Ok::<ExprImpl, ErrorCode>(bound.group_by@[i]),
        0 <= i < bound.select_items@.len() && bound.aliases@[i] is None ==> bound.schema@[i].name@ == "?column?"@,
{
    if 0 <= i < select.group_by@.len() {
        assert(select.group_by@[i] == Ok::<ExprImpl, ErrorCode>(bound.group_by@[i]));
    }
    if 0 <= i < bound.select_items@.len() {
        let e = bound.select_items@[i];
        assert(is_result_field(ctx, e, bound.aliases@[i], bound.schema@[i]));
    }
}

/// After the FROM and the WHERE clause, the first group column that is an error decides, and after all of these the
/// first item that is one. A condition that is not boolean is named by its type.
pub proof fn law_later_clauses_decide_error(ctx: BindContext, select: Select, i: int)
    requires
        select.from is Ok,
        !(select.selection matches Some(Err(_))),
    ensures
        select.selection matches Some(Ok(c)) ==> type_of(c) != DataType::Boolean ==> select_error(ctx, select) == Some(
            ErrorView::InternalError("argument of WHERE must be boolean, not type "@ + type_text(type_of(c))),
        ),
        (select.selection matches Some(Ok(c)) ==> type_of(c) == DataType::Boolean) ==> {
            &&& 0 <= i < select.group_by@.len() && (forall|k: int|
                0 <= k < i ==> (#[trigger] select.group_by@[k]) is Ok) ==> (select.group_by@[i] matches Err(e)
                ==> select_error(ctx, select) == Some(e@))
            &&& 0 <= i < select.projection@.len() && (forall|k: int|
                0 <= k < select.group_by@.len() ==> (#[trigger] select.group_by@[k]) is Ok) && (forall|k: int|
                0 <= k < i ==> item_error(ctx, #[trigger] select.projection@[k]) is None) && item_error(
                ctx,
                select.projection@[i],
            ) is Some ==> select_error(ctx, select) == item_error(ctx, select.projection@[i])
        },
{
    let groups = select.group_by@;
    let items = select.projection@;
    if select.selection matches Some(Ok(c)) ==> type_of(c) == DataType::Boolean {
        if 0 <= i < groups.len() && (forall|k: int| 0 <= k < i ==> (#[trigger] groups[k]) is Ok) && groups[i] is Err {
            lemma_list_error_first(groups, i, groups.len() as int);
        }
        if 0 <= i < items.len() && (forall|k: int| 0 <= k < groups.len() ==> (#[trigger] groups[k]) is Ok) && (forall|
            k: int|
            0 <= k < i ==> item_error(ctx, #[trigger] items[k]) is None) && item_error(ctx, items[i]) is Some {
            lemma_list_without_error(groups, groups.len() as int);
            lemma_project_error_first(ctx, items, i, items.len() as int);
        }
    }
}

proof fn lemma_list_without_error(list: Seq<Bound>, n: int)
    requires
        n <= list.len(),
        forall|k: int| 0 <= k < n ==> (#[trigger] list[k]) is Ok,
    ensures
        list_error(list, n) is None,
    decreases n,
{
    if n > 0 {
        lemma_list_without_error(list, n - 1);
        assert(list[n - 1] is Ok);
    }
}

proof fn lemma_list_error_first(list: Seq<Bound>, i: int, n: int)
    requires
        0 <= i < n <= list.len(),
        forall|k: int| 0 <= k < i ==> (#[trigger] list[k]) is Ok,
        list[i] is Err,
    ensures
        list_error(list, n) == bound_error(list[i]),
    decreases n,
{
    if i < n - 1 {
        lemma_list_error_first(list, i, n - 1);
    } else {
        lemma_list_without_error(list, i);
    }
}

proof fn lemma_items_without_error(ctx: BindContext, items: Seq<SelectItem>, n: int)
    requires
        n <= items.len(),
        forall|k: int| 0 <= k < n ==> item_error(ctx, #[trigger] items[k]) is None,
    ensures
        project_error(ctx, items, n) is None,
    decreases n,
{
    if n > 0 {
        lemma_items_without_error(ctx, items, n - 1);
        assert(item_error(ctx, items[n - 1]) is None);
    }
}

proof fn lemma_project_error_first(ctx: BindContext, items: Seq<SelectItem>, i: int, n: int)
    requires
        0 <= i < n <= items.len(),
        forall|k: int| 0 <= k < i ==> item_error(ctx, #[trigger] items[k]) is None,
        item_error(ctx, items[i]) is Some,
    ensures
        project_error(ctx, items, n) == item_error(ctx, items[i]),
    decreases n,
{
    if i < n - 1 {
        lemma_project_error_first(ctx, items, i, n - 1);
    } else {
        lemma_items_without_error(ctx, items, i);
    }
}

/// Which items of a SELECT clause are errors: an expression that could not be bound, a name that is reserved, and the
/// columns of a table that is not there. The wildcard never is.
pub proof fn law_errors_of_items(ctx: BindContext, bound: Bound, alias: Ident, table: Vec<Ident>, ident: Ident)
    requires
        table@.len() > 0,
    ensures
        bound matches Err(e) ==> item_error(ctx, SelectItem::UnnamedExpr(AstExpr::Identifier(ident), bound)) == Some(e@),
        bound is Ok ==> item_error(ctx, SelectItem::UnnamedExpr(AstExpr::Identifier(ident), bound)) is None,
        is_reserved(alias.value@) ==> item_error(ctx, (SelectItem::ExprWithAlias { bound, alias })) == Some(
            ErrorView::InternalError("column name prefixed with \"_row_id\" are reserved word."@),
        ),
        !is_reserved(alias.value@) ==> (bound matches Err(e) ==> item_error(
            ctx,
            (SelectItem::ExprWithAlias { bound, alias }),
        ) == Some(e@)),
        !is_reserved(alias.value@) && bound is Ok ==> item_error(ctx, (SelectItem::ExprWithAlias { bound, alias })) is None,
        ctx.range_of@.contains_key(table@[table@.len() - 1].value@) ==> item_error(
            ctx,
            SelectItem::QualifiedWildcard(table),
        ) is None,
        !ctx.range_of@.contains_key(table@[table@.len() - 1].value@) ==> item_error(
            ctx,
            SelectItem::QualifiedWildcard(table),
        ) == Some(ErrorView::ItemNotFound("relation \""@ + table@[table@.len() - 1].value@ + "\""@)),
        item_error(ctx, SelectItem::Wildcard) is None,
{
}

/// The binder is left in the WHERE clause exactly if that could not be bound, and otherwise in no clause, unless the
/// relation could not be bound.
pub proof fn law_clause_after_binding(before: Option<Clause>, select: Select)
    ensures
        select.from is Err ==> clause_after(before, select) == before,
        select.from is Ok ==> (clause_after(before, select) == Some(Clause::Where) <==> select.selection matches Some(Err(_))),
        select.from is Ok && !(select.selection matches Some(Err(_))) ==> clause_after(before, select) is None,
{
}

} // verus!

//! Binding names to columns.

use vstd::prelude::*;
use vstd::string::StringExecFns;

use crate::catalog::{ColumnDesc, DataType};
use crate::common::error::{fails, ErrorCode, ErrorView};
use crate::common::string_map::StringMap;
use crate::common::text::{quoted, quoted_text};
use crate::frontend::expr::{ExprImpl, ExprType, FunctionCall, InputRef, Literal, LiteralValue};

verus! {

/// The quotes around an identifier.
#[derive(Clone, Copy, Debug, PartialEq, Eq, Structural)]
pub enum QuoteStyle {
    Bare,
    Double,
    Backtick,
    Bracket,
}

/// An identifier.
#[derive(Debug)]
pub struct Ident {
    pub value: String,
    pub quote_style: QuoteStyle,
}

impl Ident {
    /// A copy of the identifier.
    pub fn copy(&self) -> (r: Ident)
        ensures
            r == *self,
    {
        Ident { value: self.value.clone(), quote_style: self.quote_style }
    }
}

/// The quotes of an identifier as text.
pub open spec fn quote_text(q: QuoteStyle) -> Seq<char> {
    match q {
        QuoteStyle::Bare => "None"@,
        QuoteStyle::Double => "Some('\"')"@,
        QuoteStyle::Backtick => "Some('`')"@,
        QuoteStyle::Bracket => "Some('[')"@,
    }
}

/// An identifier as text.
pub open spec fn ident_text(ident: Ident) -> Seq<char> {
    "Ident { value: "@ + quoted(ident.value@) + ", quote_style: "@ + quote_text(ident.quote_style) + " }"@
}

/// The first `n` identifiers as text, with commas between them.
pub open spec fn idents_text(idents: Seq<Ident>, n: int) -> Seq<char>
    decreases n,
{
    if n <= 0 {
        Seq::empty()
    } else if n == 1 {
        ident_text(idents[0])
    } else {
        idents_text(idents, n - 1) + ", "@ + ident_text(idents[n - 1])
    }
}

/// The identifier as text.
fn show_ident(ident: &Ident) -> (r: String)
    ensures
        r@ == ident_text(*ident),
{
    let mut r: String = "Ident { value: ".to_owned();
    r.append(quoted_text(ident.value.as_str()).as_str());
    r.append(", quote_style: ");
    let quote: &str = match ident.quote_style {
        QuoteStyle::Bare => "None",
        QuoteStyle::Double => "Some('\"')",
        QuoteStyle::Backtick => "Some('`')",
        QuoteStyle::Bracket => "Some('[')",
    };
    r.append(quote);
    r.append(" }");
    r
}

/// The identifiers as text, with commas between them.
fn show_idents(idents: &Vec<Ident>) -> (r: String)
    ensures
        r@ == idents_text(idents@, idents@.len() as int),
{
    let mut r: String = String::new();
    let mut i: usize = 0;
    proof {
        assert(r@ =~= idents_text(idents@, 0));
    }
    while i < idents.len()
        invariant
            i <= idents@.len(),
            r@ == idents_text(idents@, i as int),
        decreases idents@.len() - i,
    {
        let ghost before = r@;
        if i > 0 {
            r.append(", ");
        }
        r.append(show_ident(&idents[i]).as_str());
        i = i + 1;
        proof {
            if i == 1 {
                assert(before =~= Seq::empty());
                assert(r@ =~= ident_text(idents@[0]));
            }
        }
    }
    r
}

/// The identifiers from position `from` on.
fn idents_from(idents: &Vec<Ident>, from: usize) -> (r: Vec<Ident>)
    requires
        from <= idents@.len(),
    ensures
        r@ == idents@.subrange(from as int, idents@.len() as int),
{
    let mut r: Vec<Ident> = Vec::new();
    let mut i: usize = from;
    proof {
        assert(r@ =~= idents@.subrange(from as int, from as int));
    }
    while i < idents.len()
        invariant
            from <= i <= idents@.len(),
            r@ == idents@.subrange(from as int, i as int),
        decreases idents@.len() - i,
    {
        r.push(idents[i].copy());
        i = i + 1;
        proof {
            assert(r@ =~= idents@.subrange(from as int, i as int));
        }
    }
    r
}

/// An expression as it was written, as far as its names matter.
#[derive(Debug)]
pub enum AstExpr {
    Identifier(Ident),
    CompoundIdentifier(Vec<Ident>),
    FieldIdentifier(Box<AstExpr>, Vec<Ident>),
    Other,
}

/// What the binding of an expression gave.
pub type Bound = Result<ExprImpl, ErrorCode>;

/// An item of a SELECT clause; an expression comes with what its binding gave.
#[derive(Debug)]
pub enum SelectItem {
    UnnamedExpr(AstExpr, Bound),
    ExprWithAlias { bound: Bound, alias: Ident },
    QualifiedWildcard(Vec<Ident>),
    ExprQualifiedWildcard(AstExpr, Vec<Ident>),
    Wildcard,
}

/// A column that can be named.
#[derive(Debug)]
pub struct ColumnBinding {
    pub table_name: String,
    pub index: usize,
    pub is_hidden: bool,
    pub desc: ColumnDesc,
}

/// The position of each field fits a signed 32-bit number.
pub open spec fn fields_countable(desc: ColumnDesc) -> bool
    decreases desc,
{
    &&& desc.field_descs@.len() <= i32::MAX
    &&& forall|i: int| 0 <= i < desc.field_descs@.len() ==> fields_countable(#[trigger] desc.field_descs@[i])
}

/// The columns that can be named.
#[derive(Debug)]
pub struct BindContext {
    /// Columns of all tables.
    pub columns: Vec<ColumnBinding>,
    /// Mapping column name to the indexs of columns.
    pub indexs_of: StringMap<Vec<usize>>,
    /// Mapping table name to [begin, end) of its columns.
    pub range_of: StringMap<(usize, usize)>,
}

impl BindContext {
    /// All positions lie within the columns, and each column knows its own.
    pub open spec fn wf(&self) -> bool {
        &&& self.indexs_of.wf()
        &&& self.range_of.wf()
        &&& forall|name: Seq<char>| #[trigger]
            self.indexs_of@.contains_key(name) ==> self.indexs_of@[name]@.len() > 0
        &&& forall|name: Seq<char>, i: int|
            self.indexs_of@.contains_key(name) && 0 <= i < self.indexs_of@[name]@.len()
                ==> (#[trigger] self.indexs_of@[name]@[i]) < self.columns@.len()
        &&& forall|i: int| 0 <= i < self.columns@.len() ==> (#[trigger] self.columns@[i]).index == i
        &&& forall|i: int| 0 <= i < self.columns@.len() ==> fields_countable((#[trigger] self.columns@[i]).desc)
        &&& forall|name: Seq<char>| #[trigger]
            self.range_of@.contains_key(name) ==> self.range_of@[name].0 <= self.range_of@[name].1
                <= self.columns@.len()
    }

    /// Which of the first `n` positions of the list is the first that holds a column of the table.
    pub open spec fn in_table(&self, list: Seq<usize>, n: int, table: Seq<char>) -> Option<usize>
        decreases n,
    {
        if n <= 0 {
            None
        } else {
            match self.in_table(list, n - 1, table) {
                Some(i) => Some(i),
                None => if self.columns@[list[n - 1] as int].table_name@ == table {
                    Some(list[n - 1])
                } else {
                    None
                },
            }
        }
    }

    /// The column that a name stands for, with or without the name of its table.
    pub open spec fn resolve(&self, table: Option<Seq<char>>, column: Seq<char>) -> Result<usize, ErrorView> {
        if !self.indexs_of@.contains_key(column) {
            Err(ErrorView::ItemNotFound("Invalid column: "@ + column))
        } else {
            let list = self.indexs_of@[column]@;
            match table {
                None => if list.len() > 1 {
                    Err(ErrorView::InternalError("Ambiguous column name"@))
                } else {
                    Ok(list[0])
                },
                Some(t) => match self.in_table(list, list.len() as int, t) {
                    Some(i) => Ok(i),
                    None => Err(
                        ErrorView::ItemNotFound("missing FROM-clause entry for table \""@ + t + "\""@),
                    ),
                },
            }
        }
    }

    /// The column that a name stands for, with or without the name of its table.
    pub fn get_column_binding_index(&self, table_name: Option<&str>, column_name: &str) -> (r: Result<usize, ErrorCode>)
        requires
            self.wf(),
        ensures
            match self.resolve(
                match table_name {
                    Some(t) => Some(t@),
                    None => None,
                },
                column_name@,
            ) {
                Ok(i) => r == Ok::<usize, ErrorCode>(i) && i < self.columns@.len(),
                Err(e) => fails(r, e),
            },
    {
        let indexes = match self.indexs_of.get(column_name) {
            Some(indexes) => indexes,
            None => {
                let mut m: String = "Invalid column: ".to_owned();
                m.append(column_name);
                return Err(ErrorCode::ItemNotFound(m));
            },
        };
        let ghost list = indexes@;
        proof {
            assert(self.indexs_of@[column_name@]@ == list);
            assert forall|i: int| 0 <= i < list.len() implies (#[trigger] list[i]) < self.columns@.len() by {
                assert(self.indexs_of@[column_name@]@[i] < self.columns@.len());
            }
        }
        match table_name {
            None => {
                if indexes.len() > 1 {
                    Err(ErrorCode::InternalError("Ambiguous column name".to_owned()))
                } else {
                    Ok(indexes[0])
                }
            },
            Some(table) => {
                let mut i: usize = 0;
                while i < indexes.len()
                    invariant
                        i <= list.len(),
                        list == indexes@,
                        forall|j: int| 0 <= j < list.len() ==> (#[trigger] list[j]) < self.columns@.len(),
                        self.in_table(list, i as int, table@) is None,
                        self.indexs_of@.contains_key(column_name@),
                        self.indexs_of@[column_name@]@ == list,
                        table_name == Some(table),
                    decreases list.len() - i,
                {
                    let index: usize = indexes[i];
                    assert(list[i as int] < self.columns@.len());
                    if same_text(self.columns[index].table_name.as_str(), table) {
                        proof {
                            assert(self.in_table(list, i + 1, table@) == Some(index));
                            self.lemma_in_table_stays(list, i + 1, list.len() as int, table@);
                        }
                        return Ok(index);
                    }
                    i = i + 1;
                }
                let mut m: String = "missing FROM-clause entry for table \"".to_owned();
                m.append(table);
                m.append("\"");
                Err(ErrorCode::ItemNotFound(m))
            },
        }
    }

    proof fn lemma_in_table_stays(&self, list: Seq<usize>, i: int, n: int, table: Seq<char>)
        requires
            0 <= i <= n <= list.len(),
            self.in_table(list, i, table) is Some,
        ensures
            self.in_table(list, n, table) == self.in_table(list, i, table),
        decreases n,
    {
        if i < n {
            self.lemma_in_table_stays(list, i, n - 1, table);
        }
    }
}

/// Whether two texts are the same.
pub(crate) fn same_text(a: &str, b: &str) -> (r: bool)
    ensures
        r == (a@ == b@),
{
    a.to_owned() == b.to_owned()
}

/// The column that an expression names, and how many of the identifiers behind
/// it belong to that name.
pub open spec fn extract(ctx: BindContext, expr: AstExpr, ids: Seq<Ident>) -> Result<(usize, int), ErrorView> {
    match expr {
        // For CompoundIdentifier, we will use first ident as table name and second ident as
        // column name to get `column_desc`.
        AstExpr::CompoundIdentifier(idents) => if idents@.len() == 2 {
            match ctx.resolve(Some(idents@[0].value@), idents@[1].value@) {
                Ok(i) => Ok((i, 0)),
                Err(e) => Err(e),
            }
        } else {
            Err(
                ErrorView::InternalError(
                    "Too many idents: ["@ + idents_text(idents@, idents@.len() as int) + "]"@,
                ),
            )
        },
        // For Identifier, we will first use the ident as
        // column name to get `column_desc`.
        // If column name not exist, we will use the ident as table name.
        // The reason is that in pgsql, for table name v3 have a column name v3 which
        // have a field name v3. Select (v3).v3 from v3 will return the field value instead
        // of column value.
        AstExpr::Identifier(ident) => if names_column(ctx, ident.value@) {
            Ok((ctx.indexs_of@[ident.value@]@[0], 0))
        } else {
            match ctx.resolve(Some(ident.value@), ids[0].value@) {
                Ok(i) => Ok((i, 1)),
                Err(e) => Err(e),
            }
        },
        _ => Err(ErrorView::InternalError(Seq::empty())),
    }
}

/// The name stands for just one column.
pub open spec fn names_column(ctx: BindContext, name: Seq<char>) -> bool {
    ctx.indexs_of@.contains_key(name) && ctx.indexs_of@[name]@.len() == 1
}

/// The expression is a name, with a further identifier behind it where one is needed.
pub open spec fn can_extract(ctx: BindContext, expr: AstExpr, ids: Seq<Ident>) -> bool {
    match expr {
        AstExpr::CompoundIdentifier(_) => true,
        AstExpr::Identifier(ident) => names_column(ctx, ident.value@) || ids.len() > 0,
        _ => false,
    }
}

/// Which of the first `n` fields of the column is the first with the given name.
pub open spec fn field_position(desc: ColumnDesc, name: Seq<char>, n: int) -> Option<int>
    decreases n,
{
    if n <= 0 {
        None
    } else {
        match field_position(desc, name, n - 1) {
            Some(i) => Some(i),
            None => if desc.field_descs@[n - 1].name@ == name {
                Some(n - 1)
            } else {
                None
            },
        }
    }
}

/// The position of the field with the given name.
pub open spec fn field_of(desc: ColumnDesc, name: Seq<char>) -> Option<int> {
    field_position(desc, name, desc.field_descs@.len() as int)
}

/// The error of a field that does not exist.
pub open spec fn no_field(name: Seq<char>) -> ErrorView {
    ErrorView::ItemNotFound("Invalid field name: "@ + name)
}

/// The description that `n` field names lead to, from that of a column.
pub open spec fn walk(desc: ColumnDesc, idents: Seq<Ident>, n: int) -> Result<ColumnDesc, ErrorView>
    decreases n,
{
    if n <= 0 {
        Ok(desc)
    } else {
        match walk(desc, idents, n - 1) {
            Ok(d) => match field_of(d, idents[n - 1].value@) {
                Some(i) => Ok(d.field_descs@[i]),
                None => Err(no_field(idents[n - 1].value@)),
            },
            Err(e) => Err(e),
        }
    }
}

/// `e` picks the field at position `i`, of the given type, out of `of`.
pub open spec fn picks(e: ExprImpl, of: ExprImpl, i: int, data_type: DataType) -> bool {
    &&& e matches ExprImpl::FunctionCall(call)
    &&& call.func_type == ExprType::Field
    &&& call.return_type == data_type
    &&& call.inputs@.len() == 2
    &&& call.inputs@[0] == of
    &&& call.inputs@[1] == ExprImpl::Literal(
        Literal { data: LiteralValue::Int32(i as i32), data_type: DataType::Int32 },
    )
}

/// `e` picks, one within the other, the fields out of `expr` to which the first
/// `n` names lead.
pub open spec fn follows(e: ExprImpl, expr: ExprImpl, desc: ColumnDesc, idents: Seq<Ident>, n: int) -> bool
    decreases n,
{
    if n <= 0 {
        e == expr
    } else {
        let d = walk(desc, idents, n - 1)->Ok_0;
        let i = field_of(d, idents[n - 1].value@)->0;
        &&& e matches ExprImpl::FunctionCall(call)
        &&& picks(e, call.inputs@[0], i, d.field_descs@[i].data_type)
        &&& follows(call.inputs@[0], expr, desc, idents, n - 1)
    }
}

proof fn lemma_walk_stops(desc: ColumnDesc, idents: Seq<Ident>, i: int, n: int)
    requires
        0 <= i <= n <= idents.len(),
        walk(desc, idents, i) is Err,
    ensures
        walk(desc, idents, n) == walk(desc, idents, i),
    decreases n,
{
    if i < n {
        lemma_walk_stops(desc, idents, i, n - 1);
    }
}

proof fn lemma_field_stays(desc: ColumnDesc, name: Seq<char>, i: int, n: int)
    requires
        0 <= i <= n <= desc.field_descs@.len(),
        field_position(desc, name, i) is Some,
    ensures
        field_position(desc, name, n) == field_position(desc, name, i),
    decreases n,
{
    if i < n {
        lemma_field_stays(desc, name, i, n - 1);
    }
}

impl ColumnDesc {
    /// The field with the given name, and its position.
    pub fn field(&self, name: &str) -> (r: Result<(ColumnDesc, usize), ErrorCode>)
        ensures
            match field_of(*self, name@) {
                Some(i) => {
                    &&& 0 <= i < self.field_descs@.len()
                    &&& r matches Ok((desc, position)) && desc == self.field_descs@[i] && position == i
                },
                None => fails(r, no_field(name@)),
            },
    {
        let mut i: usize = 0;
        while i < self.field_descs.len()
            invariant
                i <= self.field_descs@.len(),
                field_position(*self, name@, i as int) is None,
            decreases self.field_descs@.len() - i,
        {
            if same_text(self.field_descs[i].name.as_str(), name) {
                proof {
                    assert(field_position(*self, name@, i + 1) == Some(i as int));
                    lemma_field_stays(*self, name@, i + 1, self.field_descs@.len() as int);
                }
                return Ok((self.field_descs[i].copy(), i));
            }
            i = i + 1;
        }
        let mut m: String = "Invalid field name: ".to_owned();
        m.append(name);
        Err(ErrorCode::ItemNotFound(m))
    }
}

/// An expression that picks a field.
fn pick(of: ExprImpl, i: usize, data_type: DataType) -> (r: ExprImpl)
    ensures
        picks(r, of, i as int, data_type),
{
    let mut inputs: Vec<ExprImpl> = Vec::new();
    inputs.push(of);
    inputs.push(ExprImpl::Literal(Literal { data: LiteralValue::Int32(i as i32), data_type: DataType::Int32 }));
    ExprImpl::FunctionCall(FunctionCall::new_with_return_type(ExprType::Field, inputs, data_type))
}

/// What a wildcard behind an expression gives: all fields of what it contains.
pub open spec fn picks_all(exprs: Seq<ExprImpl>, of: ExprImpl, desc: ColumnDesc) -> bool {
    &&& exprs.len() == desc.field_descs@.len()
    &&& forall|i: int|
        0 <= i < exprs.len() ==> picks(#[trigger] exprs[i], of, i, desc.field_descs@[i].data_type)
}

/// The error of a wildcard behind an atomic value.
pub open spec fn not_nested(name: Seq<char>) -> ErrorView {
    ErrorView::BindError("The field "@ + name + " is not the nested column"@)
}

/// A column as an expression.
pub open spec fn binding_ref(c: ColumnBinding) -> ExprImpl {
    ExprImpl::InputRef(InputRef { index: c.index, data_type: c.desc.data_type })
}

/// A clause of a statement.
#[derive(Clone, Copy, Debug, PartialEq, Eq, Structural)]
pub enum Clause {
    Where,
}

/// Binds names to columns.
pub struct Binder {
    pub context: BindContext,
    /// The clause that is being bound.
    pub clause: Option<Clause>,
}

impl Binder {
    /// This function will accept three expr type: `CompoundIdentifier`,`Identifier`,`Cast(Todo)`
    /// We will extract ident from `expr` to get the `column_binding`.
    /// Will return the position of the `column_binding` and field `idents`.
    pub fn extract_binding_and_idents(&self, expr: &AstExpr, ids: &Vec<Ident>) -> (r: Result<
        (usize, Vec<Ident>),
        ErrorCode,
    >)
        requires
            self.context.wf(),
            can_extract(self.context, *expr, ids@),
        ensures
            match extract(self.context, *expr, ids@) {
                Ok((i, n)) => {
                    &&& i < self.context.columns@.len()
                    &&& 0 <= n <= ids@.len()
                    &&& r matches Ok((index, rest)) && index == i && rest@ == ids@.subrange(n, ids@.len() as int)
                },
                Err(e) => fails(r, e),
            },
    {
        match expr {
            AstExpr::CompoundIdentifier(idents) => {
                if idents.len() != 2 {
                    let mut m: String = "Too many idents: [".to_owned();
                    m.append(show_idents(idents).as_str());
                    m.append("]");
                    return Err(ErrorCode::InternalError(m));
                }
                match self.context.get_column_binding_index(
                    Some(idents[0].value.as_str()),
                    idents[1].value.as_str(),
                ) {
                    Ok(index) => Ok((index, idents_from(ids, 0))),
                    Err(e) => Err(e),
                }
            },
            AstExpr::Identifier(ident) => {
                if let Some(indexes) = self.context.indexs_of.get(ident.value.as_str()) {
                    if indexes.len() == 1 {
                        return match self.context.get_column_binding_index(None, ident.value.as_str()) {
                            Ok(index) => Ok((index, idents_from(ids, 0))),
                            Err(e) => Err(e),
                        };
                    }
                }
                match self.context.get_column_binding_index(
                    Some(ident.value.as_str()),
                    ids[0].value.as_str(),
                ) {
                    Ok(index) => Ok((index, idents_from(ids, 1))),
                    Err(e) => Err(e),
                }
            },
            _ => {
                proof {
                    assert(false);
                }
                Ok((0, Vec::new()))
            },
        }
    }

    /// Bind field in recursive way, each field in the binding path will store as `literal` in
    /// exprs and return.
    /// `col` describes what `expr` contains.
    pub fn bind_field(expr: ExprImpl, idents: &Vec<Ident>, desc: ColumnDesc, wildcard: bool) -> (r: Result<
        (Vec<ExprImpl>, ColumnDesc),
        ErrorCode,
    >)
        ensures
            is_bound_field(r, expr, idents@, desc, wildcard),
    {
        let ghost n = idents@.len() as int;
        let mut current = expr;
        let mut current_desc = desc;
        let mut i: usize = 0;
        while i < idents.len()
            invariant
                i <= n,
                n == idents@.len(),
                walk(desc, idents@, i as int) == Ok::<ColumnDesc, ErrorView>(current_desc),
                follows(current, expr, desc, idents@, i as int),
            decreases n - i,
        {
            match current_desc.field(idents[i].value.as_str()) {
                Ok((field, field_index)) => {
                    let ghost before = current;
                    let data_type = field.data_type.copy();
                    current = pick(current, field_index, data_type);
                    current_desc = field;
                    proof {
                        assert(current matches ExprImpl::FunctionCall(call) && call.inputs@[0] == before);
                        assert(follows(current, expr, desc, idents@, i + 1));
                    }
                },
                Err(e) => {
                    proof {
                        assert(walk(desc, idents@, i + 1) is Err);
                        lemma_walk_stops(desc, idents@, i + 1, n);
                    }
                    return Err(e);
                },
            }
            i = i + 1;
        }
        if wildcard {
            Binder::bind_wildcard_field(current, current_desc)
        } else {
            let mut exprs: Vec<ExprImpl> = Vec::new();
            exprs.push(current);
            Ok((exprs, current_desc))
        }
    }

    /// Will fail if it's an atomic value.
    /// Rewrite (expr:Struct).* to [Field(expr, 0), Field(expr, 1), ... Field(expr, n)].
    pub fn bind_wildcard_field(expr: ExprImpl, desc: ColumnDesc) -> (r: Result<(Vec<ExprImpl>, ColumnDesc), ErrorCode>)
        ensures
            if desc.field_descs@.len() == 0 {
                fails(r, not_nested(desc.name@))
            } else {
                r matches Ok((exprs, d)) && d == desc && picks_all(exprs@, expr, desc)
            },
    {
        if desc.field_descs.len() == 0 {
            let mut m: String = "The field ".to_owned();
            m.append(desc.name.as_str());
            m.append(" is not the nested column");
            return Err(ErrorCode::BindError(m));
        }
        let mut exprs: Vec<ExprImpl> = Vec::new();
        let mut i: usize = 0;
        while i < desc.field_descs.len()
            invariant
                i <= desc.field_descs@.len(),
                exprs@.len() == i,
                forall|j: int| 0 <= j < i ==> picks(#[trigger] exprs@[j], expr, j, desc.field_descs@[j].data_type),
            decreases desc.field_descs@.len() - i,
        {
            exprs.push(pick(expr.copy(), i, desc.field_descs[i].data_type.copy()));
            i = i + 1;
        }
        Ok((exprs, desc))
    }

    /// References to the columns at the given positions, and the names of these.
    pub fn bind_columns_iter(columns: &Vec<ColumnBinding>, picked: &Vec<usize>) -> (r: (
        Vec<ExprImpl>,
        Vec<Option<String>>,
    ))
        requires
            forall|i: int| 0 <= i < picked@.len() ==> (#[trigger] picked@[i]) < columns@.len(),
        ensures
            are_columns(r.0@, r.1@, columns@, picked@),
    {
        let mut exprs: Vec<ExprImpl> = Vec::new();
        let mut names: Vec<Option<String>> = Vec::new();
        let mut i: usize = 0;
        while i < picked.len()
            invariant
                i <= picked@.len(),
                forall|j: int| 0 <= j < picked@.len() ==> (#[trigger] picked@[j]) < columns@.len(),
                exprs@.len() == i,
                names@.len() == i,
                forall|j: int| 0 <= j < i ==> #[trigger] exprs@[j] == binding_ref(columns@[picked@[j] as int]),
                forall|j: int| 0 <= j < i ==> #[trigger] names@[j] == Some(columns@[picked@[j] as int].desc.name),
            decreases picked@.len() - i,
        {
            let c = &columns[picked[i]];
            exprs.push(ExprImpl::InputRef(InputRef::new(c.index, c.desc.data_type.copy())));
            names.push(Some(c.desc.name.clone()));
            i = i + 1;
        }
        (exprs, names)
    }

    /// Bind wildcard field column, e.g. `(table.v1).*`.
    /// Will return vector of Field type `FunctionCall` and alias.
    pub fn bind_wildcard_field_column(&self, expr: &AstExpr, ids: &Vec<Ident>) -> (r: Result<
        (Vec<ExprImpl>, Vec<Option<String>>),
        ErrorCode,
    >)
        requires
            self.context.wf(),
            can_extract(self.context, *expr, ids@),
        ensures
            match wildcard_error(self.context, *expr, ids@) {
                Some(e) => fails(r, e),
                None => r matches Ok((exprs, names)) && are_all_fields(
                    exprs@,
                    names@,
                    self.context,
                    *expr,
                    ids@,
                ),
            },
    {
        let (index, idents) = match self.extract_binding_and_idents(expr, ids) {
            Ok(found) => found,
            Err(e) => {
                return Err(e);
            },
        };
        let binding = &self.context.columns[index];
        let input_ref = ExprImpl::InputRef(InputRef::new(binding.index, binding.desc.data_type.copy()));
        let (exprs, column) = match Binder::bind_field(input_ref, &idents, binding.desc.copy(), true) {
            Ok(bound) => bound,
            Err(e) => {
                return Err(e);
            },
        };
        let mut names: Vec<Option<String>> = Vec::new();
        let mut i: usize = 0;
        while i < column.field_descs.len()
            invariant
                i <= column.field_descs@.len(),
                names@.len() == i,
                forall|j: int| 0 <= j < i ==> #[trigger] names@[j] == Some(column.field_descs@[j].name),
            decreases column.field_descs@.len() - i,
        {
            names.push(Some(column.field_descs[i].name.clone()));
            i = i + 1;
        }
        Ok((exprs, names))
    }

    /// Bind single field column, e.g. `(table.v1).v2`.
    /// Will return Field type `FunctionCall` and alias.
    pub fn bind_single_field_column(&self, expr: &AstExpr, ids: &Vec<Ident>) -> (r: Result<
        (ExprImpl, Option<String>),
        ErrorCode,
    >)
        requires
            self.context.wf(),
            can_extract(self.context, *expr, ids@),
        ensures
            match single_error(self.context, *expr, ids@) {
                Some(e) => fails(r, e),
                None => r matches Ok((e, name)) && is_one_field(e, name, self.context, *expr, ids@),
            },
    {
        let (index, idents) = match self.extract_binding_and_idents(expr, ids) {
            Ok(found) => found,
            Err(e) => {
                return Err(e);
            },
        };
        let binding = &self.context.columns[index];
        let input_ref = ExprImpl::InputRef(InputRef::new(binding.index, binding.desc.data_type.copy()));
        match Binder::bind_field(input_ref, &idents, binding.desc.copy(), false) {
            Ok((exprs, column)) => Ok((exprs[0].copy(), Some(column.name))),
            Err(e) => Err(e),
        }
    }
}

/// What the binding of a path of fields gives.
pub open spec fn is_bound_field(
    r: Result<(Vec<ExprImpl>, ColumnDesc), ErrorCode>,
    expr: ExprImpl,
    idents: Seq<Ident>,
    desc: ColumnDesc,
    wildcard: bool,
) -> bool {
    let n = idents.len() as int;
    match walk(desc, idents, n) {
        Err(e) => fails(r, e),
        Ok(last) => if !wildcard {
            r matches Ok((exprs, d)) && d == last && exprs@.len() == 1 && follows(exprs@[0], expr, desc, idents, n)
        } else if last.field_descs@.len() == 0 {
            fails(r, not_nested(last.name@))
        } else {
            r matches Ok((exprs, d)) && d == last && exists|of: ExprImpl|
                follows(of, expr, desc, idents, n) && #[trigger] picks_all(exprs@, of, last)
        },
    }
}

/// References to columns, and their names.
pub open spec fn are_columns(
    exprs: Seq<ExprImpl>,
    names: Seq<Option<String>>,
    columns: Seq<ColumnBinding>,
    picked: Seq<usize>,
) -> bool {
    &&& exprs.len() == picked.len()
    &&& names.len() == picked.len()
    &&& forall|i: int| 0 <= i < picked.len() ==> #[trigger] exprs[i] == binding_ref(columns[picked[i] as int])
    &&& forall|i: int|
        0 <= i < picked.len() ==> #[trigger] names[i] == Some(columns[picked[i] as int].desc.name)
}

/// Where a path of fields leads: the column, and the description of the last field.
pub open spec fn destination(ctx: BindContext, expr: AstExpr, ids: Seq<Ident>) -> Result<(ColumnBinding, Seq<Ident>, ColumnDesc), ErrorView> {
    match extract(ctx, expr, ids) {
        Err(e) => Err(e),
        Ok((i, n)) => {
            let binding = ctx.columns@[i as int];
            let rest = ids.subrange(n, ids.len() as int);
            match walk(binding.desc, rest, rest.len() as int) {
                Ok(last) => Ok((binding, rest, last)),
                Err(e) => Err(e),
            }
        },
    }
}

/// The error of a single field.
pub open spec fn single_error(ctx: BindContext, expr: AstExpr, ids: Seq<Ident>) -> Option<ErrorView> {
    match destination(ctx, expr, ids) {
        Err(e) => Some(e),
        Ok(_) => None,
    }
}

/// The error of a wildcard behind a path of fields.
pub open spec fn wildcard_error(ctx: BindContext, expr: AstExpr, ids: Seq<Ident>) -> Option<ErrorView> {
    match destination(ctx, expr, ids) {
        Err(e) => Some(e),
        Ok((_, _, last)) => if last.field_descs@.len() == 0 {
            Some(not_nested(last.name@))
        } else {
            None
        },
    }
}

/// A single field and its name.
pub open spec fn is_one_field(e: ExprImpl, name: Option<String>, ctx: BindContext, expr: AstExpr, ids: Seq<Ident>) -> bool {
    let (binding, rest, last) = destination(ctx, expr, ids)->Ok_0;
    &&& follows(e, binding_ref(binding), binding.desc, rest, rest.len() as int)
    &&& name == Some(last.name)
}

/// All fields to which a path of fields leads, and their names.
pub open spec fn are_all_fields(
    exprs: Seq<ExprImpl>,
    names: Seq<Option<String>>,
    ctx: BindContext,
    expr: AstExpr,
    ids: Seq<Ident>,
) -> bool {
    let (binding, rest, last) = destination(ctx, expr, ids)->Ok_0;
    &&& exists|of: ExprImpl|
        follows(of, binding_ref(binding), binding.desc, rest, rest.len() as int) && #[trigger] picks_all(exprs, of, last)
    &&& names.len() == last.field_descs@.len()
    &&& forall|i: int| 0 <= i < names.len() ==> #[trigger] names[i] == Some(last.field_descs@[i].name)
}

proof fn lemma_in_table(ctx: BindContext, list: Seq<usize>, n: int, table: Seq<char>)
    requires
        0 <= n <= list.len(),
    ensures
        match ctx.in_table(list, n, table) {
            Some(i) => exists|k: int|
                0 <= k < n && #[trigger] list[k] == i && ctx.columns@[i as int].table_name@ == table && forall|j: int|
                    0 <= j < k ==> ctx.columns@[(#[trigger] list[j]) as int].table_name@ != table,
            None => forall|j: int| 0 <= j < n ==> ctx.columns@[(#[trigger] list[j]) as int].table_name@ != table,
        },
    decreases n,
{
    if n > 0 {
        lemma_in_table(ctx, list, n - 1, table);
        if ctx.in_table(list, n - 1, table) is None && ctx.columns@[list[n - 1] as int].table_name@ == table {
            let k = n - 1;
            assert(list[k] == list[n - 1]);
        }
    }
}

/// A name with that of its table stands for the first column of this name in this table; without
/// it, the name must be that of just one column. In all other cases it stands for none.
pub proof fn law_name_stands_for_its_column(ctx: BindContext, table: Option<Seq<char>>, column: Seq<char>)
    requires
        ctx.wf(),
    ensures
        match ctx.resolve(table, column) {
            Ok(i) => {
                &&& ctx.indexs_of@.contains_key(column)
                &&& table is None ==> ctx.indexs_of@[column]@ == seq![i]
                &&& table matches Some(t) ==> exists|k: int|
                    0 <= k < ctx.indexs_of@[column]@.len() && #[trigger] ctx.indexs_of@[column]@[k] == i
                        && ctx.columns@[i as int].table_name@ == t && forall|j: int|
                        0 <= j < k ==> ctx.columns@[(#[trigger] ctx.indexs_of@[column]@[j]) as int].table_name@ != t
            },
            Err(_) => {
                ||| !ctx.indexs_of@.contains_key(column)
                ||| table is None && ctx.indexs_of@[column]@.len() > 1
                ||| table matches Some(t) && forall|j: int|
                    0 <= j < ctx.indexs_of@[column]@.len() ==> ctx.columns@[(#[trigger] ctx.indexs_of@[column]@[j]) as int].table_name@
                        != t
            },
        },
{
    if ctx.indexs_of@.contains_key(column) {
        let list = ctx.indexs_of@[column]@;
        match table {
            Some(t) => {
                lemma_in_table(ctx, list, list.len() as int, t);
            },
            None => {
                if list.len() == 1 {
                    assert(list =~= seq![list[0]]);
                }
            },
        }
    }
}

/// The name of a column is told from that of a table: where there is just one column of the name,
/// it is that column, and all further names are fields of it; otherwise it is a table, and the
/// first further name is its column. Two names are always those of a table and its column.
pub proof fn law_column_comes_before_table(ctx: BindContext, expr: AstExpr, ids: Seq<Ident>)
    requires
        ctx.wf(),
        can_extract(ctx, expr, ids),
        extract(ctx, expr, ids) is Ok,
    ensures
        ({
            let (i, used) = extract(ctx, expr, ids)->Ok_0;
            match expr {
                AstExpr::Identifier(ident) => if ctx.indexs_of@.contains_key(ident.value@)
                    && ctx.indexs_of@[ident.value@]@.len() == 1 {
                    used == 0 && ctx.indexs_of@[ident.value@]@[0] == i
                } else {
                    used == 1 && ctx.columns@[i as int].table_name@ == ident.value@
                        && ctx.indexs_of@[ids[0].value@]@.contains(i)
                },
                AstExpr::CompoundIdentifier(idents) => {
                    &&& idents@.len() == 2
                    &&& used == 0
                    &&& ctx.columns@[i as int].table_name@ == idents@[0].value@
                    &&& ctx.indexs_of@[idents@[1].value@]@.contains(i)
                },
                _ => false,
            }
        }),
{
    match &expr {
        AstExpr::Identifier(ident) => {
            if !names_column(ctx, ident.value@) {
                law_name_stands_for_its_column(ctx, Some(ident.value@), ids[0].value@);
            }
        },
        AstExpr::CompoundIdentifier(idents) => {
            law_name_stands_for_its_column(ctx, Some(idents@[0].value@), idents@[1].value@);
        },
        _ => {},
    }
}

proof fn lemma_field_position(desc: ColumnDesc, name: Seq<char>, n: int)
    requires
        0 <= n <= desc.field_descs@.len(),
    ensures
        match field_position(desc, name, n) {
            Some(i) => 0 <= i < n && desc.field_descs@[i].name@ == name && forall|j: int|
                0 <= j < i ==> (#[trigger] desc.field_descs@[j]).name@ != name,
            None => forall|j: int| 0 <= j < n ==> (#[trigger] desc.field_descs@[j]).name@ != name,
        },
    decreases n,
{
    if n > 0 {
        lemma_field_position(desc, name, n - 1);
    }
}

/// The field of a name is the first with this name; there is none only if no field has it.
pub proof fn law_field_has_the_name(desc: ColumnDesc, name: Seq<char>)
    ensures
        match field_of(desc, name) {
            Some(i) => 0 <= i < desc.field_descs@.len() && desc.field_descs@[i].name@ == name && forall|j: int|
                0 <= j < i ==> (#[trigger] desc.field_descs@[j]).name@ != name,
            None => forall|j: int| 0 <= j < desc.field_descs@.len() ==> (#[trigger] desc.field_descs@[j]).name@ != name,
        },
{
    lemma_field_position(desc, name, desc.field_descs@.len() as int);
}

/// The expression of a path of fields picks, as its last step, the field with the last name, by
/// its position and with its type, out of the expression of the path before it.
pub proof fn law_path_ends_in_named_field(e: ExprImpl, expr: ExprImpl, desc: ColumnDesc, idents: Seq<Ident>, n: int)
    requires
        0 < n <= idents.len(),
        walk(desc, idents, n) is Ok,
        follows(e, expr, desc, idents, n),
    ensures
        walk(desc, idents, n - 1) is Ok,
        ({
            let whole = walk(desc, idents, n - 1)->Ok_0;
            let field = walk(desc, idents, n)->Ok_0;
            &&& field.name@ == idents[n - 1].value@
            &&& e matches ExprImpl::FunctionCall(call)
            &&& call.func_type == ExprType::Field
            &&& call.return_type == field.data_type
            &&& call.inputs@.len() == 2
            &&& follows(call.inputs@[0], expr, desc, idents, n - 1)
            &&& exists|i: int|
                0 <= i < whole.field_descs@.len() && #[trigger] whole.field_descs@[i] == field && call.inputs@[1]
                    == ExprImpl::Literal(Literal { data: LiteralValue::Int32(i as i32), data_type: DataType::Int32 })
        }),
{
    let whole = walk(desc, idents, n - 1)->Ok_0;
    law_field_has_the_name(whole, idents[n - 1].value@);
    let i = field_of(whole, idents[n - 1].value@)->0;
    assert(whole.field_descs@[i] == walk(desc, idents, n)->Ok_0);
}

/// A field is shown under the name of the field to which the path leads, and all fields of one under their own names, in
/// their order.
pub proof fn law_fields_have_their_names(
    e: ExprImpl,
    name: Option<String>,
    exprs: Seq<ExprImpl>,
    names: Seq<Option<String>>,
    ctx: BindContext,
    expr: AstExpr,
    ids: Seq<Ident>,
    i: int,
)
    ensures
        is_one_field(e, name, ctx, expr, ids) ==> name == Some((destination(ctx, expr, ids)->Ok_0).2.name),
        are_all_fields(exprs, names, ctx, expr, ids) ==> names.len() == (destination(
            ctx,
            expr,
            ids,
        )->Ok_0).2.field_descs@.len(),
        are_all_fields(exprs, names, ctx, expr, ids) && 0 <= i < names.len() ==> names[i] == Some(
            (destination(ctx, expr, ids)->Ok_0).2.field_descs@[i].name,
        ),
{
}

/// A name that stands for no column is named in the error, as is a table without the column; a name that stands for
/// several columns is ambiguous unless the table is given.
pub proof fn law_unknown_names_are_named(ctx: BindContext, table: Seq<char>, column: Seq<char>)
    ensures
        !ctx.indexs_of@.contains_key(column) ==> ctx.resolve(None, column) == Err::<usize, ErrorView>(
            ErrorView::ItemNotFound("Invalid column: "@ + column),
        ) && ctx.resolve(Some(table), column) == Err::<usize, ErrorView>(
            ErrorView::ItemNotFound("Invalid column: "@ + column),
        ),
        ctx.indexs_of@.contains_key(column) && ctx.indexs_of@[column]@.len() > 1 ==> ctx.resolve(None, column) == Err::<
            usize,
            ErrorView,
        >(ErrorView::InternalError("Ambiguous column name"@)),
        ctx.indexs_of@.contains_key(column) ==> (ctx.resolve(Some(table), column) matches Err(e) ==> e
            == ErrorView::ItemNotFound("missing FROM-clause entry for table \""@ + table + "\""@)),
        no_field(column) == ErrorView::ItemNotFound("Invalid field name: "@ + column),
        not_nested(column) == ErrorView::BindError("The field "@ + column + " is not the nested column"@),
{
}

} // verus!

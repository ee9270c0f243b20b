//! Results in the form that clients of PostgreSQL expect.

use bytes::Bytes;
use vstd::prelude::*;
use vstd::string::StringExecFns;

use crate::catalog::{type_text, ColumnDesc, DataType, Field};
use crate::common::chunk::{visible_rows, DataChunk};
use crate::common::error::{fails, ErrorCode, ErrorView};
use crate::common::scalar::{scalar_text, Datum, FloatClass, FloatValue, ScalarImpl};
use crate::common::shared_bytes::{bytes_content, bytes_from_string};
use crate::common::string_map::StringMap;

verus! {

/// The types of PostgreSQL.
#[derive(Clone, Copy, Debug, PartialEq, Eq, Structural)]
pub enum TypeOid {
    Boolean,
    BigInt,
    SmallInt,
    Int,
    Float4,
    Float8,
    CharArray,
    Varchar,
    Date,
    Time,
    Timestamp,
    Timestampz,
    Decimal,
    Interval,
}

impl TypeOid {
    /// The number by which PostgreSQL knows the type.
    pub open spec fn number(self) -> int {
        match self {
            TypeOid::Boolean => 16,
            TypeOid::BigInt => 20,
            TypeOid::SmallInt => 21,
            TypeOid::Int => 23,
            TypeOid::Float4 => 700,
            TypeOid::Float8 => 701,
            TypeOid::CharArray => 1002,
            TypeOid::Varchar => 1043,
            TypeOid::Date => 1082,
            TypeOid::Time => 1083,
            TypeOid::Timestamp => 1114,
            TypeOid::Timestampz => 1184,
            TypeOid::Decimal => 1700,
            TypeOid::Interval => 1186,
        }
    }

    /// The number by which PostgreSQL knows the type.
    pub fn as_number(&self) -> (r: i32)
        ensures
            r == self.number(),
    {
        match self {
            TypeOid::Boolean => 16,
            TypeOid::BigInt => 20,
            TypeOid::SmallInt => 21,
            TypeOid::Int => 23,
            TypeOid::Float4 => 700,
            TypeOid::Float8 => 701,
            TypeOid::CharArray => 1002,
            TypeOid::Varchar => 1043,
            TypeOid::Date => 1082,
            TypeOid::Time => 1083,
            TypeOid::Timestamp => 1114,
            TypeOid::Timestampz => 1184,
            TypeOid::Decimal => 1700,
            TypeOid::Interval => 1186,
        }
    }
}

/// A column of a result.
#[derive(Debug)]
pub struct PgFieldDescriptor {
    pub name: String,
    pub type_oid: TypeOid,
}

/// A row of a result.
#[derive(Debug)]
pub struct PgRow {
    pub values: Vec<Option<Bytes>>,
}

/// A value that may be missing, by its bytes.
pub open spec fn bytes_view(v: Option<Bytes>) -> Option<Seq<u8>> {
    match v {
        Some(b) => Some(bytes_content(b)),
        None => None,
    }
}

impl View for PgRow {
    type V = Seq<Option<Seq<u8>>>;

    open spec fn view(&self) -> Seq<Option<Seq<u8>>> {
        Seq::new(self.values@.len(), |i: int| bytes_view(self.values@[i]))
    }
}

/// Rows by their bytes.
pub open spec fn row_views(rows: Seq<PgRow>) -> Seq<Seq<Option<Seq<u8>>>> {
    Seq::new(rows.len(), |i: int| rows[i]@)
}

/// A floating-point number in the words of PostgreSQL.
pub open spec fn pg_float(v: FloatValue) -> Seq<char> {
    match v.class {
        FloatClass::PositiveInfinity => "Infinity"@,
        FloatClass::NegativeInfinity => "-Infinity"@,
        FloatClass::NotANumber => "NaN"@,
        FloatClass::Finite => v.digits@,
    }
}

/// A floating-point number in the words of PostgreSQL.
pub fn pg_float_format(v: &FloatValue) -> (r: String)
    ensures
        r@ == pg_float(*v),
{
    match v.class {
        FloatClass::PositiveInfinity => "Infinity".to_owned(),
        FloatClass::NegativeInfinity => "-Infinity".to_owned(),
        FloatClass::NotANumber => "NaN".to_owned(),
        FloatClass::Finite => v.digits.clone(),
    }
}

/// A value in the words of PostgreSQL.
pub open spec fn pg_text(d: ScalarImpl) -> Seq<char> {
    match d {
        ScalarImpl::Bool(b) => if b {
            "t"@
        } else {
            "f"@
        },
        ScalarImpl::Float32(v) => pg_float(v),
        ScalarImpl::Float64(v) => pg_float(v),
        _ => scalar_text(d),
    }
}

/// The bytes are the value as it is sent: in the words of PostgreSQL, or where `format` asks
/// for it in binary, as `binary` gives it.
pub open spec fn is_pg_value<F: Fn(&ScalarImpl) -> Bytes>(d: ScalarImpl, format: bool, binary: F, bytes: Bytes) -> bool {
    if format {
        binary.ensures((&d,), bytes)
    } else {
        bytes_content(bytes) == vstd::utf8::encode_utf8(pg_text(d))
    }
}

/// Format scalars according to postgres convention. `format` is whether in binary and not as
/// text; `binary` is the binary encoding.
pub fn pg_value_format<F: Fn(&ScalarImpl) -> Bytes>(d: &ScalarImpl, format: bool, binary: &F) -> (r: Bytes)
    requires
        format ==> (*binary).requires((d,)),
    ensures
        is_pg_value(*d, format, *binary, r),
{
    if format {
        return binary(d);
    }
    let text = match d {
        ScalarImpl::Bool(b) => {
            if *b {
                "t".to_owned()
            } else {
                "f".to_owned()
            }
        },
        ScalarImpl::Float32(v) => pg_float_format(v),
        ScalarImpl::Float64(v) => pg_float_format(v),
        _ => d.to_text(),
    };
    bytes_from_string(text)
}

/// The values of a row as they are sent; null stays null.
pub open spec fn is_pg_row<F: Fn(&ScalarImpl) -> Bytes>(row: Seq<Datum>, format: bool, binary: F, values: Seq<Option<Bytes>>) -> bool {
    &&& values.len() == row.len()
    &&& forall|i: int|
        0 <= i < row.len() ==> match (row[i], #[trigger] values[i]) {
            (Some(d), Some(bytes)) => is_pg_value(d, format, binary, bytes),
            (None, None) => true,
            _ => false,
        }
}

/// The first `n` rows as they are sent, without those that are hidden.
pub open spec fn is_pg_rows<F: Fn(&ScalarImpl) -> Bytes>(chunk: DataChunk<Datum>, n: int, format: bool, binary: F, rows: Seq<PgRow>) -> bool {
    let shown = visible_rows(chunk, n);
    &&& rows.len() == shown.len()
    &&& forall|k: int|
        0 <= k < rows.len() ==> is_pg_row(chunk.rows@[shown[k]]@, format, binary, (#[trigger] rows[k]).values@)
}

/// One row as it is sent.
fn to_pg_row<F: Fn(&ScalarImpl) -> Bytes>(row: &Vec<Datum>, format: bool, binary: &F) -> (r: PgRow)
    requires
        format ==> forall|d: ScalarImpl| #[trigger] (*binary).requires((&d,)),
    ensures
        is_pg_row(row@, format, *binary, r.values@),
{
    let mut values: Vec<Option<Bytes>> = Vec::new();
    let mut i: usize = 0;
    while i < row.len()
        invariant
            i <= row@.len(),
            format ==> forall|d: ScalarImpl| #[trigger] (*binary).requires((&d,)),
            is_pg_row(row@.subrange(0, i as int), format, *binary, values@),
        decreases row@.len() - i,
    {
        let value = match &row[i] {
            Some(d) => Some(pg_value_format(d, format, binary)),
            None => None,
        };
        values.push(value);
        i = i + 1;
    }
    proof {
        assert(row@.subrange(0, i as int) =~= row@);
    }
    PgRow { values }
}

/// The rows that are not hidden, as they are sent: as text, or where `format` asks for it in
/// the encoding that `binary` gives.
pub fn to_pg_rows<F: Fn(&ScalarImpl) -> Bytes>(chunk: &DataChunk<Datum>, format: bool, binary: F) -> (r: Vec<PgRow>)
    requires
        chunk.wf(),
        format ==> forall|d: ScalarImpl| #[trigger] binary.requires((&d,)),
    ensures
        is_pg_rows(*chunk, chunk.rows@.len() as int, format, binary, r@),
{
    let mut r: Vec<PgRow> = Vec::new();
    let mut i: usize = 0;
    while i < chunk.rows.len()
        invariant
            i <= chunk.rows@.len(),
            chunk.wf(),
            format ==> forall|d: ScalarImpl| #[trigger] binary.requires((&d,)),
            is_pg_rows(*chunk, i as int, format, binary, r@),
        decreases chunk.rows@.len() - i,
    {
        if chunk.visible(i) {
            r.push(to_pg_row(&chunk.rows[i], format, &binary));
        }
        i = i + 1;
    }
    r
}

/// The type of PostgreSQL for a type.
pub open spec fn oid_of(t: DataType) -> TypeOid {
    match t {
        DataType::Int16 => TypeOid::SmallInt,
        DataType::Int32 => TypeOid::Int,
        DataType::Int64 => TypeOid::BigInt,
        DataType::Float32 => TypeOid::Float4,
        DataType::Float64 => TypeOid::Float8,
        DataType::Boolean => TypeOid::Boolean,
        DataType::Char => TypeOid::CharArray,
        DataType::Varchar => TypeOid::Varchar,
        DataType::Date => TypeOid::Date,
        DataType::Time => TypeOid::Time,
        DataType::Timestamp => TypeOid::Timestamp,
        DataType::Timestampz => TypeOid::Timestampz,
        DataType::Decimal => TypeOid::Decimal,
        DataType::Interval => TypeOid::Interval,
        DataType::Struct { .. } => TypeOid::Varchar,
        DataType::List { .. } => TypeOid::Varchar,
    }
}

/// The type of PostgreSQL for a type.
pub fn data_type_to_type_oid(data_type: &DataType) -> (r: TypeOid)
    ensures
        r == oid_of(*data_type),
{
    match data_type {
        DataType::Int16 => TypeOid::SmallInt,
        DataType::Int32 => TypeOid::Int,
        DataType::Int64 => TypeOid::BigInt,
        DataType::Float32 => TypeOid::Float4,
        DataType::Float64 => TypeOid::Float8,
        DataType::Boolean => TypeOid::Boolean,
        DataType::Char => TypeOid::CharArray,
        DataType::Varchar => TypeOid::Varchar,
        DataType::Date => TypeOid::Date,
        DataType::Time => TypeOid::Time,
        DataType::Timestamp => TypeOid::Timestamp,
        DataType::Timestampz => TypeOid::Timestampz,
        DataType::Decimal => TypeOid::Decimal,
        DataType::Interval => TypeOid::Interval,
        DataType::Struct { .. } => TypeOid::Varchar,
        DataType::List { .. } => TypeOid::Varchar,
    }
}

/// Convert from [`Field`] to [`PgFieldDescriptor`].
pub fn to_pg_field(f: &Field) -> (r: PgFieldDescriptor)
    ensures
        r.name == f.name,
        r.type_oid == oid_of(f.data_type),
{
    PgFieldDescriptor { name: f.name.clone(), type_oid: data_type_to_type_oid(&f.data_type) }
}

/// The name of a column's type: its own name if it is a struct.
pub open spec fn shown_type(desc: ColumnDesc) -> Seq<char> {
    if desc.data_type is Struct {
        desc.struct_type_name@
    } else {
        type_text(desc.data_type)
    }
}

/// The names and types of a column, under the given name, and of all columns within it.
pub open spec fn described(desc: ColumnDesc, name: Seq<char>) -> Seq<(Seq<char>, Seq<char>)>
    decreases desc, 1int, 0int,
{
    seq![(name, shown_type(desc))] + described_within(desc, name, desc.field_descs@.len() as int)
}

/// The names and types of the first `n` columns within a column.
pub open spec fn described_within(desc: ColumnDesc, name: Seq<char>, n: int) -> Seq<(Seq<char>, Seq<char>)>
    decreases desc, 0int, n,
{
    if n <= 0 || n > desc.field_descs@.len() {
        Seq::empty()
    } else {
        let field = desc.field_descs@[n - 1];
        described_within(desc, name, n - 1) + described(field, name + "."@ + field.name@)
    }
}

/// The names and types of the first `n` columns and of all columns within them.
pub open spec fn all_described(columns: Seq<ColumnDesc>, n: int) -> Seq<(Seq<char>, Seq<char>)>
    decreases n,
{
    if n <= 0 {
        Seq::empty()
    } else {
        all_described(columns, n - 1) + described(columns[n - 1], columns[n - 1].name@)
    }
}

/// Names and types by their characters.
pub open spec fn pair_texts(pairs: Seq<(String, String)>) -> Seq<(Seq<char>, Seq<char>)> {
    Seq::new(pairs.len(), |i: int| (pairs[i].0@, pairs[i].1@))
}

/// Adds the names and types of a column and of all columns within it.
fn describe_column(rows: &mut Vec<(String, String)>, desc: &ColumnDesc, name: String)
    ensures
        pair_texts(final(rows)@) == pair_texts(old(rows)@) + described(*desc, name@),
    decreases *desc,
{
    let ghost before = rows@;
    let ghost shown = name@;
    let shown_name = if let DataType::Struct { .. } = desc.data_type {
        desc.struct_type_name.clone()
    } else {
        desc.data_type.to_text()
    };
    rows.push((name.clone(), shown_name));
    let ghost head = pair_texts(rows@);
    proof {
        assert(head =~= pair_texts(before) + seq![(shown, shown_type(*desc))]);
        assert(head + described_within(*desc, shown, 0) =~= head);
    }
    let mut i: usize = 0;
    while i < desc.field_descs.len()
        invariant
            i <= desc.field_descs@.len(),
            name@ == shown,
            pair_texts(rows@) == head + described_within(*desc, shown, i as int),
        decreases desc.field_descs@.len() - i,
    {
        proof {
            assert(decreases_to!(*desc => desc.field_descs@[i as int]));
        }
        let mut path: String = name.clone();
        path.append(".");
        path.append(desc.field_descs[i].name.as_str());
        describe_column(rows, &desc.field_descs[i], path);
        i = i + 1;
        proof {
            assert(pair_texts(rows@) =~= head + described_within(*desc, shown, i as int));
        }
    }
    proof {
        assert(pair_texts(rows@) =~= pair_texts(before) + described(*desc, shown));
    }
}

/// A name and a type as a row.
pub open spec fn pair_row(p: (Seq<char>, Seq<char>)) -> Seq<Option<Seq<u8>>> {
    seq![Some(vstd::utf8::encode_utf8(p.0)), Some(vstd::utf8::encode_utf8(p.1))]
}

/// Names and types as rows.
pub open spec fn pair_rows(pairs: Seq<(Seq<char>, Seq<char>)>) -> Seq<Seq<Option<Seq<u8>>>> {
    Seq::new(pairs.len(), |i: int| pair_row(pairs[i]))
}

/// Convert column descs to rows which conclude name and type
pub fn col_descs_to_rows(columns: &Vec<ColumnDesc>) -> (r: Vec<PgRow>)
    ensures
        row_views(r@) == pair_rows(all_described(columns@, columns@.len() as int)),
{
    let mut pairs: Vec<(String, String)> = Vec::new();
    let mut i: usize = 0;
    proof {
        assert(pair_texts(pairs@) =~= Seq::empty());
    }
    while i < columns.len()
        invariant
            i <= columns@.len(),
            pair_texts(pairs@) == all_described(columns@, i as int),
        decreases columns@.len() - i,
    {
        describe_column(&mut pairs, &columns[i], columns[i].name.clone());
        i = i + 1;
    }
    let mut rows: Vec<PgRow> = Vec::new();
    let mut j: usize = 0;
    while j < pairs.len()
        invariant
            j <= pairs@.len(),
            rows@.len() == j,
            forall|k: int| 0 <= k < j ==> (#[trigger] rows@[k])@ == pair_row(pair_texts(pairs@)[k]),
        decreases pairs@.len() - j,
    {
        let mut values: Vec<Option<Bytes>> = Vec::new();
        values.push(Some(bytes_from_string(pairs[j].0.clone())));
        values.push(Some(bytes_from_string(pairs[j].1.clone())));
        let row = PgRow { values };
        proof {
            assert(row@ =~= pair_row(pair_texts(pairs@)[j as int]));
        }
        rows.push(row);
        j = j + 1;
    }
    proof {
        assert(row_views(rows@) =~= pair_rows(pair_texts(pairs@)));
    }
    rows
}

/// A value in a WITH clause.
#[derive(Debug)]
pub enum SqlValue {
    SingleQuotedString(String),
    Number(String),
    Boolean(bool),
    Other,
}

/// An option in a WITH clause.
#[derive(Debug)]
pub struct SqlOption {
    pub name: String,
    pub value: SqlValue,
}

/// The text of an option's value, if it has one.
pub open spec fn option_text(v: SqlValue) -> Option<Seq<char>> {
    match v {
        SqlValue::SingleQuotedString(s) => Some(s@),
        SqlValue::Number(n) => Some(n@),
        SqlValue::Boolean(b) => Some(
            if b {
                "true"@
            } else {
                "false"@
            },
        ),
        SqlValue::Other => None,
    }
}

/// The texts of a map's values.
pub open spec fn value_texts(m: Map<Seq<char>, String>) -> Map<Seq<char>, Seq<char>> {
    m.map_values(|s: String| s@)
}

/// The first `n` options as a map; of options with one name the last counts.
pub open spec fn option_map(options: Seq<SqlOption>, n: int) -> Map<Seq<char>, Seq<char>>
    decreases n,
{
    if n <= 0 {
        Map::empty()
    } else {
        option_map(options, n - 1).insert(options[n - 1].name@, option_text(options[n - 1].value)->0)
    }
}

/// The options of a WITH clause as a map.
pub fn handle_with_properties(ctx: &str, options: &Vec<SqlOption>) -> (r: Result<StringMap<String>, ErrorCode>)
    ensures
        if forall|i: int| 0 <= i < options@.len() ==> option_text((#[trigger] options@[i]).value) is Some {
            r matches Ok(map) && map.wf() && value_texts(map@) == option_map(options@, options@.len() as int)
        } else {
            fails(
                r,
                ErrorView::ProtocolError(ctx@ + " with properties only support single quoted string value"@),
            )
        },
{
    let mut map: StringMap<String> = StringMap::new();
    let mut i: usize = 0;
    proof {
        assert(value_texts(map@) =~= Map::empty());
    }
    while i < options.len()
        invariant
            i <= options@.len(),
            map.wf(),
            value_texts(map@) == option_map(options@, i as int),
            forall|j: int| 0 <= j < i ==> option_text((#[trigger] options@[j]).value) is Some,
        decreases options@.len() - i,
    {
        let text = match &options[i].value {
            SqlValue::SingleQuotedString(s) => s.clone(),
            SqlValue::Number(n) => n.clone(),
            SqlValue::Boolean(b) => {
                if *b {
                    "true".to_owned()
                } else {
                    "false".to_owned()
                }
            },
            SqlValue::Other => {
                proof {
                    assert(option_text(options@[i as int].value) is None);
                }
                let mut m: String = ctx.to_owned();
                m.append(" with properties only support single quoted string value");
                return Err(ErrorCode::ProtocolError(m));
            },
        };
        let ghost before = map@;
        let name = options[i].name.clone();
        map.insert(name, text);
        proof {
            assert(value_texts(map@) =~= value_texts(before).insert(name@, text@));
        }
        i = i + 1;
    }
    Ok(map)
}

/// What a query reads from.
#[derive(Debug)]
pub enum Relation {
    BaseTable,
    SystemTable,
    Subquery(Box<BoundSetExpr>),
    Join(Box<Relation>, Box<Relation>),
}

/// The body of a query.
#[derive(Debug)]
pub enum BoundSetExpr {
    /// A SELECT statement and what it reads from.
    Select(Option<Relation>),
    Values,
}

/// A statement whose names are bound.
#[derive(Debug)]
pub enum BoundStatement {
    Query(BoundSetExpr),
    Insert,
    Delete,
    Update,
}

/// A system table is read.
pub open spec fn reads_system(r: Relation) -> bool
    decreases r,
{
    match r {
        Relation::BaseTable => false,
        Relation::SystemTable => true,
        Relation::Subquery(body) => match *body {
            BoundSetExpr::Select(Some(inner)) => reads_system(inner),
            _ => false,
        },
        Relation::Join(left, right) => reads_system(*left) || reads_system(*right),
    }
}

impl Relation {
    /// Whether a system table is read.
    pub fn contains_sys_table(&self) -> (r: bool)
        ensures
            r == reads_system(*self),
        decreases *self,
    {
        match self {
            Relation::BaseTable => false,
            Relation::SystemTable => true,
            Relation::Subquery(body) => match &**body {
                BoundSetExpr::Select(Some(inner)) => inner.contains_sys_table(),
                _ => false,
            },
            Relation::Join(left, right) => left.contains_sys_table() || right.contains_sys_table(),
        }
    }
}

/// Check whether need to force query mode to local.
pub fn force_local_mode(bound: &BoundStatement) -> (r: bool)
    ensures
        r == match *bound {
            BoundStatement::Query(BoundSetExpr::Select(Some(relation))) => reads_system(relation),
            _ => false,
        },
{
    if let BoundStatement::Query(body) = bound {
        if let BoundSetExpr::Select(from) = body {
            if let Some(relation) = from {
                return relation.contains_sys_table();
            }
        }
    }
    false
}

/// Truth values are sent as one letter, and infinite numbers and those that are none by their words.
pub proof fn law_words_of_postgres(b: bool, v: FloatValue)
    ensures
        pg_text(ScalarImpl::Bool(b)) == seq![
            if b {
                't'
            } else {
                'f'
            },
        ],
        v.class is Finite ==> pg_text(ScalarImpl::Float64(v)) == v.digits@,
        v.class is PositiveInfinity ==> pg_text(ScalarImpl::Float64(v)) == "Infinity"@,
        v.class is NegativeInfinity ==> pg_text(ScalarImpl::Float64(v)) == "-Infinity"@,
        v.class is NotANumber ==> pg_text(ScalarImpl::Float64(v)) == "NaN"@,
        pg_text(ScalarImpl::Float32(v)) == pg_text(ScalarImpl::Float64(v)),
{
    reveal_strlit("t");
    reveal_strlit("f");
    assert("t"@ =~= seq!['t']);
    assert("f"@ =~= seq!['f']);
}

/// The numbers by which clients of PostgreSQL know the types of columns.
pub proof fn law_numbers_of_types(t: DataType)
    ensures
        oid_of(t).number() == match t {
            DataType::Boolean => 16int,
            DataType::Int64 => 20,
            DataType::Int16 => 21,
            DataType::Int32 => 23,
            DataType::Float32 => 700,
            DataType::Float64 => 701,
            DataType::Char => 1002,
            DataType::Varchar => 1043,
            DataType::Date => 1082,
            DataType::Time => 1083,
            DataType::Timestamp => 1114,
            DataType::Timestampz => 1184,
            DataType::Interval => 1186,
            DataType::Decimal => 1700,
            DataType::Struct { .. } => 1043,
            DataType::List { .. } => 1043,
        },
{
}

/// A value that is missing is sent as none, and a value that is there as some bytes; the rows that are
/// sent are those that are not hidden, in their order.
pub proof fn law_rows_are_sent_in_order<F: Fn(&ScalarImpl) -> Bytes>(
    chunk: DataChunk<Datum>,
    binary: F,
    rows: Seq<PgRow>,
    k: int,
    i: int,
)
    requires
        chunk.wf(),
        is_pg_rows(chunk, chunk.rows@.len() as int, false, binary, rows),
        0 <= k < rows.len(),
        0 <= i < chunk.rows@[visible_rows(chunk, chunk.rows@.len() as int)[k]]@.len(),
    ensures
        ({
            let row = chunk.rows@[visible_rows(chunk, chunk.rows@.len() as int)[k]]@;
            &&& rows.len() == visible_rows(chunk, chunk.rows@.len() as int).len()
            &&& rows[k].values@.len() == row.len()
            &&& row[i] is None <==> rows[k].values@[i] is None
            &&& row[i] matches Some(d) ==> bytes_view(rows[k].values@[i]) == Some(vstd::utf8::encode_utf8(pg_text(d)))
        }),
{
    let shown = visible_rows(chunk, chunk.rows@.len() as int);
    assert(is_pg_row(chunk.rows@[shown[k]]@, false, binary, rows[k].values@));
    let v = rows[k].values@[i];
}

proof fn lemma_described_within(desc: ColumnDesc, name: Seq<char>, n: int, i: int)
    requires
        0 <= i < n <= desc.field_descs@.len(),
    ensures
        ({
            let field = desc.field_descs@[i];
            let own = described(field, name + "."@ + field.name@);
            let at = described_within(desc, name, i).len() as int;
            &&& at + own.len() <= described_within(desc, name, n).len()
            &&& described_within(desc, name, n).subrange(at, at + own.len()) == own
        }),
    decreases n,
{
    let field = desc.field_descs@[i];
    let own = described(field, name + "."@ + field.name@);
    let at = described_within(desc, name, i).len() as int;
    let last = desc.field_descs@[n - 1];
    let all = described_within(desc, name, n);
    assert(all == described_within(desc, name, n - 1) + described(last, name + "."@ + last.name@));
    if i < n - 1 {
        lemma_described_within(desc, name, n - 1, i);
        assert(all.subrange(at, at + own.len()) =~= described_within(desc, name, n - 1).subrange(at, at + own.len()));
    } else {
        assert(all.subrange(at, at + own.len()) =~= own);
    }
}

/// A column is described under its name and the name of its type, which for a struct is its own;
/// the fields within it follow, each under the name of the column, a dot and its own name.
pub proof fn law_fields_follow_their_column(desc: ColumnDesc, name: Seq<char>, i: int)
    requires
        0 <= i < desc.field_descs@.len(),
    ensures
        described(desc, name)[0].0 == name,
        desc.data_type is Struct ==> described(desc, name)[0].1 == desc.struct_type_name@,
        !(desc.data_type is Struct) ==> described(desc, name)[0].1 == type_text(desc.data_type),
        ({
            let field = desc.field_descs@[i];
            let path = name + seq!['.'] + field.name@;
            let at = 1 + described_within(desc, name, i).len() as int;
            let end = at + described(field, path).len();
            &&& end <= described(desc, name).len()
            &&& described(desc, name).subrange(at, end) == described(field, path)
            &&& described(desc, name)[at].0 == path
            &&& i == 0 ==> at == 1
            &&& i + 1 == desc.field_descs@.len() ==> end == described(desc, name).len()
        }),
{
    reveal_strlit(".");
    assert("."@ =~= seq!['.']);
    let n = desc.field_descs@.len() as int;
    let field = desc.field_descs@[i];
    let path = name + "."@ + field.name@;
    let within = described_within(desc, name, n);
    let at = 1 + described_within(desc, name, i).len() as int;
    let len = described(field, path).len();
    lemma_described_within(desc, name, n, i);
    assert(described(desc, name) == seq![(name, shown_type(desc))] + within);
    assert(described(desc, name).subrange(at, at + len) =~= within.subrange(at - 1, at - 1 + len));
    assert(described(field, path)[0].0 == path);
    assert(described(desc, name).subrange(at, at + len)[0] == described(desc, name)[at]);
}

/// Of the options with one name the last counts, and no name is found that no option has. Texts and
/// numbers stand for themselves, and truth values for `true` and `false`.
pub proof fn law_last_option_counts(options: Seq<SqlOption>, n: int, name: Seq<char>)
    requires
        0 <= n <= options.len(),
    ensures
        option_map(options, n).contains_key(name) <==> exists|i: int| 0 <= i < n && (#[trigger] options[i]).name@ == name,
        forall|i: int|
            0 <= i < n && (#[trigger] options[i]).name@ == name && (forall|j: int|
                i < j < n ==> (#[trigger] options[j]).name@ != name) ==> match options[i].value {
                SqlValue::SingleQuotedString(s) => option_map(options, n)[name] == s@,
                SqlValue::Number(s) => option_map(options, n)[name] == s@,
                SqlValue::Boolean(b) => option_map(options, n)[name] == if b {
                    "true"@
                } else {
                    "false"@
                },
                SqlValue::Other => true,
            },
    decreases n,
{
    if n > 0 {
        law_last_option_counts(options, n - 1, name);
        if options[n - 1].name@ == name {
            assert(option_map(options, n).contains_key(name));
        }
        if exists|i: int| 0 <= i < n && (#[trigger] options[i]).name@ == name {
            let i = choose|i: int| 0 <= i < n && (#[trigger] options[i]).name@ == name;
            if i < n - 1 {
                assert(option_map(options, n - 1).contains_key(name));
            }
        }
    }
}

/// A join reads a system table exactly if one of its sides does, and a subquery exactly if the query
/// within it does.
pub proof fn law_system_tables_are_found(left: Relation, right: Relation)
    ensures
        reads_system(Relation::SystemTable),
        !reads_system(Relation::BaseTable),
        reads_system(Relation::Join(Box::new(left), Box::new(right))) <==> reads_system(left) || reads_system(right),
        reads_system(Relation::Subquery(Box::new(BoundSetExpr::Select(Some(left))))) <==> reads_system(left),
        !reads_system(Relation::Subquery(Box::new(BoundSetExpr::Select(None)))),
        !reads_system(Relation::Subquery(Box::new(BoundSetExpr::Values))),
{
    reveal_with_fuel(reads_system, 3);
}

} // verus!

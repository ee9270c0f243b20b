//! Types of columns, and how columns and schemas are described.

use std::sync::Arc;
use vstd::prelude::*;
use vstd::string::StringExecFns;

verus! {

/// The type of a column.
#[derive(Debug)]
pub enum DataType {
    Boolean,
    Int16,
    Int32,
    Int64,
    Float32,
    Float64,
    Decimal,
    Date,
    Char,
    Varchar,
    Time,
    Timestamp,
    Timestampz,
    Interval,
    Struct { fields: Arc<Vec<DataType>> },
    List { datatype: Arc<DataType> },
}

impl DataType {
    /// A copy of the type.
    pub fn copy(&self) -> (r: DataType)
        ensures
            r == *self,
    {
        match self {
            DataType::Boolean => DataType::Boolean,
            DataType::Int16 => DataType::Int16,
            DataType::Int32 => DataType::Int32,
            DataType::Int64 => DataType::Int64,
            DataType::Float32 => DataType::Float32,
            DataType::Float64 => DataType::Float64,
            DataType::Decimal => DataType::Decimal,
            DataType::Date => DataType::Date,
            DataType::Char => DataType::Char,
            DataType::Varchar => DataType::Varchar,
            DataType::Time => DataType::Time,
            DataType::Timestamp => DataType::Timestamp,
            DataType::Timestampz => DataType::Timestampz,
            DataType::Interval => DataType::Interval,
            DataType::Struct { fields } => DataType::Struct { fields: fields.clone() },
            DataType::List { datatype } => DataType::List { datatype: datatype.clone() },
        }
    }

    /// Whether the type is the type of truth values.
    pub fn is_boolean(&self) -> (r: bool)
        ensures
            r == (*self == DataType::Boolean),
    {
        matches!(self, DataType::Boolean)
    }
}

/// Two types are the same: the same kind of type with the same types inside.
pub open spec fn same_type(a: DataType, b: DataType) -> bool
    decreases a,
{
    match (a, b) {
        (DataType::Struct { fields: x }, DataType::Struct { fields: y }) => {
            &&& x@.len() == y@.len()
            &&& forall|i: int| 0 <= i < x@.len() ==> same_type(#[trigger] x@[i], y@[i])
        },
        (DataType::List { datatype: x }, DataType::List { datatype: y }) => same_type(*x, *y),
        (DataType::Struct { .. }, _) => false,
        (DataType::List { .. }, _) => false,
        _ => a == b,
    }
}

/// The type, and each list of types, is the same as itself.
pub proof fn lemma_same_type_reflexive(a: &DataType)
    ensures
        same_type(*a, *a),
    decreases *a,
{
    match a {
        DataType::Struct { fields } => {
            assert forall|i: int| 0 <= i < fields@.len() implies same_type(#[trigger] fields@[i], fields@[i]) by {
                lemma_same_type_reflexive(&fields@[i]);
            }
        },
        DataType::List { datatype } => lemma_same_type_reflexive(&*datatype),
        _ => {},
    }
}

/// Two lists of types are the same.
pub open spec fn same_types(a: Seq<DataType>, b: Seq<DataType>) -> bool {
    a.len() == b.len() && forall|i: int| 0 <= i < a.len() ==> same_type(#[trigger] a[i], b[i])
}

impl DataType {
    /// Whether two types are the same.
    pub fn same(&self, other: &DataType) -> (r: bool)
        ensures
            r == same_type(*self, *other),
        decreases *self,
    {
        match (self, other) {
            (DataType::Struct { fields: x }, DataType::Struct { fields: y }) => {
                if x.len() != y.len() {
                    return false;
                }
                let mut i: usize = 0;
                while i < x.len()
                    invariant
                        i <= x@.len(),
                        x@.len() == y@.len(),
                        self matches DataType::Struct { fields } && fields@ == x@,
                        other matches DataType::Struct { fields } && fields@ == y@,
                        forall|j: int| 0 <= j < i ==> same_type(#[trigger] x@[j], y@[j]),
                    decreases x@.len() - i,
                {
                    proof {
                        if let DataType::Struct { fields } = self {
                            assert(decreases_to!(*self => fields@[i as int]));
                        }
                    }
                    if !x[i].same(&y[i]) {
                        return false;
                    }
                    i = i + 1;
                }
                true
            },
            (DataType::List { datatype: x }, DataType::List { datatype: y }) => x.same(y),
            (DataType::Boolean, DataType::Boolean) => true,
            (DataType::Int16, DataType::Int16) => true,
            (DataType::Int32, DataType::Int32) => true,
            (DataType::Int64, DataType::Int64) => true,
            (DataType::Float32, DataType::Float32) => true,
            (DataType::Float64, DataType::Float64) => true,
            (DataType::Decimal, DataType::Decimal) => true,
            (DataType::Date, DataType::Date) => true,
            (DataType::Char, DataType::Char) => true,
            (DataType::Varchar, DataType::Varchar) => true,
            (DataType::Time, DataType::Time) => true,
            (DataType::Timestamp, DataType::Timestamp) => true,
            (DataType::Timestampz, DataType::Timestampz) => true,
            (DataType::Interval, DataType::Interval) => true,
            _ => false,
        }
    }
}

/// A type as text.
pub open spec fn type_text(t: DataType) -> Seq<char>
    decreases t, 0int,
{
    match t {
        DataType::Boolean => "Boolean"@,
        DataType::Int16 => "Int16"@,
        DataType::Int32 => "Int32"@,
        DataType::Int64 => "Int64"@,
        DataType::Float32 => "Float32"@,
        DataType::Float64 => "Float64"@,
        DataType::Decimal => "Decimal"@,
        DataType::Date => "Date"@,
        DataType::Char => "Char"@,
        DataType::Varchar => "Varchar"@,
        DataType::Time => "Time"@,
        DataType::Timestamp => "Timestamp"@,
        DataType::Timestampz => "Timestampz"@,
        DataType::Interval => "Interval"@,
        DataType::Struct { fields } => "Struct { fields: ["@ + type_list_text(fields@, fields@.len() as int) + "] }"@,
        DataType::List { datatype } => "List { datatype: "@ + type_text(*datatype) + " }"@,
    }
}

/// The first `n` types as text, with commas between them.
pub open spec fn type_list_text(types: Seq<DataType>, n: int) -> Seq<char>
    decreases types, n,
{
    if n <= 0 || n > types.len() {
        Seq::empty()
    } else if n == 1 {
        type_text(types[0])
    } else {
        type_list_text(types, n - 1) + ", "@ + type_text(types[n - 1])
    }
}

impl DataType {
    /// The type as text.
    pub fn to_text(&self) -> (r: String)
        ensures
            r@ == type_text(*self),
        decreases *self,
    {
        let name: &str = match self {
            DataType::Boolean => "Boolean",
            DataType::Int16 => "Int16",
            DataType::Int32 => "Int32",
            DataType::Int64 => "Int64",
            DataType::Float32 => "Float32",
            DataType::Float64 => "Float64",
            DataType::Decimal => "Decimal",
            DataType::Date => "Date",
            DataType::Char => "Char",
            DataType::Varchar => "Varchar",
            DataType::Time => "Time",
            DataType::Timestamp => "Timestamp",
            DataType::Timestampz => "Timestampz",
            DataType::Interval => "Interval",
            DataType::Struct { fields } => {
                let mut list: String = String::new();
                let mut i: usize = 0;
                proof {
                    assert(list@ =~= type_list_text(fields@, 0));
                }
                while i < fields.len()
                    invariant
                        i <= fields@.len(),
                        self matches DataType::Struct { fields: f } && f@ == fields@,
                        list@ == type_list_text(fields@, i as int),
                    decreases fields@.len() - i,
                {
                    let ghost before = list@;
                    proof {
                        if let DataType::Struct { fields: f } = self {
                            assert(decreases_to!(*self => f@[i as int]));
                        }
                    }
                    if i > 0 {
                        list.append(", ");
                    }
                    list.append(fields[i].to_text().as_str());
                    i = i + 1;
                    proof {
                        if i == 1 {
                            assert(before =~= Seq::empty());
                            assert(list@ =~= type_text(fields@[0]));
                        }
                    }
                }
                let mut r: String = "Struct { fields: [".to_owned();
                r.append(list.as_str());
                r.append("] }");
                return r;
            },
            DataType::List { datatype } => {
                let mut r: String = "List { datatype: ".to_owned();
                r.append(datatype.to_text().as_str());
                r.append(" }");
                return r;
            },
        };
        name.to_owned()
    }
}

/// The number that identifies a column within its table.
pub type ColumnId = i32;

/// The description of a column; a column of a struct type describes its fields too.
#[derive(Debug)]
pub struct ColumnDesc {
    pub data_type: DataType,
    pub column_id: ColumnId,
    pub name: String,
    pub field_descs: Arc<Vec<ColumnDesc>>,
    pub struct_type_name: String,
}

/// A description of a column without a name and without fields.
pub open spec fn is_unnamed(desc: ColumnDesc, column_id: ColumnId, data_type: DataType) -> bool {
    &&& desc.data_type == data_type
    &&& desc.column_id == column_id
    &&& desc.name@.len() == 0
    &&& desc.field_descs@.len() == 0
    &&& desc.struct_type_name@.len() == 0
}

impl ColumnDesc {
    /// A copy of the description.
    pub fn copy(&self) -> (r: ColumnDesc)
        ensures
            r == *self,
    {
        ColumnDesc {
            data_type: self.data_type.copy(),
            column_id: self.column_id,
            name: self.name.clone(),
            field_descs: self.field_descs.clone(),
            struct_type_name: self.struct_type_name.clone(),
        }
    }

    /// A description of a column without a name.
    pub fn unnamed(column_id: ColumnId, data_type: DataType) -> (r: ColumnDesc)
        ensures
            is_unnamed(r, column_id, data_type),
    {
        ColumnDesc {
            data_type,
            column_id,
            name: String::new(),
            field_descs: Arc::new(Vec::new()),
            struct_type_name: String::new(),
        }
    }
}

/// One column of a schema.
#[derive(Debug)]
pub struct Field {
    pub data_type: DataType,
    pub name: String,
    pub sub_fields: Arc<Vec<Field>>,
    pub struct_type_name: String,
}

/// A field without sub-fields.
pub open spec fn is_plain_field(field: Field, data_type: DataType, name: Seq<char>) -> bool {
    &&& field.data_type == data_type
    &&& field.name@ == name
    &&& field.sub_fields@.len() == 0
    &&& field.struct_type_name@.len() == 0
}

impl Field {
    /// A copy of the field.
    pub fn copy(&self) -> (r: Field)
        ensures
            r == *self,
    {
        Field {
            data_type: self.data_type.copy(),
            name: self.name.clone(),
            sub_fields: self.sub_fields.clone(),
            struct_type_name: self.struct_type_name.clone(),
        }
    }

    /// A field without sub-fields.
    pub fn with_name(data_type: DataType, name: String) -> (r: Field)
        ensures
            is_plain_field(r, data_type, name@),
    {
        Field { data_type, name, sub_fields: Arc::new(Vec::new()), struct_type_name: String::new() }
    }

    /// A field without a name.
    pub fn unnamed(data_type: DataType) -> (r: Field)
        ensures
            is_plain_field(r, data_type, Seq::empty()),
    {
        Field::with_name(data_type, String::new())
    }

    /// The type of the field.
    pub fn data_type(&self) -> (r: DataType)
        ensures
            r == self.data_type,
    {
        self.data_type.copy()
    }
}

/// The field that a column's description stands for: the same type and name, and
/// the same again for the fields within.
pub open spec fn describes(desc: ColumnDesc, field: Field) -> bool
    decreases desc,
{
    &&& field.data_type == desc.data_type
    &&& field.name@ == desc.name@
    &&& field.struct_type_name@ == desc.struct_type_name@
    &&& field.sub_fields@.len() == desc.field_descs@.len()
    &&& forall|i: int|
        0 <= i < desc.field_descs@.len() ==> describes(#[trigger] desc.field_descs@[i], field.sub_fields@[i])
}

impl ColumnDesc {
    /// The field that the description stands for.
    pub fn to_field(&self) -> (r: Field)
        ensures
            describes(*self, r),
        decreases *self,
    {
        let mut sub_fields: Vec<Field> = Vec::new();
        let mut i: usize = 0;
        while i < self.field_descs.len()
            invariant
                i <= self.field_descs@.len(),
                sub_fields@.len() == i,
                forall|j: int| 0 <= j < i ==> describes(#[trigger] self.field_descs@[j], sub_fields@[j]),
            decreases self.field_descs@.len() - i,
        {
            proof {
                assert(decreases_to!(*self => self.field_descs@[i as int]));
            }
            sub_fields.push(self.field_descs[i].to_field());
            i = i + 1;
        }
        Field {
            data_type: self.data_type.copy(),
            name: self.name.clone(),
            sub_fields: Arc::new(sub_fields),
            struct_type_name: self.struct_type_name.clone(),
        }
    }
}

/// The columns of a relation.
#[derive(Debug)]
pub struct Schema {
    pub fields: Vec<Field>,
}

impl View for Schema {
    type V = Seq<Field>;

    open spec fn view(&self) -> Seq<Field> {
        self.fields@
    }
}

/// Copies of fields.
pub fn copy_fields(fields: &Vec<Field>) -> (r: Vec<Field>)
    ensures
        r@ == fields@,
{
    let mut r: Vec<Field> = Vec::new();
    let mut i: usize = 0;
    while i < fields.len()
        invariant
            i <= fields@.len(),
            r@ == fields@.subrange(0, i as int),
        decreases fields@.len() - i,
    {
        r.push(fields[i].copy());
        i = i + 1;
    }
    proof {
        assert(fields@.subrange(0, i as int) =~= fields@);
    }
    r
}

impl Schema {
    /// A schema of the given columns.
    pub fn new(fields: Vec<Field>) -> (r: Schema)
        ensures
            r@ == fields@,
    {
        Schema { fields }
    }

    /// A copy of the schema.
    pub fn copy(&self) -> (r: Schema)
        ensures
            r@ == self@,
    {
        Schema { fields: copy_fields(&self.fields) }
    }

    /// How many columns there are.
    pub fn len(&self) -> (r: usize)
        ensures
            r == self@.len(),
    {
        self.fields.len()
    }

    /// The types of the columns.
    pub fn data_types(&self) -> (r: Vec<DataType>)
        ensures
            r@ == Seq::new(self@.len(), |i: int| self@[i].data_type),
    {
        let mut r: Vec<DataType> = Vec::new();
        let mut i: usize = 0;
        while i < self.fields.len()
            invariant
                i <= self.fields@.len(),
                r@ == Seq::new(i as nat, |j: int| self@[j].data_type),
            decreases self.fields@.len() - i,
        {
            r.push(self.fields[i].data_type.copy());
            i = i + 1;
            proof {
                assert(r@ =~= Seq::new(i as nat, |j: int| self@[j].data_type));
            }
        }
        r
    }
}

/// Copies of column descriptions.
pub fn copy_descs(descs: &Vec<ColumnDesc>) -> (r: Vec<ColumnDesc>)
    ensures
        r@ == descs@,
{
    let mut r: Vec<ColumnDesc> = Vec::new();
    let mut i: usize = 0;
    while i < descs.len()
        invariant
            i <= descs@.len(),
            r@ == descs@.subrange(0, i as int),
        decreases descs@.len() - i,
    {
        r.push(descs[i].copy());
        i = i + 1;
    }
    proof {
        assert(descs@.subrange(0, i as int) =~= descs@);
    }
    r
}

/// The direction in which a column is ordered.
#[derive(Clone, Copy, Debug, PartialEq, Eq, Structural)]
pub enum OrderType {
    Ascending,
    Descending,
}

/// A column by which rows are ordered.
#[derive(Clone, Copy, Debug, PartialEq, Eq, Structural)]
pub struct OrderPair {
    pub column_idx: usize,
    pub order_type: OrderType,
}

/// Types that are the same are so in both directions.
pub proof fn law_same_type_symmetric(a: &DataType, b: &DataType)
    requires
        same_type(*a, *b),
    ensures
        same_type(*b, *a),
    decreases *a,
{
    match (a, b) {
        (DataType::Struct { fields: x }, DataType::Struct { fields: y }) => {
            assert forall|i: int| 0 <= i < y@.len() implies same_type(#[trigger] y@[i], x@[i]) by {
                assert(same_type(x@[i], y@[i]));
                law_same_type_symmetric(&x@[i], &y@[i]);
            }
        },
        (DataType::List { datatype: x }, DataType::List { datatype: y }) => {
            law_same_type_symmetric(&*x, &*y);
        },
        _ => {},
    }
}

/// Two types are the same only if they are of one kind; structs have as many fields of the same types in
/// the same order, and lists have items of the same type.
pub proof fn law_same_type_parts(a: DataType, b: DataType)
    ensures
        !(a is Struct) && !(a is List) ==> (same_type(a, b) <==> a == b),
        a matches DataType::Struct { fields: x } ==> (same_type(a, b) <==> (b matches DataType::Struct { fields: y }
            && x@.len() == y@.len() && forall|i: int| 0 <= i < x@.len() ==> same_type(#[trigger] x@[i], y@[i]))),
        a matches DataType::List { datatype: x } ==> (same_type(a, b) <==> (b matches DataType::List { datatype: y }
            && same_type(*x, *y))),
{
}

/// The field of a column has its name and its type, and the fields within it are those within the
/// column, in their order.
pub proof fn law_field_shows_column(desc: ColumnDesc, field: Field, i: int)
    requires
        describes(desc, field),
        0 <= i < desc.field_descs@.len(),
    ensures
        field.name@ == desc.name@,
        field.data_type == desc.data_type,
        field.struct_type_name@ == desc.struct_type_name@,
        field.sub_fields@.len() == desc.field_descs@.len(),
        field.sub_fields@[i].name@ == desc.field_descs@[i].name@,
        field.sub_fields@[i].data_type == desc.field_descs@[i].data_type,
        describes(desc.field_descs@[i], field.sub_fields@[i]),
{
    assert(describes(desc.field_descs@[i], field.sub_fields@[i]));
}

/// A plain field has its type and its name, and nothing within it; a column without a name has its number and its type,
/// and nothing within it either.
pub proof fn law_plain_fields_are_empty(field: Field, name: Seq<char>, desc: ColumnDesc, id: ColumnId, data_type: DataType)
    ensures
        is_plain_field(field, data_type, name) <==> field.data_type == data_type && field.name@ == name
            && field.sub_fields@.len() == 0 && field.struct_type_name@.len() == 0,
        is_unnamed(desc, id, data_type) <==> desc.data_type == data_type && desc.column_id == id && desc.name@.len() == 0
            && desc.field_descs@.len() == 0 && desc.struct_type_name@.len() == 0,
{
}

/// A struct is named with the types of its fields in their order, and a list with the type of its items.
pub proof fn law_texts_of_nested_types(fields: Arc<Vec<DataType>>, datatype: Arc<DataType>, n: int)
    requires
        0 < n < fields@.len(),
    ensures
        type_text(DataType::Struct { fields }) == "Struct { fields: ["@ + type_list_text(fields@, fields@.len() as int)
            + "] }"@,
        type_text(DataType::List { datatype }) == "List { datatype: "@ + type_text(*datatype) + " }"@,
        type_list_text(fields@, n + 1) == type_list_text(fields@, n) + ", "@ + type_text(fields@[n]),
        type_list_text(fields@, 1) == type_text(fields@[0]),
{
    reveal_with_fuel(type_list_text, 2);
    reveal_with_fuel(type_text, 2);
}

} // verus!

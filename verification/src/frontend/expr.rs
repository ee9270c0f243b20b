//! Expressions over the columns of a relation.

use std::sync::Arc;
use vstd::prelude::*;

use crate::catalog::{same_types, ColumnDesc, DataType};
use crate::common::error::{fails, ErrorCode, ErrorView};

verus! {

/// The function of a function call.
#[derive(Clone, Copy, Debug, PartialEq, Eq, Structural)]
pub enum ExprType {
    Add,
    Subtract,
    Multiply,
    Divide,
    Modulus,
    Equal,
    NotEqual,
    LessThan,
    LessThanOrEqual,
    GreaterThan,
    GreaterThanOrEqual,
    And,
    Or,
    Not,
    Neg,
    Cast,
    Case,
    Like,
    BitwiseAnd,
    BitwiseOr,
    BitwiseXor,
    BitwiseShiftLeft,
    BitwiseShiftRight,
    Substr,
    Lower,
    Upper,
    ToChar,
    Field,
}

/// The function of an aggregate.
#[derive(Clone, Copy, Debug, PartialEq, Eq, Structural)]
pub enum AggKind {
    Min,
    Max,
    Sum,
    Count,
    RowCount,
    Avg,
    StringAgg,
    SingleValue,
}

/// A column of the input.
#[derive(Debug)]
pub struct InputRef {
    pub index: usize,
    pub data_type: DataType,
}

impl InputRef {
    /// The column at position `index`.
    pub fn new(index: usize, data_type: DataType) -> (r: InputRef)
        ensures
            r == (InputRef { index, data_type }),
    {
        InputRef { index, data_type }
    }

    /// A copy of the reference.
    pub fn copy(&self) -> (r: InputRef)
        ensures
            r == *self,
    {
        InputRef { index: self.index, data_type: self.data_type.copy() }
    }
}

/// The value of a literal.
#[derive(Debug)]
pub enum LiteralValue {
    Null,
    Bool(bool),
    Int32(i32),
    Int64(i64),
    /// A value of any other type, as it was written.
    Text(String),
}

/// A constant.
#[derive(Debug)]
pub struct Literal {
    pub data: LiteralValue,
    pub data_type: DataType,
}

impl Literal {
    /// A copy of the constant.
    pub fn copy(&self) -> (r: Literal)
        ensures
            r == *self,
    {
        let data = match &self.data {
            LiteralValue::Null => LiteralValue::Null,
            LiteralValue::Bool(b) => LiteralValue::Bool(*b),
            LiteralValue::Int32(n) => LiteralValue::Int32(*n),
            LiteralValue::Int64(n) => LiteralValue::Int64(*n),
            LiteralValue::Text(s) => LiteralValue::Text(s.clone()),
        };
        Literal { data, data_type: self.data_type.copy() }
    }
}

/// A call of a function.
#[derive(Debug)]
pub struct FunctionCall {
    pub func_type: ExprType,
    pub inputs: Arc<Vec<ExprImpl>>,
    pub return_type: DataType,
}

/// A call of an aggregate.
#[derive(Debug)]
pub struct AggCall {
    pub agg_kind: AggKind,
    pub inputs: Arc<Vec<ExprImpl>>,
    pub return_type: DataType,
}

/// An expression.
#[derive(Debug)]
pub enum ExprImpl {
    InputRef(InputRef),
    /// A column of a query around this one, `depth` queries out.
    CorrelatedInputRef { index: usize, depth: usize, data_type: DataType },
    Literal(Literal),
    FunctionCall(FunctionCall),
    AggCall(AggCall),
}

/// The type of an expression.
pub open spec fn type_of(e: ExprImpl) -> DataType {
    match e {
        ExprImpl::InputRef(input_ref) => input_ref.data_type,
        ExprImpl::CorrelatedInputRef { data_type, .. } => data_type,
        ExprImpl::Literal(literal) => literal.data_type,
        ExprImpl::FunctionCall(call) => call.return_type,
        ExprImpl::AggCall(call) => call.return_type,
    }
}

/// The types of expressions.
pub open spec fn types_of(exprs: Seq<ExprImpl>) -> Seq<DataType> {
    Seq::new(exprs.len(), |i: int| type_of(exprs[i]))
}

/// A function and the types that it takes and returns.
#[derive(Debug)]
pub struct Signature {
    pub func_type: ExprType,
    pub inputs: Vec<DataType>,
    pub return_type: DataType,
}

/// The signature is that of a call of the function on values of the given types.
pub open spec fn sig_matches(sig: Signature, func_type: ExprType, types: Seq<DataType>) -> bool {
    sig.func_type == func_type && same_types(sig.inputs@, types)
}

/// What a call returns, by the first of the first `n` signatures that matches.
pub open spec fn infer_among(sigs: Seq<Signature>, n: int, func_type: ExprType, types: Seq<DataType>) -> Option<DataType>
    decreases n,
{
    if n <= 0 {
        None
    } else {
        match infer_among(sigs, n - 1, func_type, types) {
            Some(t) => Some(t),
            None => if sig_matches(sigs[n - 1], func_type, types) {
                Some(sigs[n - 1].return_type)
            } else {
                None
            },
        }
    }
}

/// What a call returns, by the first signature that matches.
pub open spec fn infer_type(sigs: Seq<Signature>, func_type: ExprType, types: Seq<DataType>) -> Option<DataType> {
    infer_among(sigs, sigs.len() as int, func_type, types)
}

impl FunctionCall {
    /// A call whose type follows from the signatures; none matches if there is no such call.
    pub fn new(func_type: ExprType, inputs: Vec<ExprImpl>, sigs: &Vec<Signature>) -> (r: Option<FunctionCall>)
        ensures
            match infer_type(sigs@, func_type, types_of(inputs@)) {
                Some(t) => r matches Some(call) && call.func_type == func_type && call.inputs@ == inputs@
                    && call.return_type == t,
                None => r is None,
            },
    {
        let ghost types = types_of(inputs@);
        let mut i: usize = 0;
        while i < sigs.len()
            invariant
                i <= sigs@.len(),
                types == types_of(inputs@),
                infer_among(sigs@, i as int, func_type, types) is None,
            decreases sigs@.len() - i,
        {
            if takes(&sigs[i], func_type, &inputs) {
                proof {
                    lemma_infer_first(sigs@, i as int, sigs@.len() as int, func_type, types);
                }
                let return_type = sigs[i].return_type.copy();
                return Some(FunctionCall { func_type, inputs: Arc::new(inputs), return_type });
            }
            i = i + 1;
        }
        None
    }

    /// A call of a known type.
    pub fn new_with_return_type(func_type: ExprType, inputs: Vec<ExprImpl>, return_type: DataType) -> (r: FunctionCall)
        ensures
            r.func_type == func_type,
            r.inputs@ == inputs@,
            r.return_type == return_type,
    {
        FunctionCall { func_type, inputs: Arc::new(inputs), return_type }
    }

    /// A copy of the call.
    pub fn copy(&self) -> (r: FunctionCall)
        ensures
            r == *self,
    {
        FunctionCall {
            func_type: self.func_type,
            inputs: self.inputs.clone(),
            return_type: self.return_type.copy(),
        }
    }
}

proof fn lemma_infer_first(sigs: Seq<Signature>, i: int, n: int, func_type: ExprType, types: Seq<DataType>)
    requires
        0 <= i < n <= sigs.len(),
        infer_among(sigs, i, func_type, types) is None,
        sig_matches(sigs[i], func_type, types),
    ensures
        infer_among(sigs, n, func_type, types) == Some(sigs[i].return_type),
    decreases n,
{
    if i < n - 1 {
        lemma_infer_first(sigs, i, n - 1, func_type, types);
    }
}

/// Whether the signature is that of a call on the given expressions.
fn takes(sig: &Signature, func_type: ExprType, inputs: &Vec<ExprImpl>) -> (r: bool)
    ensures
        r == sig_matches(*sig, func_type, types_of(inputs@)),
{
    if sig.func_type != func_type || sig.inputs.len() != inputs.len() {
        return false;
    }
    let mut i: usize = 0;
    while i < inputs.len()
        invariant
            i <= inputs@.len(),
            sig.inputs@.len() == inputs@.len(),
            forall|j: int| 0 <= j < i ==> crate::catalog::same_type(#[trigger] sig.inputs@[j], types_of(inputs@)[j]),
        decreases inputs@.len() - i,
    {
        if !sig.inputs[i].same(&inputs[i].return_type()) {
            proof {
                assert(!crate::catalog::same_type(sig.inputs@[i as int], types_of(inputs@)[i as int]));
            }
            return false;
        }
        i = i + 1;
    }
    true
}

impl AggCall {
    /// A copy of the call.
    pub fn copy(&self) -> (r: AggCall)
        ensures
            r == *self,
    {
        AggCall { agg_kind: self.agg_kind, inputs: self.inputs.clone(), return_type: self.return_type.copy() }
    }
}

/// The expression refers to a column of a query around this one.
pub open spec fn is_correlated_expr(e: ExprImpl) -> bool
    decreases e,
{
    match e {
        ExprImpl::InputRef(_) => false,
        ExprImpl::CorrelatedInputRef { .. } => true,
        ExprImpl::Literal(_) => false,
        ExprImpl::FunctionCall(call) => exists|i: int|
            0 <= i < call.inputs@.len() && is_correlated_expr(#[trigger] call.inputs@[i]),
        ExprImpl::AggCall(call) => exists|i: int|
            0 <= i < call.inputs@.len() && is_correlated_expr(#[trigger] call.inputs@[i]),
    }
}

/// The column of the input that an expression reads or picks a field from.
pub open spec fn column_index(e: ExprImpl) -> Option<usize>
    decreases e,
{
    match e {
        ExprImpl::InputRef(input_ref) => Some(input_ref.index),
        ExprImpl::FunctionCall(call) => if call.func_type == ExprType::Field && call.inputs@.len() > 0 {
            column_index(call.inputs@[0])
        } else {
            None
        },
        _ => None,
    }
}

/// The description of what the expression picks out of the column, if it picks
/// an existing field.
pub open spec fn picked_field(e: ExprImpl, column: ColumnDesc) -> Option<ColumnDesc>
    decreases e,
{
    match e {
        ExprImpl::InputRef(_) => Some(column),
        ExprImpl::FunctionCall(call) => if call.func_type == ExprType::Field && call.inputs@.len() == 2 {
            match (picked_field(call.inputs@[0], column), call.inputs@[1]) {
                (
                    Some(outer),
                    ExprImpl::Literal(Literal { data: LiteralValue::Int32(n), .. }),
                ) => if 0 <= n < outer.field_descs@.len() {
                    Some(outer.field_descs@[n as int])
                } else {
                    None
                },
                _ => None,
            }
        } else {
            None
        },
        _ => None,
    }
}

/// Whether any of the expressions is correlated.
pub fn any_correlated(exprs: &Vec<ExprImpl>) -> (r: bool)
    ensures
        r == exists|i: int| 0 <= i < exprs@.len() && is_correlated_expr(#[trigger] exprs@[i]),
    decreases exprs@,
{
    let mut i: usize = 0;
    while i < exprs.len()
        invariant
            i <= exprs@.len(),
            forall|j: int| 0 <= j < i ==> !is_correlated_expr(#[trigger] exprs@[j]),
        decreases exprs@.len() - i,
    {
        if exprs[i].has_correlated_input_ref() {
            return true;
        }
        i = i + 1;
    }
    false
}

impl ExprImpl {
    /// A copy of the expression.
    pub fn copy(&self) -> (r: ExprImpl)
        ensures
            r == *self,
    {
        match self {
            ExprImpl::InputRef(input_ref) => ExprImpl::InputRef(input_ref.copy()),
            ExprImpl::CorrelatedInputRef { index, depth, data_type } => ExprImpl::CorrelatedInputRef {
                index: *index,
                depth: *depth,
                data_type: data_type.copy(),
            },
            ExprImpl::Literal(literal) => ExprImpl::Literal(literal.copy()),
            ExprImpl::FunctionCall(call) => ExprImpl::FunctionCall(call.copy()),
            ExprImpl::AggCall(call) => ExprImpl::AggCall(call.copy()),
        }
    }

    /// The type of the expression.
    pub fn return_type(&self) -> (r: DataType)
        ensures
            r == type_of(*self),
    {
        match self {
            ExprImpl::InputRef(input_ref) => input_ref.data_type.copy(),
            ExprImpl::CorrelatedInputRef { data_type, .. } => data_type.copy(),
            ExprImpl::Literal(literal) => literal.data_type.copy(),
            ExprImpl::FunctionCall(call) => call.return_type.copy(),
            ExprImpl::AggCall(call) => call.return_type.copy(),
        }
    }

    /// Whether the expression refers to a column of a query around this one.
    pub fn has_correlated_input_ref(&self) -> (r: bool)
        ensures
            r == is_correlated_expr(*self),
        decreases *self,
    {
        match self {
            ExprImpl::InputRef(_) => false,
            ExprImpl::CorrelatedInputRef { .. } => true,
            ExprImpl::Literal(_) => false,
            ExprImpl::FunctionCall(call) => any_correlated(&call.inputs),
            ExprImpl::AggCall(call) => any_correlated(&call.inputs),
        }
    }

    /// The column of the input that the expression reads or picks a field from.
    pub fn get_index(&self) -> (r: Option<usize>)
        ensures
            r == column_index(*self),
        decreases *self,
    {
        match self {
            ExprImpl::InputRef(input_ref) => Some(input_ref.index),
            ExprImpl::FunctionCall(call) => {
                if call.func_type == ExprType::Field && call.inputs.len() > 0 {
                    call.inputs[0].get_index()
                } else {
                    None
                }
            },
            _ => None,
        }
    }

    /// The description of what the expression picks out of the column.
    pub fn get_field(&self, column: &ColumnDesc) -> (r: Result<ColumnDesc, ErrorCode>)
        ensures
            match picked_field(*self, *column) {
                Some(desc) => r == Ok::<ColumnDesc, ErrorCode>(desc),
                None => fails(r, ErrorView::BindError("cannot get the field of the column"@)),
            },
        decreases *self,
    {
        match self {
            ExprImpl::InputRef(_) => {
                return Ok(column.copy());
            },
            ExprImpl::FunctionCall(call) => {
                if call.func_type == ExprType::Field && call.inputs.len() == 2 {
                    let outer = call.inputs[0].get_field(column);
                    if let Ok(desc) = &outer {
                        if let ExprImpl::Literal(literal) = &call.inputs[1] {
                            if let LiteralValue::Int32(n) = &literal.data {
                                if *n >= 0 && (*n as usize) < desc.field_descs.len() {
                                    return Ok(desc.field_descs[*n as usize].copy());
                                }
                            }
                        }
                    }
                }
            },
            _ => {},
        }
        Err(ErrorCode::BindError("cannot get the field of the column".to_owned()))
    }
}

/// Copies of expressions.
pub fn copy_exprs(exprs: &Vec<ExprImpl>) -> (r: Vec<ExprImpl>)
    ensures
        r@ == exprs@,
{
    let mut r: Vec<ExprImpl> = Vec::new();
    let mut i: usize = 0;
    while i < exprs.len()
        invariant
            i <= exprs@.len(),
            r@ == exprs@.subrange(0, i as int),
        decreases exprs@.len() - i,
    {
        r.push(exprs[i].copy());
        i = i + 1;
        proof {
            assert(r@ =~= exprs@.subrange(0, i as int));
        }
    }
    proof {
        assert(exprs@.subrange(0, exprs@.len() as int) =~= exprs@);
    }
    r
}

proof fn lemma_infer_among(sigs: Seq<Signature>, n: int, func_type: ExprType, types: Seq<DataType>)
    requires
        0 <= n <= sigs.len(),
    ensures
        match infer_among(sigs, n, func_type, types) {
            Some(t) => exists|i: int|
                0 <= i < n && (#[trigger] sigs[i]).func_type == func_type && same_types(sigs[i].inputs@, types)
                    && sigs[i].return_type == t && forall|j: int|
                    0 <= j < i ==> !((#[trigger] sigs[j]).func_type == func_type && same_types(sigs[j].inputs@, types)),
            None => forall|j: int|
                0 <= j < n ==> !((#[trigger] sigs[j]).func_type == func_type && same_types(sigs[j].inputs@, types)),
        },
    decreases n,
{
    if n > 0 {
        lemma_infer_among(sigs, n - 1, func_type, types);
        if infer_among(sigs, n - 1, func_type, types) is None && sig_matches(sigs[n - 1], func_type, types) {
            assert(sigs[n - 1].func_type == func_type && same_types(sigs[n - 1].inputs@, types));
        }
    }
}

/// A call has the return type of the first signature of its function that takes its arguments; there is
/// no such call if no signature does.
pub proof fn law_first_signature_counts(sigs: Seq<Signature>, func_type: ExprType, types: Seq<DataType>)
    ensures
        match infer_type(sigs, func_type, types) {
            Some(t) => exists|i: int|
                0 <= i < sigs.len() && (#[trigger] sigs[i]).func_type == func_type && same_types(sigs[i].inputs@, types)
                    && sigs[i].return_type == t && forall|j: int|
                    0 <= j < i ==> !((#[trigger] sigs[j]).func_type == func_type && same_types(sigs[j].inputs@, types)),
            None => forall|j: int|
                0 <= j < sigs.len() ==> !((#[trigger] sigs[j]).func_type == func_type && same_types(
                    sigs[j].inputs@,
                    types,
                )),
        },
{
    lemma_infer_among(sigs, sigs.len() as int, func_type, types);
}

/// An expression is correlated exactly if a column of a query around it stands somewhere in it, be it in
/// a function or in an aggregate.
pub proof fn law_correlated_within(call: FunctionCall, agg: AggCall, input: InputRef, literal: Literal, index: usize, depth: usize, t: DataType)
    ensures
        is_correlated_expr(ExprImpl::CorrelatedInputRef { index, depth, data_type: t }),
        !is_correlated_expr(ExprImpl::InputRef(input)),
        !is_correlated_expr(ExprImpl::Literal(literal)),
        is_correlated_expr(ExprImpl::FunctionCall(call)) <==> exists|i: int|
            0 <= i < call.inputs@.len() && is_correlated_expr(#[trigger] call.inputs@[i]),
        is_correlated_expr(ExprImpl::AggCall(agg)) <==> exists|i: int|
            0 <= i < agg.inputs@.len() && is_correlated_expr(#[trigger] agg.inputs@[i]),
{
}

/// A column reads itself, and its description is that of the column; a field of an expression reads what
/// the expression reads, and its description is that of the field at the position that is given. Other
/// calls read no column by themselves.
pub proof fn law_fields_read_their_column(input: InputRef, call: FunctionCall, desc: ColumnDesc)
    ensures
        column_index(ExprImpl::InputRef(input)) == Some(input.index),
        picked_field(ExprImpl::InputRef(input), desc) == Some(desc),
        call.func_type != ExprType::Field ==> column_index(ExprImpl::FunctionCall(call)) is None && picked_field(
            ExprImpl::FunctionCall(call),
            desc,
        ) is None,
        call.func_type == ExprType::Field && call.inputs@.len() == 2 ==> column_index(ExprImpl::FunctionCall(call))
            == column_index(call.inputs@[0]),
        call.func_type == ExprType::Field && call.inputs@.len() == 2 ==> (call.inputs@[1] matches ExprImpl::Literal(
            literal,
        ) ==> (literal.data matches LiteralValue::Int32(n) ==> (picked_field(call.inputs@[0], desc) matches Some(
            outer,
        ) ==> (0 <= n < outer.field_descs@.len() ==> picked_field(ExprImpl::FunctionCall(call), desc) == Some(
            outer.field_descs@[n as int],
        )) && (!(0 <= n < outer.field_descs@.len()) ==> picked_field(ExprImpl::FunctionCall(call), desc) is None)))),
{
    reveal_with_fuel(column_index, 2);
    reveal_with_fuel(picked_field, 2);
}

} // verus!

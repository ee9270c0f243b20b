//! Operators between two expressions.

use vstd::prelude::*;
use vstd::string::StringExecFns;

use crate::catalog::{type_text, DataType};
use crate::common::error::{fails, ErrorCode, ErrorView};
use crate::frontend::binder::Bound;
use crate::frontend::expr::{infer_type, type_of, types_of, ExprImpl, ExprType, FunctionCall, Signature};

verus! {

/// An operator between two expressions.
#[derive(Clone, Copy, Debug, PartialEq, Eq, Structural)]
pub enum BinaryOperator {
    Plus,
    Minus,
    Multiply,
    Divide,
    Modulo,
    StringConcat,
    Gt,
    Lt,
    GtEq,
    LtEq,
    Eq,
    NotEq,
    And,
    Or,
    Xor,
    Like,
    NotLike,
    BitwiseOr,
    BitwiseAnd,
    BitwiseXor,
    PGBitwiseXor,
    PGBitwiseShiftLeft,
    PGBitwiseShiftRight,
}

/// The name of an operator.
pub open spec fn operator_name(op: BinaryOperator) -> Seq<char> {
    match op {
        BinaryOperator::Plus => "Plus"@,
        BinaryOperator::Minus => "Minus"@,
        BinaryOperator::Multiply => "Multiply"@,
        BinaryOperator::Divide => "Divide"@,
        BinaryOperator::Modulo => "Modulo"@,
        BinaryOperator::StringConcat => "StringConcat"@,
        BinaryOperator::Gt => "Gt"@,
        BinaryOperator::Lt => "Lt"@,
        BinaryOperator::GtEq => "GtEq"@,
        BinaryOperator::LtEq => "LtEq"@,
        BinaryOperator::Eq => "Eq"@,
        BinaryOperator::NotEq => "NotEq"@,
        BinaryOperator::And => "And"@,
        BinaryOperator::Or => "Or"@,
        BinaryOperator::Xor => "Xor"@,
        BinaryOperator::Like => "Like"@,
        BinaryOperator::NotLike => "NotLike"@,
        BinaryOperator::BitwiseOr => "BitwiseOr"@,
        BinaryOperator::BitwiseAnd => "BitwiseAnd"@,
        BinaryOperator::BitwiseXor => "BitwiseXor"@,
        BinaryOperator::PGBitwiseXor => "PGBitwiseXor"@,
        BinaryOperator::PGBitwiseShiftLeft => "PGBitwiseShiftLeft"@,
        BinaryOperator::PGBitwiseShiftRight => "PGBitwiseShiftRight"@,
    }
}

/// The name of an operator.
pub fn operator_text(op: BinaryOperator) -> (r: &'static str)
    ensures
        r@ == operator_name(op),
{
    match op {
        BinaryOperator::Plus => "Plus",
        BinaryOperator::Minus => "Minus",
        BinaryOperator::Multiply => "Multiply",
        BinaryOperator::Divide => "Divide",
        BinaryOperator::Modulo => "Modulo",
        BinaryOperator::StringConcat => "StringConcat",
        BinaryOperator::Gt => "Gt",
        BinaryOperator::Lt => "Lt",
        BinaryOperator::GtEq => "GtEq",
        BinaryOperator::LtEq => "LtEq",
        BinaryOperator::Eq => "Eq",
        BinaryOperator::NotEq => "NotEq",
        BinaryOperator::And => "And",
        BinaryOperator::Or => "Or",
        BinaryOperator::Xor => "Xor",
        BinaryOperator::Like => "Like",
        BinaryOperator::NotLike => "NotLike",
        BinaryOperator::BitwiseOr => "BitwiseOr",
        BinaryOperator::BitwiseAnd => "BitwiseAnd",
        BinaryOperator::BitwiseXor => "BitwiseXor",
        BinaryOperator::PGBitwiseXor => "PGBitwiseXor",
        BinaryOperator::PGBitwiseShiftLeft => "PGBitwiseShiftLeft",
        BinaryOperator::PGBitwiseShiftRight => "PGBitwiseShiftRight",
    }
}

/// The function that an operator stands for.
pub open spec fn function_of(op: BinaryOperator) -> Option<ExprType> {
    match op {
        BinaryOperator::Plus => Some(ExprType::Add),
        BinaryOperator::Minus => Some(ExprType::Subtract),
        BinaryOperator::Multiply => Some(ExprType::Multiply),
        BinaryOperator::Divide => Some(ExprType::Divide),
        BinaryOperator::Modulo => Some(ExprType::Modulus),
        _ => None,
    }
}

/// The error of two expressions between which the operator cannot stand.
pub open spec fn no_operator(left: DataType, op: BinaryOperator, right: DataType) -> ErrorView {
    ErrorView::NotImplementedError(
        type_text(left) + " "@ + operator_name(op) + " "@ + type_text(right),
    )
}

/// The first error of an operator between two expressions.
pub open spec fn binary_error(left: Bound, op: BinaryOperator, right: Bound, sigs: Seq<Signature>) -> Option<ErrorView> {
    match (left, right) {
        (Err(e), _) => Some(e@),
        (Ok(_), Err(e)) => Some(e@),
        (Ok(l), Ok(r)) => match function_of(op) {
            None => Some(ErrorView::NotImplementedError(operator_name(op))),
            Some(f) => if infer_type(sigs, f, types_of(seq![l, r])) is None {
                Some(no_operator(type_of(l), op, type_of(r)))
            } else {
                None
            },
        },
    }
}

/// Binds an operator between two expressions, given what the binding of each gave.
pub fn bind_binary_op(left: Bound, op: BinaryOperator, right: Bound, sigs: &Vec<Signature>) -> (r: Result<
    FunctionCall,
    ErrorCode,
>)
    ensures
        match binary_error(left, op, right, sigs@) {
            Some(e) => fails(r, e),
            None => {
                &&& r matches Ok(call)
                &&& Some(call.func_type) == function_of(op)
                &&& call.inputs@ == seq![left->Ok_0, right->Ok_0]
                &&& Some(call.return_type) == infer_type(sigs@, call.func_type, types_of(call.inputs@))
            },
        },
{
    let bound_left = match left {
        Ok(e) => e,
        Err(e) => {
            return Err(e);
        },
    };
    let bound_right = match right {
        Ok(e) => e,
        Err(e) => {
            return Err(e);
        },
    };
    let func_type = match op {
        BinaryOperator::Plus => ExprType::Add,
        BinaryOperator::Minus => ExprType::Subtract,
        BinaryOperator::Multiply => ExprType::Multiply,
        BinaryOperator::Divide => ExprType::Divide,
        BinaryOperator::Modulo => ExprType::Modulus,
        _ => {
            return Err(ErrorCode::NotImplementedError(operator_text(op).to_owned()));
        },
    };
    let mut desc = bound_left.return_type().to_text();
    desc.append(" ");
    desc.append(operator_text(op));
    desc.append(" ");
    desc.append(bound_right.return_type().to_text().as_str());
    let mut inputs: Vec<ExprImpl> = Vec::new();
    inputs.push(bound_left);
    inputs.push(bound_right);
    proof {
        assert(inputs@ =~= seq![left->Ok_0, right->Ok_0]);
    }
    match FunctionCall::new(func_type, inputs, sigs) {
        Some(call) => Ok(call),
        None => Err(ErrorCode::NotImplementedError(desc)),
    }
}

/// The operators of arithmetic stand for the functions of arithmetic; no other operator is bound.
pub proof fn law_operators_of_arithmetic(left: ExprImpl, op: BinaryOperator, right: ExprImpl, sigs: Seq<Signature>)
    ensures
        function_of(BinaryOperator::Plus) == Some(ExprType::Add),
        function_of(BinaryOperator::Minus) == Some(ExprType::Subtract),
        function_of(BinaryOperator::Multiply) == Some(ExprType::Multiply),
        function_of(BinaryOperator::Divide) == Some(ExprType::Divide),
        function_of(BinaryOperator::Modulo) == Some(ExprType::Modulus),
        op != BinaryOperator::Plus && op != BinaryOperator::Minus && op != BinaryOperator::Multiply && op
            != BinaryOperator::Divide && op != BinaryOperator::Modulo ==> binary_error(Ok(left), op, Ok(right), sigs) is Some,
{
}

/// The error of the left expression comes before that of the right one, and both come before an operator
/// that cannot stand between them.
pub proof fn law_left_error_comes_first(left: Bound, op: BinaryOperator, right: Bound, sigs: Seq<Signature>)
    ensures
        left matches Err(e) ==> binary_error(left, op, right, sigs) == Some(e@),
        left is Ok ==> (right matches Err(e) ==> binary_error(left, op, right, sigs) == Some(e@)),
        binary_error(left, op, right, sigs) is None ==> left is Ok && right is Ok && function_of(op) is Some && infer_type(
            sigs,
            function_of(op)->0,
            types_of(seq![left->Ok_0, right->Ok_0]),
        ) is Some,
{
}

/// An operator that does not take its operands is named between their types.
pub proof fn law_missing_operator_is_named(left: DataType, op: BinaryOperator, right: DataType)
    ensures
        no_operator(left, op, right) == ErrorView::NotImplementedError(
            type_text(left) + " "@ + operator_name(op) + " "@ + type_text(right),
        ),
{
}

} // verus!

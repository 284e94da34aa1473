//! Binary operators.

use crate::tesla::expressions::{BinaryOperator, Value, ValueModel};
use crate::tesla::number::{
    canonical,
    ieee_difference,
    ieee_product,
    ieee_quotient,
    ieee_sum,
    less,
    same_number,
};
use crate::trex::operations::{agrees, EvalError, Outcome};
use vstd::prelude::*;
use vstd::string::StringExecFns;

verus! {

/// `a` comes before `b` in the order of strings: character by character, and
/// a proper prefix comes first.
pub open spec fn text_before(a: Seq<char>, b: Seq<char>) -> bool
    decreases a.len(),
{
    if b.len() == 0 {
        false
    } else if a.len() == 0 {
        true
    } else if a[0] != b[0] {
        (a[0] as u32) < (b[0] as u32)
    } else {
        text_before(a.drop_first(), b.drop_first())
    }
}

/// The operator `<` of `String`: strings are ordered character by character,
/// by code point, and a proper prefix comes first.
#[verifier::external_body]
fn string_before(a: &String, b: &String) -> (before: bool)
    ensures
        before == text_before(a@, b@),
{
    a < b
}

/// An integer result, or the overflow that `None` stands for.
pub open spec fn integer(result: Option<i64>) -> Outcome {
    match result {
        Some(x) => Ok(ValueModel::Int(x)),
        None => Err(EvalError::Overflow),
    }
}

/// The sum of two numbers, or the concatenation of two strings.
pub open spec fn plus_model(left: ValueModel, right: ValueModel) -> Outcome {
    match (left, right) {
        (ValueModel::Int(a), ValueModel::Int(b)) => integer(a.checked_add(b)),
        (ValueModel::Float(a), ValueModel::Float(b)) => Ok(
            ValueModel::Float(canonical(ieee_sum(a, b))),
        ),
        (ValueModel::Str(a), ValueModel::Str(b)) => Ok(ValueModel::Str(a + b)),
        _ => Err(EvalError::WrongOperands),
    }
}

/// The difference of two numbers.
pub open spec fn minus_model(left: ValueModel, right: ValueModel) -> Outcome {
    match (left, right) {
        (ValueModel::Int(a), ValueModel::Int(b)) => integer(a.checked_sub(b)),
        (ValueModel::Float(a), ValueModel::Float(b)) => Ok(
            ValueModel::Float(canonical(ieee_difference(a, b))),
        ),
        _ => Err(EvalError::WrongOperands),
    }
}

/// The product of two numbers.
pub open spec fn times_model(left: ValueModel, right: ValueModel) -> Outcome {
    match (left, right) {
        (ValueModel::Int(a), ValueModel::Int(b)) => integer(a.checked_mul(b)),
        (ValueModel::Float(a), ValueModel::Float(b)) => Ok(
            ValueModel::Float(canonical(ieee_product(a, b))),
        ),
        _ => Err(EvalError::WrongOperands),
    }
}

/// The quotient of two numbers; that of two integers is rounded towards zero.
pub open spec fn division_model(left: ValueModel, right: ValueModel) -> Outcome {
    match (left, right) {
        (ValueModel::Int(a), ValueModel::Int(b)) => if b == 0 {
            Err(EvalError::DivisionByZero)
        } else {
            integer(a.checked_div(b))
        },
        (ValueModel::Float(a), ValueModel::Float(b)) => Ok(
            ValueModel::Float(canonical(ieee_quotient(a, b))),
        ),
        _ => Err(EvalError::WrongOperands),
    }
}

/// Whether two values of one type are equal.
pub open spec fn equal_model(left: ValueModel, right: ValueModel) -> Outcome {
    match (left, right) {
        (ValueModel::Int(a), ValueModel::Int(b)) => Ok(ValueModel::Bool(a == b)),
        (ValueModel::Float(a), ValueModel::Float(b)) => Ok(ValueModel::Bool(same_number(a, b))),
        (ValueModel::Bool(a), ValueModel::Bool(b)) => Ok(ValueModel::Bool(a == b)),
        (ValueModel::Str(a), ValueModel::Str(b)) => Ok(ValueModel::Bool(a == b)),
        _ => Err(EvalError::WrongOperands),
    }
}

/// Whether two values of one type differ.
pub open spec fn not_equal_model(left: ValueModel, right: ValueModel) -> Outcome {
    match (left, right) {
        (ValueModel::Int(a), ValueModel::Int(b)) => Ok(ValueModel::Bool(a != b)),
        (ValueModel::Float(a), ValueModel::Float(b)) => Ok(ValueModel::Bool(!same_number(a, b))),
        (ValueModel::Bool(a), ValueModel::Bool(b)) => Ok(ValueModel::Bool(a != b)),
        (ValueModel::Str(a), ValueModel::Str(b)) => Ok(ValueModel::Bool(a != b)),
        _ => Err(EvalError::WrongOperands),
    }
}

/// Whether the left value is lower than the right one.
pub open spec fn lower_than_model(left: ValueModel, right: ValueModel) -> Outcome {
    match (left, right) {
        (ValueModel::Int(a), ValueModel::Int(b)) => Ok(ValueModel::Bool(a < b)),
        (ValueModel::Float(a), ValueModel::Float(b)) => Ok(ValueModel::Bool(less(a, b))),
        (ValueModel::Str(a), ValueModel::Str(b)) => Ok(ValueModel::Bool(text_before(a, b))),
        _ => Err(EvalError::WrongOperands),
    }
}

/// Whether the left value is lower than the right one, or equal to it.
pub open spec fn lower_equal_model(left: ValueModel, right: ValueModel) -> Outcome {
    match (left, right) {
        (ValueModel::Int(a), ValueModel::Int(b)) => Ok(ValueModel::Bool(a <= b)),
        (ValueModel::Float(a), ValueModel::Float(b)) => Ok(
            ValueModel::Bool(less(a, b) || same_number(a, b)),
        ),
        (ValueModel::Str(a), ValueModel::Str(b)) => Ok(ValueModel::Bool(!text_before(b, a))),
        _ => Err(EvalError::WrongOperands),
    }
}

/// What a binary operator gives for two operands.
pub open spec fn apply_model(
    operator: BinaryOperator,
    left: ValueModel,
    right: ValueModel,
) -> Outcome {
    match operator {
        BinaryOperator::Plus => plus_model(left, right),
        BinaryOperator::Minus => minus_model(left, right),
        BinaryOperator::Times => times_model(left, right),
        BinaryOperator::Division => division_model(left, right),
        BinaryOperator::Equal => equal_model(left, right),
        BinaryOperator::NotEqual => not_equal_model(left, right),
        BinaryOperator::GreaterThan => lower_than_model(right, left),
        BinaryOperator::GreaterEqual => lower_equal_model(right, left),
        BinaryOperator::LowerThan => lower_than_model(left, right),
        BinaryOperator::LowerEqual => lower_equal_model(left, right),
    }
}

fn integer_result(result: Option<i64>) -> (value: Result<Value, EvalError>)
    ensures
        agrees(value, integer(result)),
{
    match result {
        Some(x) => Ok(Value::Int(x)),
        None => Err(EvalError::Overflow),
    }
}

fn plus(left: &Value, right: &Value) -> (result: Result<Value, EvalError>)
    ensures
        agrees(result, plus_model(left.deep_view(), right.deep_view())),
{
    match (left, right) {
        (Value::Int(a), Value::Int(b)) => integer_result(a.checked_add(*b)),
        (Value::Float(a), Value::Float(b)) => Ok(Value::Float(a.plus(b))),
        (Value::Str(a), Value::Str(b)) => {
            let joined = a.clone().concat(b.as_str());
            Ok(Value::Str(joined))
        },
        _ => Err(EvalError::WrongOperands),
    }
}

fn minus(left: &Value, right: &Value) -> (result: Result<Value, EvalError>)
    ensures
        agrees(result, minus_model(left.deep_view(), right.deep_view())),
{
    match (left, right) {
        (Value::Int(a), Value::Int(b)) => integer_result(a.checked_sub(*b)),
        (Value::Float(a), Value::Float(b)) => Ok(Value::Float(a.minus(b))),
        _ => Err(EvalError::WrongOperands),
    }
}

fn times(left: &Value, right: &Value) -> (result: Result<Value, EvalError>)
    ensures
        agrees(result, times_model(left.deep_view(), right.deep_view())),
{
    match (left, right) {
        (Value::Int(a), Value::Int(b)) => integer_result(a.checked_mul(*b)),
        (Value::Float(a), Value::Float(b)) => Ok(Value::Float(a.times(b))),
        _ => Err(EvalError::WrongOperands),
    }
}

fn division(left: &Value, right: &Value) -> (result: Result<Value, EvalError>)
    ensures
        agrees(result, division_model(left.deep_view(), right.deep_view())),
{
    match (left, right) {
        (Value::Int(a), Value::Int(b)) => {
            if *b == 0 {
                Err(EvalError::DivisionByZero)
            } else {
                integer_result(a.checked_div(*b))
            }
        },
        (Value::Float(a), Value::Float(b)) => Ok(Value::Float(a.divided_by(b))),
        _ => Err(EvalError::WrongOperands),
    }
}

fn equal(left: &Value, right: &Value) -> (result: Result<Value, EvalError>)
    ensures
        agrees(result, equal_model(left.deep_view(), right.deep_view())),
{
    match (left, right) {
        (Value::Int(a), Value::Int(b)) => Ok(Value::Bool(*a == *b)),
        (Value::Float(a), Value::Float(b)) => Ok(Value::Bool(a.same_number(b))),
        (Value::Bool(a), Value::Bool(b)) => Ok(Value::Bool(*a == *b)),
        (Value::Str(a), Value::Str(b)) => Ok(Value::Bool(*a == *b)),
        _ => Err(EvalError::WrongOperands),
    }
}

fn not_equal(left: &Value, right: &Value) -> (result: Result<Value, EvalError>)
    ensures
        agrees(result, not_equal_model(left.deep_view(), right.deep_view())),
{
    match (left, right) {
        (Value::Int(a), Value::Int(b)) => Ok(Value::Bool(*a != *b)),
        (Value::Float(a), Value::Float(b)) => Ok(Value::Bool(!a.same_number(b))),
        (Value::Bool(a), Value::Bool(b)) => Ok(Value::Bool(*a != *b)),
        (Value::Str(a), Value::Str(b)) => Ok(Value::Bool(!(*a == *b))),
        _ => Err(EvalError::WrongOperands),
    }
}

fn lower_than(left: &Value, right: &Value) -> (result: Result<Value, EvalError>)
    ensures
        agrees(result, lower_than_model(left.deep_view(), right.deep_view())),
{
    match (left, right) {
        (Value::Int(a), Value::Int(b)) => Ok(Value::Bool(*a < *b)),
        (Value::Float(a), Value::Float(b)) => Ok(Value::Bool(a.less_than(b))),
        (Value::Str(a), Value::Str(b)) => Ok(Value::Bool(string_before(a, b))),
        _ => Err(EvalError::WrongOperands),
    }
}

fn lower_equal(left: &Value, right: &Value) -> (result: Result<Value, EvalError>)
    ensures
        agrees(result, lower_equal_model(left.deep_view(), right.deep_view())),
{
    match (left, right) {
        (Value::Int(a), Value::Int(b)) => Ok(Value::Bool(*a <= *b)),
        (Value::Float(a), Value::Float(b)) => Ok(
            Value::Bool(a.less_than(b) || a.same_number(b)),
        ),
        (Value::Str(a), Value::Str(b)) => Ok(Value::Bool(!string_before(b, a))),
        _ => Err(EvalError::WrongOperands),
    }
}

fn greater_than(left: &Value, right: &Value) -> (result: Result<Value, EvalError>)
    ensures
        agrees(result, lower_than_model(right.deep_view(), left.deep_view())),
{
    lower_than(right, left)
}

fn greater_equal(left: &Value, right: &Value) -> (result: Result<Value, EvalError>)
    ensures
        agrees(result, lower_equal_model(right.deep_view(), left.deep_view())),
{
    lower_equal(right, left)
}

/// Applies a binary operator. Arithmetic takes two integers or two floats,
/// `+` also two strings; the ordered comparisons take two integers, two floats
/// or two strings; equality takes two values of any one type.
pub fn apply(operator: &BinaryOperator, left: &Value, right: &Value) -> (result: Result<
    Value,
    EvalError,
>)
    ensures
        agrees(result, apply_model(*operator, left.deep_view(), right.deep_view())),
{
    match operator {
        BinaryOperator::Plus => plus(left, right),
        BinaryOperator::Minus => minus(left, right),
        BinaryOperator::Times => times(left, right),
        BinaryOperator::Division => division(left, right),
        BinaryOperator::Equal => equal(left, right),
        BinaryOperator::NotEqual => not_equal(left, right),
        BinaryOperator::GreaterThan => greater_than(left, right),
        BinaryOperator::GreaterEqual => greater_equal(left, right),
        BinaryOperator::LowerThan => lower_than(left, right),
        BinaryOperator::LowerEqual => lower_equal(left, right),
    }
}

} // verus!

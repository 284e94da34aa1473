//! Unary operators.

use crate::tesla::expressions::{UnaryOperator, Value, ValueModel};
use crate::tesla::number::{canonical, negated};
use crate::trex::operations::{agrees, EvalError, Outcome};
use vstd::prelude::*;

verus! {

/// The algebraic negation of a number.
pub open spec fn minus_model(value: ValueModel) -> Outcome {
    match value {
        ValueModel::Int(x) => if x == i64::MIN {
            Err(EvalError::Overflow)
        } else {
            Ok(ValueModel::Int((-x) as i64))
        },
        ValueModel::Float(x) => Ok(ValueModel::Float(canonical(negated(x)))),
        _ => Err(EvalError::WrongOperands),
    }
}

/// The negation of a boolean.
pub open spec fn not_model(value: ValueModel) -> Outcome {
    match value {
        ValueModel::Bool(x) => Ok(ValueModel::Bool(!x)),
        _ => Err(EvalError::WrongOperands),
    }
}

/// What a unary operator gives for an operand.
pub open spec fn apply_model(operator: UnaryOperator, value: ValueModel) -> Outcome {
    match operator {
        UnaryOperator::Minus => minus_model(value),
        UnaryOperator::Not => not_model(value),
    }
}

fn minus(value: &Value) -> (result: Result<Value, EvalError>)
    ensures
        agrees(result, minus_model(value.deep_view())),
{
    match value {
        Value::Int(x) => {
            if *x == i64::MIN {
                Err(EvalError::Overflow)
            } else {
                Ok(Value::Int(-*x))
            }
        },
        Value::Float(x) => Ok(Value::Float(x.negate())),
        _ => Err(EvalError::WrongOperands),
    }
}

fn not(value: &Value) -> (result: Result<Value, EvalError>)
    ensures
        agrees(result, not_model(value.deep_view())),
{
    match value {
        Value::Bool(x) => Ok(Value::Bool(!*x)),
        _ => Err(EvalError::WrongOperands),
    }
}

/// Applies a unary operator: the negation of a number, or of a boolean.
pub fn apply(operator: &UnaryOperator, value: &Value) -> (result: Result<Value, EvalError>)
    ensures
        agrees(result, apply_model(*operator, value.deep_view())),
{
    match operator {
        UnaryOperator::Minus => minus(value),
        UnaryOperator::Not => not(value),
    }
}

} // verus!

//! The types of unary operations.

use crate::tesla::expressions::{BasicType, UnaryOperator};
use crate::trex::types::TypeError;
use vstd::prelude::*;

verus! {

/// The type that a unary operator gives for an operand of the given type.
pub open spec fn type_model(operator: UnaryOperator, ty: BasicType) -> Result<
    BasicType,
    TypeError,
> {
    match operator {
        UnaryOperator::Minus => match ty {
            BasicType::Int => Ok(BasicType::Int),
            BasicType::Float => Ok(BasicType::Float),
            _ => Err(TypeError::WrongUnaryOperand),
        },
        UnaryOperator::Not => match ty {
            BasicType::Bool => Ok(BasicType::Bool),
            _ => Err(TypeError::WrongUnaryOperand),
        },
    }
}

/// The type of a unary operation: minus keeps the type of a number, not
/// that of a boolean.
pub fn get_type(operator: &UnaryOperator, ty: &BasicType) -> (result: Result<
    BasicType,
    TypeError,
>)
    ensures
        result == type_model(*operator, *ty),
{
    match operator {
        UnaryOperator::Minus => match ty {
            BasicType::Int => Ok(BasicType::Int),
            BasicType::Float => Ok(BasicType::Float),
            _ => Err(TypeError::WrongUnaryOperand),
        },
        UnaryOperator::Not => match ty {
            BasicType::Bool => Ok(BasicType::Bool),
            _ => Err(TypeError::WrongUnaryOperand),
        },
    }
}

} // verus!

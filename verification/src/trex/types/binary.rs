//! The types of binary operations.

use crate::tesla::expressions::{BasicType, BinaryOperator};
use crate::trex::types::TypeError;
use vstd::prelude::*;

verus! {

/// The type that a binary operator gives for operands of the given types.
pub open spec fn type_model(operator: BinaryOperator, left: BasicType, right: BasicType) -> Result<
    BasicType,
    TypeError,
> {
    match operator {
        BinaryOperator::Plus => match (left, right) {
            (BasicType::Int, BasicType::Int) => Ok(BasicType::Int),
            (BasicType::Float, BasicType::Float) => Ok(BasicType::Float),
            (BasicType::Str, BasicType::Str) => Ok(BasicType::Str),
            _ => Err(TypeError::WrongBinaryOperands),
        },
        BinaryOperator::Minus | BinaryOperator::Times | BinaryOperator::Division => match (
            left,
            right,
        ) {
            (BasicType::Int, BasicType::Int) => Ok(BasicType::Int),
            (BasicType::Float, BasicType::Float) => Ok(BasicType::Float),
            _ => Err(TypeError::WrongBinaryOperands),
        },
        BinaryOperator::Equal | BinaryOperator::NotEqual => if left == right {
            Ok(BasicType::Bool)
        } else {
            Err(TypeError::WrongBinaryOperands)
        },
        _ => match (left, right) {
            (BasicType::Int, BasicType::Int) => Ok(BasicType::Bool),
            (BasicType::Float, BasicType::Float) => Ok(BasicType::Bool),
            (BasicType::Str, BasicType::Str) => Ok(BasicType::Bool),
            _ => Err(TypeError::WrongBinaryOperands),
        },
    }
}

/// The type of a binary operation. Arithmetic takes two integers or two
/// floats and keeps their type, `+` also two strings; equality takes two
/// operands of one type; the ordered comparisons take two integers, two
/// floats or two strings.
pub fn get_type(operator: &BinaryOperator, left: &BasicType, right: &BasicType) -> (result:
    Result<BasicType, TypeError>)
    ensures
        result == type_model(*operator, *left, *right),
{
    match operator {
        BinaryOperator::Plus => match (left, right) {
            (BasicType::Int, BasicType::Int) => Ok(BasicType::Int),
            (BasicType::Float, BasicType::Float) => Ok(BasicType::Float),
            (BasicType::Str, BasicType::Str) => Ok(BasicType::Str),
            _ => Err(TypeError::WrongBinaryOperands),
        },
        BinaryOperator::Minus | BinaryOperator::Times | BinaryOperator::Division => match (
            left,
            right,
        ) {
            (BasicType::Int, BasicType::Int) => Ok(BasicType::Int),
            (BasicType::Float, BasicType::Float) => Ok(BasicType::Float),
            _ => Err(TypeError::WrongBinaryOperands),
        },
        BinaryOperator::Equal | BinaryOperator::NotEqual => {
            if *left == *right {
                Ok(BasicType::Bool)
            } else {
                Err(TypeError::WrongBinaryOperands)
            }
        },
        _ => match (left, right) {
            (BasicType::Int, BasicType::Int) => Ok(BasicType::Bool),
            (BasicType::Float, BasicType::Float) => Ok(BasicType::Bool),
            (BasicType::Str, BasicType::Str) => Ok(BasicType::Bool),
            _ => Err(TypeError::WrongBinaryOperands),
        },
    }
}

} // verus!

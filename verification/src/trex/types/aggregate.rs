//! The types of aggregates.

use crate::tesla::expressions::BasicType;
use crate::tesla::predicates::Aggregator;
use crate::tesla::TupleDeclaration;
use crate::trex::types::TypeError;
use vstd::prelude::*;

verus! {

/// The type of a number, where the attribute is declared as one.
pub open spec fn number_at(tuple: TupleDeclaration, attribute: usize) -> Result<
    BasicType,
    TypeError,
> {
    if attribute >= tuple.attributes@.len() {
        Err(TypeError::AttributeOutOfBound)
    } else {
        match tuple.attributes@[attribute as int].ty {
            BasicType::Int => Ok(BasicType::Int),
            BasicType::Float => Ok(BasicType::Float),
            _ => Err(TypeError::WrongAggregateAttribute),
        }
    }
}

/// The type that an aggregate gives over the tuples of a declaration.
pub open spec fn type_model(aggregator: Aggregator, tuple: TupleDeclaration) -> Result<
    BasicType,
    TypeError,
> {
    match aggregator {
        Aggregator::Avg(attribute) => match number_at(tuple, attribute) {
            Ok(_) => Ok(BasicType::Float),
            Err(error) => Err(error),
        },
        Aggregator::Sum(attribute) => number_at(tuple, attribute),
        Aggregator::Min(attribute) => number_at(tuple, attribute),
        Aggregator::Max(attribute) => number_at(tuple, attribute),
        Aggregator::Count => Ok(BasicType::Int),
    }
}

fn number_type(tuple: &TupleDeclaration, attribute: usize) -> (result: Result<
    BasicType,
    TypeError,
>)
    ensures
        result == number_at(*tuple, attribute),
{
    if attribute >= tuple.attributes.len() {
        Err(TypeError::AttributeOutOfBound)
    } else {
        match tuple.attributes[attribute].ty {
            BasicType::Int => Ok(BasicType::Int),
            BasicType::Float => Ok(BasicType::Float),
            _ => Err(TypeError::WrongAggregateAttribute),
        }
    }
}

/// The type of an aggregate: the average of a number is a float; sum,
/// minimum and maximum have the type of the number; the count is an integer.
pub fn get_type(aggregator: &Aggregator, tuple: &TupleDeclaration) -> (result: Result<
    BasicType,
    TypeError,
>)
    ensures
        result == type_model(*aggregator, *tuple),
{
    match aggregator {
        Aggregator::Avg(attribute) => match number_type(tuple, *attribute) {
            Ok(_) => Ok(BasicType::Float),
            Err(error) => Err(error),
        },
        Aggregator::Sum(attribute) => number_type(tuple, *attribute),
        Aggregator::Min(attribute) => number_type(tuple, *attribute),
        Aggregator::Max(attribute) => number_type(tuple, *attribute),
        Aggregator::Count => Ok(BasicType::Int),
    }
}

} // verus!

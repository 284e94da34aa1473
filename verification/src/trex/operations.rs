//! The operators of the expression language, applied to values.

pub mod binary;
pub mod unary;

use crate::tesla::expressions::{Value, ValueModel};
use vstd::prelude::*;

verus! {

/// Why the evaluation of an expression failed.
#[derive(Clone, Copy, Debug, PartialEq, Eq, Structural)]
pub enum EvalError {
    /// An operator or a cast was applied to operands of the wrong type.
    WrongOperands,
    /// An integer operation left the range of 64 bits.
    Overflow,
    /// An integer was divided by zero.
    DivisionByZero,
    /// An attribute was referred to that the context does not have.
    MissingAttribute,
    /// An aggregate was referred to that the context does not have.
    MissingAggregate,
    /// A parameter was referred to that the context cannot resolve.
    MissingParameter,
    /// A time was taken of a predicate that has bound no event.
    MissingEvent,
    /// A constraint or a filter gave a value that is no boolean.
    NotBoolean,
}

/// What an evaluation gives: a value, as its model, or the reason of the failure.
pub type Outcome = Result<ValueModel, EvalError>;

/// An evaluation gave what its model says.
pub open spec fn agrees(result: Result<Value, EvalError>, outcome: Outcome) -> bool {
    match result {
        Ok(value) => outcome == Ok::<ValueModel, EvalError>(value.deep_view()),
        Err(error) => outcome == Err::<ValueModel, EvalError>(error),
    }
}

} // verus!

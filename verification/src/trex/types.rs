//! The types of expressions.

pub mod aggregate;
pub mod binary;
pub mod inference;
pub mod unary;

use vstd::prelude::*;

verus! {

/// Why a rule is refused.
#[derive(Clone, Copy, Debug, PartialEq, Eq, Structural)]
pub enum TypeError {
    /// A unary operator is applied to an operand of the wrong type.
    WrongUnaryOperand,
    /// A binary operator is applied to operands of the wrong types.
    WrongBinaryOperands,
    /// An aggregate is computed on an attribute that is no number.
    WrongAggregateAttribute,
    /// An attribute is referred to that the tuple does not have.
    AttributeOutOfBound,
    /// An attribute is referred to where there is no tuple.
    NoTuple,
    /// An aggregate is referred to where there is none.
    NoAggregate,
    /// A parameter is referred to that no earlier definition gives.
    NoSuchParameter,
    /// A cast is asked for that is not from an integer to a float.
    BadCast,
    /// A constraint or a filter is no boolean.
    NonBooleanConstraint,
    /// A predicate refers to a tuple that is not declared.
    UnknownTuple,
    /// The rule emits an event that is not declared.
    UnknownEvent,
    /// The rule emits a static tuple.
    StaticTemplate,
    /// The template has not as many attributes as the event that it emits.
    WrongTemplateArity,
    /// The template gives an attribute a value of another type.
    WrongAttributeAssignment,
}

impl TypeError {
    /// The reason in words.
    pub open spec fn words(self) -> Seq<char> {
        match self {
            TypeError::WrongUnaryOperand => "Wrong operand type in unary operation"@,
            TypeError::WrongBinaryOperands => "Wrong operands type in binary operation"@,
            TypeError::WrongAggregateAttribute => "Wrong attribute type in aggregate computation"@,
            TypeError::AttributeOutOfBound => "Attribute out of bound"@,
            TypeError::NoTuple => "Cannot get attribute without a tuple"@,
            TypeError::NoAggregate => "Cannot get aggregate"@,
            TypeError::NoSuchParameter => "No such parameter"@,
            TypeError::BadCast => "Bad cast"@,
            TypeError::NonBooleanConstraint => "Non boolean contraint"@,
            TypeError::UnknownTuple => "Predicate refers to unknown tuple"@,
            TypeError::UnknownEvent => "The rule produce an unknown event"@,
            TypeError::StaticTemplate => "The rule produce a static tuple"@,
            TypeError::WrongTemplateArity => "Wrong number of attributes in event template"@,
            TypeError::WrongAttributeAssignment => "Wrong attribute assignment"@,
        }
    }

    /// The reason in words.
    pub fn message(&self) -> (text: &'static str)
        ensures
            text@ == self.words(),
    {
        match self {
            TypeError::WrongUnaryOperand => "Wrong operand type in unary operation",
            TypeError::WrongBinaryOperands => "Wrong operands type in binary operation",
            TypeError::WrongAggregateAttribute => "Wrong attribute type in aggregate computation",
            TypeError::AttributeOutOfBound => "Attribute out of bound",
            TypeError::NoTuple => "Cannot get attribute without a tuple",
            TypeError::NoAggregate => "Cannot get aggregate",
            TypeError::NoSuchParameter => "No such parameter",
            TypeError::BadCast => "Bad cast",
            TypeError::NonBooleanConstraint => "Non boolean contraint",
            TypeError::UnknownTuple => "Predicate refers to unknown tuple",
            TypeError::UnknownEvent => "The rule produce an unknown event",
            TypeError::StaticTemplate => "The rule produce a static tuple",
            TypeError::WrongTemplateArity => "Wrong number of attributes in event template",
            TypeError::WrongAttributeAssignment => "Wrong attribute assignment",
        }
    }
}

} // verus!

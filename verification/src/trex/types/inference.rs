//! The inference of the type of an expression.

use crate::tesla::expressions::{BasicType, Expression};
use crate::tesla::TupleDeclaration;
use crate::trex::collections::{get_type_of, insert_type, new_types, types_in, ParameterTypes};
use crate::trex::types::{binary, unary, TypeError};
use vstd::prelude::*;

verus! {

/// What an expression refers to besides the parameters: nothing, an
/// aggregate of a given type, or the tuples of a declaration.
#[derive(Debug)]
pub enum CurrentType<'a> {
    /// Nothing.
    Empty,
    /// An aggregate of the given type.
    Aggr(BasicType),
    /// The tuples of the given declaration.
    Tuple(&'a TupleDeclaration),
}

impl<'a> Clone for CurrentType<'a> {
    fn clone(&self) -> (copy: CurrentType<'a>)
        ensures
            copy == *self,
    {
        match self {
            CurrentType::Empty => CurrentType::Empty,
            CurrentType::Aggr(ty) => CurrentType::Aggr(*ty),
            CurrentType::Tuple(tuple) => CurrentType::Tuple(*tuple),
        }
    }
}

/// The type of an expression, given the types of the parameters and what
/// the expression refers to besides them.
pub open spec fn infer_model(
    params: Map<(usize, usize), BasicType>,
    current: CurrentType,
    expression: Expression,
) -> Result<BasicType, TypeError>
    decreases expression,
{
    match expression {
        Expression::Immediate { value } => Ok(value.deep_view().ty()),
        Expression::Reference { attribute } => match current {
            CurrentType::Tuple(tuple) => if attribute < tuple.attributes@.len() {
                Ok(tuple.attributes@[attribute as int].ty)
            } else {
                Err(TypeError::AttributeOutOfBound)
            },
            _ => Err(TypeError::NoTuple),
        },
        Expression::Aggregate => match current {
            CurrentType::Aggr(ty) => Ok(ty),
            _ => Err(TypeError::NoAggregate),
        },
        Expression::Parameter { predicate, parameter } => if params.contains_key(
            (predicate, parameter),
        ) {
            Ok(params[(predicate, parameter)])
        } else {
            Err(TypeError::NoSuchParameter)
        },
        Expression::Cast { ty, expression } => match infer_model(params, current, *expression) {
            Err(error) => Err(error),
            Ok(inner) => if ty == BasicType::Float && inner == BasicType::Int {
                Ok(BasicType::Float)
            } else {
                Err(TypeError::BadCast)
            },
        },
        Expression::UnaryOperation { operator, expression } => match infer_model(
            params,
            current,
            *expression,
        ) {
            Err(error) => Err(error),
            Ok(inner) => unary::type_model(operator, inner),
        },
        Expression::BinaryOperation { operator, left, right } => match infer_model(
            params,
            current,
            *left,
        ) {
            Err(error) => Err(error),
            Ok(l) => match infer_model(params, current, *right) {
                Err(error) => Err(error),
                Ok(r) => binary::type_model(operator, l, r),
            },
        },
    }
}

/// What is known while the types of a rule are inferred.
pub struct InferenceContext<'a> {
    params: ParameterTypes,
    current: CurrentType<'a>,
}

impl<'a> InferenceContext<'a> {
    /// The types of the parameters that are known.
    pub closed spec fn params(&self) -> Map<(usize, usize), BasicType> {
        types_in(self.params)
    }

    /// What expressions refer to besides the parameters.
    pub closed spec fn current(&self) -> CurrentType<'a> {
        self.current
    }

    /// The context in which nothing is known.
    pub fn new() -> (context: InferenceContext<'a>)
        ensures
            context.params() == Map::<(usize, usize), BasicType>::empty(),
            context.current() == CurrentType::<'a>::Empty,
    {
        InferenceContext { params: new_types(), current: CurrentType::Empty }
    }

    /// The context that knows the type of one more parameter.
    pub fn add_parameter(self, idx: (usize, usize), ty: BasicType) -> (context: InferenceContext<
        'a,
    >)
        ensures
            context.params() == self.params().insert(idx, ty),
            context.current() == self.current(),
    {
        let mut params = self.params;
        insert_type(&mut params, idx, ty);
        InferenceContext { params, current: self.current }
    }

    /// The context in which expressions refer to `current`.
    pub fn set_current(self, current: CurrentType<'a>) -> (context: InferenceContext<'a>)
        ensures
            context.params() == self.params(),
            context.current() == current,
    {
        InferenceContext { params: self.params, current }
    }

    /// The context in which expressions refer to nothing but parameters.
    pub fn reset_current(self) -> (context: InferenceContext<'a>)
        ensures
            context.params() == self.params(),
            context.current() == CurrentType::<'a>::Empty,
    {
        InferenceContext { params: self.params, current: CurrentType::Empty }
    }

    /// The types of the parameters.
    pub fn get_params(self) -> (params: ParameterTypes)
        ensures
            types_in(params) == self.params(),
    {
        self.params
    }

    fn get_attribute_ty(&self, attribute: usize) -> (result: Result<BasicType, TypeError>)
        ensures
            result == infer_model(
                self.params(),
                self.current(),
                Expression::Reference { attribute },
            ),
    {
        match &self.current {
            CurrentType::Tuple(tuple) => {
                if attribute < tuple.attributes.len() {
                    Ok(tuple.attributes[attribute].ty)
                } else {
                    Err(TypeError::AttributeOutOfBound)
                }
            },
            _ => Err(TypeError::NoTuple),
        }
    }

    fn get_aggregate_ty(&self) -> (result: Result<BasicType, TypeError>)
        ensures
            result == infer_model(self.params(), self.current(), Expression::Aggregate),
    {
        match &self.current {
            CurrentType::Aggr(ty) => Ok(*ty),
            _ => Err(TypeError::NoAggregate),
        }
    }

    fn get_parameter_ty(&self, predicate: usize, parameter: usize) -> (result: Result<
        BasicType,
        TypeError,
    >)
        ensures
            result == infer_model(
                self.params(),
                self.current(),
                Expression::Parameter { predicate, parameter },
            ),
    {
        match get_type_of(&self.params, (predicate, parameter)) {
            Some(ty) => Ok(ty),
            None => Err(TypeError::NoSuchParameter),
        }
    }

    /// The type of an expression, or the reason why it has none.
    pub fn infer_expression(&self, expression: &Expression) -> (result: Result<
        BasicType,
        TypeError,
    >)
        ensures
            result == infer_model(self.params(), self.current(), *expression),
        decreases expression,
    {
        match expression {
            Expression::Immediate { value } => Ok(value.get_type()),
            Expression::Reference { attribute } => self.get_attribute_ty(*attribute),
            Expression::Aggregate => self.get_aggregate_ty(),
            Expression::Parameter { predicate, parameter } => self.get_parameter_ty(
                *predicate,
                *parameter,
            ),
            Expression::Cast { ty, expression } => {
                let inner = self.infer_expression(expression)?;
                if *ty == BasicType::Float && inner == BasicType::Int {
                    Ok(BasicType::Float)
                } else {
                    Err(TypeError::BadCast)
                }
            },
            Expression::UnaryOperation { operator, expression } => {
                let inner = self.infer_expression(expression)?;
                unary::get_type(operator, &inner)
            },
            Expression::BinaryOperation { operator, left, right } => {
                let l = self.infer_expression(left)?;
                let r = self.infer_expression(right)?;
                binary::get_type(operator, &l, &r)
            },
        }
    }
}

} // verus!

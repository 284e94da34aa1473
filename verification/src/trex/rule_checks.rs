//! The check that a rule is well typed.

use crate::tesla::expressions::{BasicType, Expression};
use crate::tesla::predicates::{ParameterDeclaration, Predicate, PredicateType};
use crate::tesla::{EventTemplate, Rule, TupleDeclaration, TupleType};
use crate::trex::collections::{types_in, ParameterTypes};
use crate::trex::types::inference::{infer_model, CurrentType, InferenceContext};
use crate::trex::types::{aggregate, TypeError};
use std::collections::HashMap;
use vstd::prelude::*;

verus! {

/// The types of the parameters.
pub type Types = Map<(usize, usize), BasicType>;

/// Whether the expressions from index `from` on are all boolean; the first
/// one that is not gives the error.
pub open spec fn constraints_model(
    params: Types,
    current: CurrentType,
    constraints: Seq<Expression>,
    from: int,
) -> Result<(), TypeError>
    decreases constraints.len() - from,
{
    if from < 0 || from >= constraints.len() {
        Ok(())
    } else {
        match infer_model(params, current, constraints[from]) {
            Err(error) => Err(error),
            Ok(BasicType::Bool) => constraints_model(params, current, constraints, from + 1),
            Ok(_) => Err(TypeError::NonBooleanConstraint),
        }
    }
}

/// The types of the parameters once the definitions from index `from` on
/// of the predicate of index `i` are added, each typed with the ones before it.
pub open spec fn parameters_model(
    params: Types,
    current: CurrentType,
    i: usize,
    declared: Seq<ParameterDeclaration>,
    from: int,
) -> Result<Types, TypeError>
    decreases declared.len() - from,
{
    if from < 0 || from >= declared.len() {
        Ok(params)
    } else {
        match infer_model(params, current, declared[from].expression) {
            Err(error) => Err(error),
            Ok(ty) => parameters_model(
                params.insert((i, from as usize), ty),
                current,
                i,
                declared,
                from + 1,
            ),
        }
    }
}

/// The types of the parameters once the predicate of index `i` is checked.
pub open spec fn predicate_model(
    params: Types,
    i: usize,
    predicate: Predicate,
    tuples: Map<usize, TupleDeclaration>,
) -> Result<Types, TypeError> {
    if !tuples.contains_key(predicate.tuple.ty_id) {
        Err(TypeError::UnknownTuple)
    } else {
        let tuple = tuples[predicate.tuple.ty_id];
        let current = CurrentType::Tuple(&tuple);
        match predicate.ty {
            PredicateType::EventAggregate { aggregator, parameter, .. } => aggregate_model(
                params,
                i,
                predicate,
                tuple,
            ),
            PredicateType::StaticAggregate { aggregator, parameter } => aggregate_model(
                params,
                i,
                predicate,
                tuple,
            ),
            PredicateType::EventNegation { .. } | PredicateType::StaticNegation => {
                match constraints_model(params, current, predicate.tuple.constraints@, 0) {
                    Err(error) => Err(error),
                    Ok(_) => Ok(params),
                }
            },
            _ => match parameters_model(params, current, i, predicate.ty.declared(), 0) {
                Err(error) => Err(error),
                Ok(extended) => match constraints_model(
                    extended,
                    current,
                    predicate.tuple.constraints@,
                    0,
                ) {
                    Err(error) => Err(error),
                    Ok(_) => Ok(extended),
                },
            },
        }
    }
}

/// The types of the parameters once an aggregate predicate is checked:
/// its constraints are boolean on its tuple, and its parameter is typed
/// with the aggregate at hand.
pub open spec fn aggregate_model(
    params: Types,
    i: usize,
    predicate: Predicate,
    tuple: TupleDeclaration,
) -> Result<Types, TypeError> {
    let aggregator = match predicate.ty {
        PredicateType::EventAggregate { aggregator, .. } => aggregator,
        PredicateType::StaticAggregate { aggregator, .. } => aggregator,
        _ => arbitrary(),
    };
    match constraints_model(params, CurrentType::Tuple(&tuple), predicate.tuple.constraints@, 0) {
        Err(error) => Err(error),
        Ok(_) => match aggregate::type_model(aggregator, tuple) {
            Err(error) => Err(error),
            Ok(ty) => match infer_model(
                params,
                CurrentType::Aggr(ty),
                predicate.ty.declared()[0].expression,
            ) {
                Err(error) => Err(error),
                Ok(result) => Ok(params.insert((i, 0), result)),
            },
        },
    }
}

/// The types of the parameters once the predicates from index `from` on are checked.
pub open spec fn predicates_model(
    params: Types,
    predicates: Seq<Predicate>,
    tuples: Map<usize, TupleDeclaration>,
    from: int,
) -> Result<Types, TypeError>
    decreases predicates.len() - from,
{
    if from < 0 || from >= predicates.len() {
        Ok(params)
    } else {
        match predicate_model(params, from as usize, predicates[from], tuples) {
            Err(error) => Err(error),
            Ok(extended) => predicates_model(extended, predicates, tuples, from + 1),
        }
    }
}

/// Whether the expressions of the template from index `from` on have the
/// types of the attributes of the tuple.
pub open spec fn assignments_model(
    params: Types,
    template: EventTemplate,
    tuple: TupleDeclaration,
    from: int,
) -> Result<(), TypeError>
    decreases template.attributes@.len() - from,
{
    if from < 0 || from >= template.attributes@.len() {
        Ok(())
    } else {
        match infer_model(params, CurrentType::Empty, template.attributes@[from]) {
            Err(error) => Err(error),
            Ok(ty) => if from < tuple.attributes@.len() && ty == tuple.attributes@[from].ty {
                assignments_model(params, template, tuple, from + 1)
            } else {
                Err(TypeError::WrongAttributeAssignment)
            },
        }
    }
}

/// Whether the template emits a declared event, with as many attributes as
/// it has and of their types.
pub open spec fn template_model(
    params: Types,
    template: EventTemplate,
    tuples: Map<usize, TupleDeclaration>,
) -> Result<(), TypeError> {
    if !tuples.contains_key(template.ty_id) {
        Err(TypeError::UnknownEvent)
    } else {
        let tuple = tuples[template.ty_id];
        if tuple.ty != TupleType::Event {
            Err(TypeError::StaticTemplate)
        } else if tuple.attributes@.len() != template.attributes@.len() {
            Err(TypeError::WrongTemplateArity)
        } else {
            assignments_model(params, template, tuple, 0)
        }
    }
}

/// The types of the parameters of a rule, or the reason why the rule is refused.
///
/// The predicates are checked in their order: each parameter is typed with
/// the parameters before it, and each constraint has to be boolean. Then
/// the filters have to be boolean, and the template has to emit a declared
/// event with the attributes that it has.
pub open spec fn check_model(rule: Rule, tuples: Map<usize, TupleDeclaration>) -> Result<
    Types,
    TypeError,
> {
    match predicates_model(Map::empty(), rule.predicates@, tuples, 0) {
        Err(error) => Err(error),
        Ok(params) => match constraints_model(params, CurrentType::Empty, rule.filters@, 0) {
            Err(error) => Err(error),
            Ok(_) => match template_model(params, rule.event_template, tuples) {
                Err(error) => Err(error),
                Ok(_) => Ok(params),
            },
        },
    }
}

/// A check gave what its model says.
pub open spec fn checked<'a>(
    result: Result<InferenceContext<'a>, TypeError>,
    model: Result<Types, TypeError>,
    current: CurrentType<'a>,
) -> bool {
    match result {
        Ok(context) => model == Ok::<Types, TypeError>(context.params()) && context.current()
            == current,
        Err(error) => model == Err::<Types, TypeError>(error),
    }
}

fn type_check_constraints<'a>(constraints: &Vec<Expression>, ctx: InferenceContext<'a>) -> (result:
    Result<InferenceContext<'a>, TypeError>)
    ensures
        match result {
            Ok(context) => constraints_model(ctx.params(), ctx.current(), constraints@, 0) == Ok::<
                (),
                TypeError,
            >(()) && context.params() == ctx.params() && context.current() == ctx.current(),
            Err(error) => constraints_model(ctx.params(), ctx.current(), constraints@, 0) == Err::<
                (),
                TypeError,
            >(error),
        },
{
    let mut i: usize = 0;
    while i < constraints.len()
        invariant
            i <= constraints.len(),
            constraints_model(ctx.params(), ctx.current(), constraints@, 0) == constraints_model(
                ctx.params(),
                ctx.current(),
                constraints@,
                i as int,
            ),
        decreases constraints.len() - i,
    {
        match ctx.infer_expression(&constraints[i]) {
            Err(error) => {
                return Err(error);
            },
            Ok(BasicType::Bool) => {},
            Ok(_) => {
                return Err(TypeError::NonBooleanConstraint);
            },
        }
        i += 1;
    }
    Ok(ctx)
}

fn type_check_parameters<'a>(
    i: usize,
    declared: &Vec<ParameterDeclaration>,
    initial: InferenceContext<'a>,
) -> (result: Result<InferenceContext<'a>, TypeError>)
    ensures
        checked(
            result,
            parameters_model(initial.params(), initial.current(), i, declared@, 0),
            initial.current(),
        ),
{
    let ghost start = initial.params();
    let ghost current = initial.current();
    let mut ctx = initial;
    let mut j: usize = 0;
    while j < declared.len()
        invariant
            j <= declared.len(),
            ctx.current() == current,
            start == initial.params(),
            current == initial.current(),
            parameters_model(start, current, i, declared@, 0) == parameters_model(
                ctx.params(),
                current,
                i,
                declared@,
                j as int,
            ),
        decreases declared.len() - j,
    {
        match ctx.infer_expression(&declared[j].expression) {
            Err(error) => {
                return Err(error);
            },
            Ok(ty) => {
                ctx = ctx.add_parameter((i, j), ty);
            },
        }
        j += 1;
    }
    Ok(ctx)
}

fn type_check_aggregate<'a>(
    i: usize,
    predicate: &Predicate,
    tuple: &'a TupleDeclaration,
    ctx: InferenceContext<'a>,
) -> (result: Result<InferenceContext<'a>, TypeError>)
    requires
        predicate.ty is EventAggregate || predicate.ty is StaticAggregate,
    ensures
        match result {
            Ok(context) => aggregate_model(ctx.params(), i, *predicate, *tuple) == Ok::<
                Types,
                TypeError,
            >(context.params()),
            Err(error) => aggregate_model(ctx.params(), i, *predicate, *tuple) == Err::<
                Types,
                TypeError,
            >(error),
        },
{
    let (aggregator, parameter) = match &predicate.ty {
        PredicateType::EventAggregate { aggregator, parameter, .. } => (aggregator, parameter),
        PredicateType::StaticAggregate { aggregator, parameter } => (aggregator, parameter),
        _ => {
            return Err(TypeError::NoAggregate);
        },
    };
    let ctx = type_check_constraints(
        &predicate.tuple.constraints,
        ctx.set_current(CurrentType::Tuple(tuple)),
    )?;
    let ty = aggregate::get_type(aggregator, tuple)?;
    let ctx = ctx.set_current(CurrentType::Aggr(ty));
    let result = ctx.infer_expression(&parameter.expression)?;
    Ok(ctx.add_parameter((i, 0), result))
}

fn type_check_predicate<'a>(
    i: usize,
    predicate: &Predicate,
    tuples: &'a HashMap<usize, TupleDeclaration>,
    ctx: InferenceContext<'a>,
) -> (result: Result<InferenceContext<'a>, TypeError>)
    ensures
        match result {
            Ok(context) => predicate_model(ctx.params(), i, *predicate, tuples@) == Ok::<
                Types,
                TypeError,
            >(context.params()),
            Err(error) => predicate_model(ctx.params(), i, *predicate, tuples@) == Err::<
                Types,
                TypeError,
            >(error),
        },
{
    broadcast use vstd::std_specs::hash::group_hash_axioms;

    let tuple = match tuples.get(&predicate.tuple.ty_id) {
        Some(tuple) => tuple,
        None => {
            return Err(TypeError::UnknownTuple);
        },
    };
    let ctx = ctx.set_current(CurrentType::Tuple(tuple));
    match &predicate.ty {
        PredicateType::Trigger { parameters } => {
            let ctx = type_check_parameters(i, parameters, ctx)?;
            type_check_constraints(&predicate.tuple.constraints, ctx)
        },
        PredicateType::Event { parameters, .. } => {
            let ctx = type_check_parameters(i, parameters, ctx)?;
            type_check_constraints(&predicate.tuple.constraints, ctx)
        },
        PredicateType::OrderedStatic { parameters, .. } => {
            let ctx = type_check_parameters(i, parameters, ctx)?;
            type_check_constraints(&predicate.tuple.constraints, ctx)
        },
        PredicateType::UnorderedStatic { parameters } => {
            let ctx = type_check_parameters(i, parameters, ctx)?;
            type_check_constraints(&predicate.tuple.constraints, ctx)
        },
        PredicateType::EventAggregate { .. } => type_check_aggregate(i, predicate, tuple, ctx),
        PredicateType::StaticAggregate { .. } => type_check_aggregate(i, predicate, tuple, ctx),
        PredicateType::EventNegation { .. } => type_check_constraints(
            &predicate.tuple.constraints,
            ctx,
        ),
        PredicateType::StaticNegation => type_check_constraints(&predicate.tuple.constraints, ctx),
    }
}

fn type_check_template<'a>(
    template: &EventTemplate,
    tuples: &'a HashMap<usize, TupleDeclaration>,
    ctx: InferenceContext<'a>,
) -> (result: Result<InferenceContext<'a>, TypeError>)
    requires
        ctx.current() == CurrentType::<'a>::Empty,
    ensures
        match result {
            Ok(context) => template_model(ctx.params(), *template, tuples@) == Ok::<
                (),
                TypeError,
            >(()) && context.params() == ctx.params(),
            Err(error) => template_model(ctx.params(), *template, tuples@) == Err::<(), TypeError>(
                error,
            ),
        },
{
    broadcast use vstd::std_specs::hash::group_hash_axioms;

    let tuple = match tuples.get(&template.ty_id) {
        Some(tuple) => tuple,
        None => {
            return Err(TypeError::UnknownEvent);
        },
    };
    match tuple.ty {
        TupleType::Event => {},
        TupleType::Static => {
            return Err(TypeError::StaticTemplate);
        },
    }
    if tuple.attributes.len() != template.attributes.len() {
        return Err(TypeError::WrongTemplateArity);
    }
    let mut i: usize = 0;
    while i < template.attributes.len()
        invariant
            i <= template.attributes.len(),
            tuple.attributes.len() == template.attributes.len(),
            ctx.current() == CurrentType::<'a>::Empty,
            tuples@.contains_key(template.ty_id),
            *tuple == tuples@[template.ty_id],
            tuple.ty == TupleType::Event,
            assignments_model(ctx.params(), *template, *tuple, 0) == assignments_model(
                ctx.params(),
                *template,
                *tuple,
                i as int,
            ),
        decreases template.attributes.len() - i,
    {
        let ty = ctx.infer_expression(&template.attributes[i])?;
        if ty != tuple.attributes[i].ty {
            return Err(TypeError::WrongAttributeAssignment);
        }
        i += 1;
    }
    Ok(ctx)
}

/// Checks a rule against the declared tuples and gives the types of its parameters.
pub fn check_rule(rule: &Rule, tuples: &HashMap<usize, TupleDeclaration>) -> (result: Result<
    ParameterTypes,
    TypeError,
>)
    ensures
        match result {
            Ok(types) => check_model(*rule, tuples@) == Ok::<Types, TypeError>(types_in(types)),
            Err(error) => check_model(*rule, tuples@) == Err::<Types, TypeError>(error),
        },
{
    let mut ctx = InferenceContext::new();
    let mut i: usize = 0;
    while i < rule.predicates.len()
        invariant
            i <= rule.predicates.len(),
            predicates_model(Map::empty(), rule.predicates@, tuples@, 0) == predicates_model(
                ctx.params(),
                rule.predicates@,
                tuples@,
                i as int,
            ),
        decreases rule.predicates.len() - i,
    {
        ctx = type_check_predicate(i, &rule.predicates[i], tuples, ctx.reset_current())?;
        i += 1;
    }
    let ctx = type_check_constraints(&rule.filters, ctx.reset_current())?;
    let ctx = type_check_template(&rule.event_template, tuples, ctx.reset_current())?;
    Ok(ctx.get_params())
}

} // verus!

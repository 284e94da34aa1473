//! The predicates that a rule is made of.

use crate::tesla::expressions::{params_ascending, Expression};
use vstd::prelude::*;

verus! {

/// Which of the matching events of an event predicate contribute to a match.
#[derive(Clone, Copy, Debug, PartialEq, Eq, Structural)]
pub enum EventSelection {
    /// Every matching event.
    Each,
    /// The least recent matching event.
    First,
    /// The most recent matching event.
    Last,
}

/// Aggregate functions, with the index of the attribute that they work on.
#[derive(Clone, Copy, Debug, PartialEq, Eq, Structural)]
pub enum Aggregator {
    /// Average of the values.
    Avg(usize),
    /// Sum of the values.
    Sum(usize),
    /// Maximum value.
    Max(usize),
    /// Minimum value.
    Min(usize),
    /// Number of elements.
    Count,
}

/// Declaration of a parameter.
#[derive(Debug)]
pub struct ParameterDeclaration {
    /// Name of the parameter.
    pub name: String,
    /// Expression that gives the value of the parameter.
    pub expression: Expression,
}

impl Clone for ParameterDeclaration {
    fn clone(&self) -> (copy: ParameterDeclaration)
        ensures
            copy == *self,
    {
        ParameterDeclaration { name: self.name.clone(), expression: self.expression.clone() }
    }
}

/// Lower bound of the time window of an event predicate.
#[derive(Clone, Copy, Debug, PartialEq, Eq, Structural)]
pub enum TimingBound {
    /// The window reaches back a fixed time, in nanoseconds, from its
    /// upper bound: it holds the events that are less than that time older.
    Within { window: i64 },
    /// The window starts at the event of another predicate.
    Between { lower: usize },
}

/// Time constraints of an event predicate.
#[derive(Clone, Copy, Debug, PartialEq, Eq, Structural)]
pub struct Timing {
    /// Index of the predicate whose event is the upper bound of the window.
    pub upper: usize,
    /// Lower bound of the window.
    pub bound: TimingBound,
}

/// Direction of a sorting.
#[derive(Clone, Copy, Debug, PartialEq, Eq, Structural)]
pub enum Order {
    /// Ascending.
    Asc,
    /// Descending.
    Desc,
}

/// One criterion by which static tuples are sorted.
#[derive(Clone, Copy, Debug, PartialEq, Eq, Structural)]
pub struct AttributeOrdering {
    /// Index of the attribute to sort by.
    pub attribute: usize,
    /// Direction of the sorting.
    pub direction: Order,
}

/// The kinds of predicates.
#[derive(Debug)]
#[allow(inconsistent_fields)]
pub enum PredicateType {
    /// The predicate that triggers the evaluation of the rule.
    Trigger { parameters: Vec<ParameterDeclaration> },
    /// A predicate on events in a time window.
    Event { selection: EventSelection, parameters: Vec<ParameterDeclaration>, timing: Timing },
    /// A predicate on the first static tuple in a given order.
    OrderedStatic { parameters: Vec<ParameterDeclaration>, ordering: Vec<AttributeOrdering> },
    /// A predicate on every matching static tuple.
    UnorderedStatic { parameters: Vec<ParameterDeclaration> },
    /// An aggregate over the events in a time window.
    EventAggregate { aggregator: Aggregator, parameter: ParameterDeclaration, timing: Timing },
    /// An aggregate over static tuples.
    StaticAggregate { aggregator: Aggregator, parameter: ParameterDeclaration },
    /// The absence of events in a time window.
    EventNegation { timing: Timing },
    /// The absence of static tuples.
    StaticNegation,
}

/// Constraints on the tuples of one declaration.
#[derive(Debug)]
pub struct ConstrainedTuple {
    /// Id of the tuple declaration.
    pub ty_id: usize,
    /// Boolean expressions that a tuple has to satisfy.
    pub constraints: Vec<Expression>,
    /// Alias of the tuple.
    pub alias: String,
}

/// A predicate of a rule.
#[derive(Debug)]
pub struct Predicate {
    /// Kind of predicate.
    pub ty: PredicateType,
    /// Constrained tuple.
    pub tuple: ConstrainedTuple,
}

/// The parameters that the first `n` expressions refer to.
pub open spec fn parameters_of(expressions: Seq<Expression>, n: int) -> Set<(usize, usize)>
    decreases n,
{
    if n <= 0 {
        Set::empty()
    } else {
        parameters_of(expressions, n - 1).union(expressions[n - 1].parameters())
    }
}

/// The parameters that the defining expressions of the first `n` declarations refer to.
pub open spec fn parameters_in(declarations: Seq<ParameterDeclaration>, n: int) -> Set<
    (usize, usize),
>
    decreases n,
{
    if n <= 0 {
        Set::empty()
    } else {
        parameters_in(declarations, n - 1).union(declarations[n - 1].expression.parameters())
    }
}

/// Adds to `found` the parameters that the expressions refer to.
pub fn collect_from_expressions(expressions: &Vec<Expression>, found: &mut Vec<(usize, usize)>)
    requires
        params_ascending(old(found)@),
    ensures
        params_ascending(final(found)@),
        final(found)@.to_set() =~= old(found)@.to_set().union(
            parameters_of(expressions@, expressions@.len() as int),
        ),
{
    let mut i: usize = 0;
    while i < expressions.len()
        invariant
            i <= expressions.len(),
            params_ascending(found@),
            found@.to_set() =~= old(found)@.to_set().union(parameters_of(expressions@, i as int)),
        decreases expressions.len() - i,
    {
        expressions[i].collect_parameters(found);
        i += 1;
    }
}

/// Adds to `found` the parameters that the defining expressions refer to.
pub fn collect_from_declarations(
    declarations: &Vec<ParameterDeclaration>,
    found: &mut Vec<(usize, usize)>,
)
    requires
        params_ascending(old(found)@),
    ensures
        params_ascending(final(found)@),
        final(found)@.to_set() =~= old(found)@.to_set().union(
            parameters_in(declarations@, declarations@.len() as int),
        ),
{
    let mut i: usize = 0;
    while i < declarations.len()
        invariant
            i <= declarations.len(),
            params_ascending(found@),
            found@.to_set() =~= old(found)@.to_set().union(parameters_in(declarations@, i as int)),
        decreases declarations.len() - i,
    {
        declarations[i].expression.collect_parameters(found);
        i += 1;
    }
}

impl PredicateType {
    /// The parameters that the parameter definitions refer to.
    pub open spec fn used_parameters(self) -> Set<(usize, usize)> {
        match self {
            PredicateType::Trigger { parameters } => parameters_in(
                parameters@,
                parameters@.len() as int,
            ),
            PredicateType::Event { parameters, .. } => parameters_in(
                parameters@,
                parameters@.len() as int,
            ),
            PredicateType::OrderedStatic { parameters, .. } => parameters_in(
                parameters@,
                parameters@.len() as int,
            ),
            PredicateType::UnorderedStatic { parameters } => parameters_in(
                parameters@,
                parameters@.len() as int,
            ),
            PredicateType::EventAggregate { parameter, .. } => parameter.expression.parameters(),
            PredicateType::StaticAggregate { parameter, .. } => parameter.expression.parameters(),
            _ => Set::empty(),
        }
    }

    /// The time constraints, for the kinds of predicate that have them.
    pub open spec fn timing(self) -> Option<Timing> {
        match self {
            PredicateType::Event { timing, .. } => Some(timing),
            PredicateType::EventAggregate { timing, .. } => Some(timing),
            PredicateType::EventNegation { timing } => Some(timing),
            _ => None,
        }
    }

    /// Whether the predicate binds an event whose attributes its parameters read.
    pub open spec fn binds_event(self) -> bool {
        self is Trigger || self is Event
    }

    /// The parameters that the predicate declares.
    pub open spec fn declared(self) -> Seq<ParameterDeclaration> {
        match self {
            PredicateType::Trigger { parameters } => parameters@,
            PredicateType::Event { parameters, .. } => parameters@,
            PredicateType::OrderedStatic { parameters, .. } => parameters@,
            PredicateType::UnorderedStatic { parameters } => parameters@,
            PredicateType::EventAggregate { parameter, .. } => seq![parameter],
            PredicateType::StaticAggregate { parameter, .. } => seq![parameter],
            _ => Seq::empty(),
        }
    }

    /// The parameters that the parameter definitions refer to, in
    /// ascending order and once each.
    pub fn get_used_parameters(&self) -> (params: Vec<(usize, usize)>)
        ensures
            params_ascending(params@),
            params@.to_set() =~= self.used_parameters(),
    {
        let mut found: Vec<(usize, usize)> = Vec::new();
        assert(found@.to_set() =~= Set::<(usize, usize)>::empty());
        self.collect_used_parameters(&mut found);
        found
    }

    fn collect_used_parameters(&self, found: &mut Vec<(usize, usize)>)
        requires
            params_ascending(old(found)@),
        ensures
            params_ascending(final(found)@),
            final(found)@.to_set() =~= old(found)@.to_set().union(self.used_parameters()),
    {
        match self {
            PredicateType::Trigger { parameters } => collect_from_declarations(parameters, found),
            PredicateType::Event { parameters, .. } => collect_from_declarations(
                parameters,
                found,
            ),
            PredicateType::OrderedStatic { parameters, .. } => collect_from_declarations(
                parameters,
                found,
            ),
            PredicateType::UnorderedStatic { parameters } => collect_from_declarations(
                parameters,
                found,
            ),
            PredicateType::EventAggregate { parameter, .. } => {
                parameter.expression.collect_parameters(found)
            },
            PredicateType::StaticAggregate { parameter, .. } => {
                parameter.expression.collect_parameters(found)
            },
            _ => {},
        }
    }
}

impl ConstrainedTuple {
    /// The parameters that the constraints refer to.
    pub open spec fn used_parameters(self) -> Set<(usize, usize)> {
        parameters_of(self.constraints@, self.constraints@.len() as int)
    }

    /// The parameters that the constraints refer to, in ascending order
    /// and once each.
    pub fn get_used_parameters(&self) -> (params: Vec<(usize, usize)>)
        ensures
            params_ascending(params@),
            params@.to_set() =~= self.used_parameters(),
    {
        let mut found: Vec<(usize, usize)> = Vec::new();
        assert(found@.to_set() =~= Set::<(usize, usize)>::empty());
        collect_from_expressions(&self.constraints, &mut found);
        found
    }
}

impl Predicate {
    /// The parameters that the predicate refers to, in its parameter
    /// definitions and in its constraints.
    pub open spec fn used_parameters(self) -> Set<(usize, usize)> {
        self.ty.used_parameters().union(self.tuple.used_parameters())
    }

    /// The parameters that the predicate refers to, in ascending order and once each.
    pub fn get_used_parameters(&self) -> (params: Vec<(usize, usize)>)
        ensures
            params_ascending(params@),
            params@.to_set() =~= self.used_parameters(),
    {
        let mut found: Vec<(usize, usize)> = Vec::new();
        assert(found@.to_set() =~= Set::<(usize, usize)>::empty());
        self.ty.collect_used_parameters(&mut found);
        collect_from_expressions(&self.tuple.constraints, &mut found);
        found
    }
}

} // verus!

//! Partial results and the evaluation of expressions.

use crate::tesla::expressions::{clone_values, BasicType, Expression, Value, ValueModel};
use crate::tesla::number::{canonical, ieee_from_integer, Number};
use crate::tesla::predicates::{Predicate, PredicateType};
use crate::tesla::{Event, EventModel, Tuple, TupleModel};
use crate::trex::operations::{agrees, binary, unary, EvalError, Outcome};
use std::sync::Arc;
use vstd::prelude::*;

verus! {

/// What one predicate has bound in a partial result.
#[derive(Debug)]
pub enum Binding {
    /// An event, with the number under which its rule took it in.
    Event { id: u64, event: Arc<Event> },
    /// The value of an aggregate.
    Aggregate(Value),
    /// The values of the parameters that a static predicate has given.
    Row(Vec<Value>),
    /// Nothing: the predicate only asks that something is absent.
    Nothing,
}

/// What a `Binding` holds.
pub enum BindingModel {
    Event { id: u64, event: EventModel },
    Aggregate(ValueModel),
    Row(Seq<ValueModel>),
    Nothing,
}

impl DeepView for Binding {
    type V = BindingModel;

    open spec fn deep_view(&self) -> BindingModel {
        match self {
            Binding::Event { id, event } => BindingModel::Event {
                id: *id,
                event: event.deep_view(),
            },
            Binding::Aggregate(value) => BindingModel::Aggregate(value.deep_view()),
            Binding::Row(values) => BindingModel::Row(values.deep_view()),
            Binding::Nothing => BindingModel::Nothing,
        }
    }
}

impl Clone for Binding {
    fn clone(&self) -> (copy: Binding)
        ensures
            copy.deep_view() == self.deep_view(),
    {
        match self {
            Binding::Event { id, event } => Binding::Event { id: *id, event: event.clone() },
            Binding::Aggregate(value) => Binding::Aggregate(value.clone()),
            Binding::Row(values) => Binding::Row(clone_values(values)),
            Binding::Nothing => Binding::Nothing,
        }
    }
}

/// The bindings of the predicates of a rule that have been visited so far:
/// the binding of index `i` is that of the predicate of index `i`.
#[derive(Debug)]
pub struct PartialResult {
    bindings: Vec<Binding>,
}

impl DeepView for PartialResult {
    type V = Seq<BindingModel>;

    closed spec fn deep_view(&self) -> Seq<BindingModel> {
        self.bindings.deep_view()
    }
}

impl Clone for PartialResult {
    fn clone(&self) -> (copy: PartialResult)
        ensures
            copy.deep_view() == self.deep_view(),
    {
        let mut bindings: Vec<Binding> = Vec::new();
        let mut i: usize = 0;
        while i < self.bindings.len()
            invariant
                i <= self.bindings.len(),
                bindings.len() == i,
                forall|k: int|
                    0 <= k < i ==> (#[trigger] bindings@[k]).deep_view()
                        == self.bindings@[k].deep_view(),
            decreases self.bindings.len() - i,
        {
            bindings.push(self.bindings[i].clone());
            i += 1;
        }
        assert(bindings.deep_view() =~= self.bindings.deep_view());
        PartialResult { bindings }
    }
}

/// The time of the event that the predicate of the given index has bound.
pub open spec fn time_model(bound: Seq<BindingModel>, index: int) -> Result<i64, EvalError> {
    if 0 <= index < bound.len() {
        match bound[index] {
            BindingModel::Event { event, .. } => Ok(event.time),
            _ => Err(EvalError::MissingEvent),
        }
    } else {
        Err(EvalError::MissingEvent)
    }
}

impl PartialResult {
    /// A partial result without bindings.
    pub fn new() -> (result: PartialResult)
        ensures
            result.deep_view() == Seq::<BindingModel>::empty(),
    {
        let result = PartialResult { bindings: Vec::new() };
        assert(result.bindings.deep_view() =~= Seq::<BindingModel>::empty());
        result
    }

    /// The partial result that holds the event of the trigger.
    pub fn with_trigger(id: u64, event: &Arc<Event>) -> (result: PartialResult)
        ensures
            result.deep_view() == seq![BindingModel::Event { id, event: event.deep_view() }],
    {
        PartialResult::new().push(Binding::Event { id, event: event.clone() })
    }

    /// The number of predicates that have a binding.
    pub fn len(&self) -> (len: usize)
        ensures
            len == self.deep_view().len(),
    {
        self.bindings.len()
    }

    /// The partial result with one more binding; `self` is left as it is.
    pub fn extended(&self, binding: Binding) -> (result: PartialResult)
        ensures
            result.deep_view() == self.deep_view().push(binding.deep_view()),
    {
        self.clone().push(binding)
    }

    /// The partial result with the binding of one more predicate.
    pub fn push(self, binding: Binding) -> (result: PartialResult)
        ensures
            result.deep_view() == self.deep_view().push(binding.deep_view()),
    {
        let mut bindings = self.bindings;
        let ghost before = bindings.deep_view();
        bindings.push(binding);
        assert(bindings.deep_view() =~= before.push(binding.deep_view()));
        PartialResult { bindings }
    }

    /// The partial result with the event of one more predicate.
    pub fn insert_event(self, id: u64, event: Arc<Event>) -> (result: PartialResult)
        ensures
            result.deep_view() == self.deep_view().push(
                BindingModel::Event { id, event: event.deep_view() },
            ),
    {
        self.push(Binding::Event { id, event })
    }

    /// The partial result with the parameter values of one more predicate.
    pub fn insert_parameter(self, values: Vec<Value>) -> (result: PartialResult)
        ensures
            result.deep_view() == self.deep_view().push(BindingModel::Row(values.deep_view())),
    {
        self.push(Binding::Row(values))
    }

    /// The binding of the predicate of the given index.
    pub fn get(&self, index: usize) -> (binding: Option<&Binding>)
        ensures
            match binding {
                Some(b) => index < self.deep_view().len() && b.deep_view()
                    == self.deep_view()[index as int],
                None => index >= self.deep_view().len(),
            },
    {
        if index < self.bindings.len() {
            Some(&self.bindings[index])
        } else {
            None
        }
    }

    /// The time of the event that the predicate of the given index has bound.
    pub fn get_time(&self, index: usize) -> (time: Result<i64, EvalError>)
        ensures
            time == time_model(self.deep_view(), index as int),
    {
        if index < self.bindings.len() {
            match &self.bindings[index] {
                Binding::Event { event, .. } => Ok(event.time),
                _ => Err(EvalError::MissingEvent),
            }
        } else {
            Err(EvalError::MissingEvent)
        }
    }
}

/// What a cast gives.
pub open spec fn cast_model(ty: BasicType, value: ValueModel) -> Outcome {
    match (ty, value) {
        (BasicType::Float, ValueModel::Int(x)) => Ok(
            ValueModel::Float(canonical(ieee_from_integer(x))),
        ),
        _ => Err(EvalError::WrongOperands),
    }
}

/// Casts a value: an integer to a float, and nothing else.
pub fn cast(value: &Value, ty: &BasicType) -> (result: Result<Value, EvalError>)
    ensures
        agrees(result, cast_model(*ty, value.deep_view())),
{
    match (ty, value) {
        (BasicType::Float, Value::Int(x)) => Ok(Value::Float(Number::from_integer(*x))),
        _ => Err(EvalError::WrongOperands),
    }
}

/// What an expression gives when only a tuple is at hand: aggregates and
/// parameters cannot be resolved.
pub open spec fn evaluate_local(tuple: TupleModel, expression: Expression) -> Outcome
    decreases expression,
{
    match expression {
        Expression::Immediate { value } => Ok(value.deep_view()),
        Expression::Reference { attribute } => if attribute < tuple.data.len() {
            Ok(tuple.data[attribute as int])
        } else {
            Err(EvalError::MissingAttribute)
        },
        Expression::Aggregate => Err(EvalError::MissingAggregate),
        Expression::Parameter { .. } => Err(EvalError::MissingParameter),
        Expression::Cast { ty, expression } => match evaluate_local(tuple, *expression) {
            Ok(value) => cast_model(ty, value),
            Err(error) => Err(error),
        },
        Expression::UnaryOperation { operator, expression } => match evaluate_local(
            tuple,
            *expression,
        ) {
            Ok(value) => unary::apply_model(operator, value),
            Err(error) => Err(error),
        },
        Expression::BinaryOperation { operator, left, right } => match evaluate_local(
            tuple,
            *left,
        ) {
            Ok(l) => match evaluate_local(tuple, *right) {
                Ok(r) => binary::apply_model(operator, l, r),
                Err(error) => Err(error),
            },
            Err(error) => Err(error),
        },
    }
}

/// Whether a constraint holds, given what it evaluates to.
pub open spec fn truth(outcome: Outcome) -> Result<bool, EvalError> {
    match outcome {
        Ok(ValueModel::Bool(b)) => Ok(b),
        Ok(_) => Err(EvalError::NotBoolean),
        Err(error) => Err(error),
    }
}

/// Whether the expressions from index `from` on all hold for a tuple: the
/// first one that does not evaluate to true decides.
pub open spec fn all_hold_local(
    tuple: TupleModel,
    expressions: Seq<Expression>,
    from: int,
) -> Result<bool, EvalError>
    decreases expressions.len() - from,
{
    if from < 0 || from >= expressions.len() {
        Ok(true)
    } else {
        match truth(evaluate_local(tuple, expressions[from])) {
            Ok(true) => all_hold_local(tuple, expressions, from + 1),
            decided => decided,
        }
    }
}

/// The context of an expression that is evaluated on a tuple alone.
#[derive(Debug)]
pub struct SimpleContext<'a> {
    tuple: &'a Tuple,
}

impl<'a> SimpleContext<'a> {
    /// The context of the given tuple.
    pub fn new(tuple: &'a Tuple) -> (context: SimpleContext<'a>)
        ensures
            context.tuple() == tuple.deep_view(),
    {
        SimpleContext { tuple }
    }

    /// The tuple of the context.
    pub closed spec fn tuple(&self) -> TupleModel {
        self.tuple.deep_view()
    }

    /// The value of an attribute of the tuple.
    pub fn get_attribute(&self, attribute: usize) -> (result: Result<Value, EvalError>)
        ensures
            agrees(result, evaluate_local(self.tuple(), Expression::Reference { attribute })),
    {
        if attribute < self.tuple.data.len() {
            Ok(self.tuple.data[attribute].clone())
        } else {
            Err(EvalError::MissingAttribute)
        }
    }

    /// There is no aggregate in this context.
    pub fn get_aggregate(&self) -> (result: Result<Value, EvalError>)
        ensures
            result == Err::<Value, EvalError>(EvalError::MissingAggregate),
    {
        Err(EvalError::MissingAggregate)
    }

    /// There are no parameters in this context.
    pub fn get_parameter(&self, predicate: usize, parameter: usize) -> (result: Result<
        Value,
        EvalError,
    >)
        ensures
            result == Err::<Value, EvalError>(EvalError::MissingParameter),
    {
        Err(EvalError::MissingParameter)
    }

    /// Evaluates an expression on the tuple.
    pub fn evaluate_expression(&self, expression: &Expression) -> (result: Result<
        Value,
        EvalError,
    >)
        ensures
            agrees(result, evaluate_local(self.tuple(), *expression)),
        decreases expression,
    {
        match expression {
            Expression::Immediate { value } => Ok(value.clone()),
            Expression::Reference { attribute } => self.get_attribute(*attribute),
            Expression::Aggregate => self.get_aggregate(),
            Expression::Parameter { predicate, parameter } => self.get_parameter(
                *predicate,
                *parameter,
            ),
            Expression::Cast { ty, expression } => {
                match self.evaluate_expression(expression) {
                    Ok(value) => cast(&value, ty),
                    Err(error) => Err(error),
                }
            },
            Expression::UnaryOperation { operator, expression } => {
                match self.evaluate_expression(expression) {
                    Ok(value) => unary::apply(operator, &value),
                    Err(error) => Err(error),
                }
            },
            Expression::BinaryOperation { operator, left, right } => {
                match self.evaluate_expression(left) {
                    Ok(l) => match self.evaluate_expression(right) {
                        Ok(r) => binary::apply(operator, &l, &r),
                        Err(error) => Err(error),
                    },
                    Err(error) => Err(error),
                }
            },
        }
    }

    /// Whether all the expressions hold on the tuple; the first one that does
    /// not evaluate to true decides, and its error is the error.
    pub fn check_all(&self, expressions: &Vec<Expression>) -> (result: Result<bool, EvalError>)
        ensures
            result == all_hold_local(self.tuple(), expressions@, 0),
    {
        let mut i: usize = 0;
        while i < expressions.len()
            invariant
                i <= expressions.len(),
                all_hold_local(self.tuple(), expressions@, 0) == all_hold_local(
                    self.tuple(),
                    expressions@,
                    i as int,
                ),
            decreases expressions.len() - i,
        {
            match self.evaluate_expression(&expressions[i]) {
                Ok(Value::Bool(true)) => {},
                Ok(Value::Bool(false)) => {
                    return Ok(false);
                },
                Ok(_) => {
                    return Err(EvalError::NotBoolean);
                },
                Err(error) => {
                    return Err(error);
                },
            }
            i += 1;
        }
        Ok(true)
    }
}

/// What an expression refers to besides the bindings: nothing, the value of
/// an aggregate, or a tuple.
#[derive(Debug)]
pub enum CurrentValue<'a> {
    /// Nothing.
    Empty,
    /// The value of the aggregate that is being bound.
    Aggr(&'a Value),
    /// The tuple that is being looked at.
    Tuple(&'a Tuple),
}

/// What a `CurrentValue` holds.
pub enum CurrentModel {
    Empty,
    Aggr(ValueModel),
    Tuple(TupleModel),
}

impl<'a> DeepView for CurrentValue<'a> {
    type V = CurrentModel;

    open spec fn deep_view(&self) -> CurrentModel {
        match self {
            CurrentValue::Empty => CurrentModel::Empty,
            CurrentValue::Aggr(value) => CurrentModel::Aggr(value.deep_view()),
            CurrentValue::Tuple(tuple) => CurrentModel::Tuple(tuple.deep_view()),
        }
    }
}

impl<'a> From<()> for CurrentValue<'a> {
    fn from(nothing: ()) -> (current: CurrentValue<'a>) {
        CurrentValue::Empty
    }
}

impl<'a> vstd::std_specs::convert::FromSpecImpl<()> for CurrentValue<'a> {
    open spec fn obeys_from_spec() -> bool {
        true
    }

    open spec fn from_spec(nothing: ()) -> CurrentValue<'a> {
        CurrentValue::Empty
    }
}

impl<'a> From<&'a Value> for CurrentValue<'a> {
    fn from(value: &'a Value) -> (current: CurrentValue<'a>) {
        CurrentValue::Aggr(value)
    }
}

impl<'a> vstd::std_specs::convert::FromSpecImpl<&'a Value> for CurrentValue<'a> {
    open spec fn obeys_from_spec() -> bool {
        true
    }

    open spec fn from_spec(value: &'a Value) -> CurrentValue<'a> {
        CurrentValue::Aggr(value)
    }
}

impl<'a> From<&'a Tuple> for CurrentValue<'a> {
    fn from(tuple: &'a Tuple) -> (current: CurrentValue<'a>) {
        CurrentValue::Tuple(tuple)
    }
}

impl<'a> vstd::std_specs::convert::FromSpecImpl<&'a Tuple> for CurrentValue<'a> {
    open spec fn obeys_from_spec() -> bool {
        true
    }

    open spec fn from_spec(tuple: &'a Tuple) -> CurrentValue<'a> {
        CurrentValue::Tuple(tuple)
    }
}

/// What the predicate of index `predicate` has bound: its binding in the
/// partial result or, for the predicate that is being evaluated, the current
/// tuple or aggregate.
pub open spec fn binding_of(
    bound: Seq<BindingModel>,
    current: CurrentModel,
    predicate: int,
) -> BindingModel {
    if 0 <= predicate < bound.len() {
        bound[predicate]
    } else if predicate == bound.len() {
        match current {
            CurrentModel::Empty => BindingModel::Nothing,
            CurrentModel::Aggr(value) => BindingModel::Aggregate(value),
            CurrentModel::Tuple(tuple) => BindingModel::Event {
                id: 0,
                event: EventModel { tuple, time: 0 },
            },
        }
    } else {
        BindingModel::Nothing
    }
}

/// The level at which the constraints of the predicate that is being
/// evaluated stand, and the filters and the template of a rule: every
/// parameter of this and of earlier predicates comes before it.
pub open spec fn top_level(bound: Seq<BindingModel>) -> (nat, nat) {
    (bound.len(), usize::MAX as nat)
}

/// `(predicate, parameter)` comes before the level `(p, q)`.
pub open spec fn below(predicate: usize, parameter: usize, level: (nat, nat)) -> bool {
    predicate < level.0 || (predicate == level.0 && parameter < level.1)
}

/// What an expression gives in the context of a partial result.
///
/// A reference reads the current tuple and an aggregate the current
/// aggregate. A parameter is computed anew from what its predicate has bound:
/// its defining expression is evaluated on the bound event or aggregate, and
/// the parameters of a static predicate are read from the bound row. `level`
/// bounds the parameters that may be referred to: only those that come
/// before it can be resolved.
pub open spec fn evaluate_model(
    predicates: Seq<Predicate>,
    bound: Seq<BindingModel>,
    current: CurrentModel,
    level: (nat, nat),
    expression: Expression,
) -> Outcome
    decreases level.0, level.1, expression,
{
    match expression {
        Expression::Immediate { value } => Ok(value.deep_view()),
        Expression::Reference { attribute } => match current {
            CurrentModel::Tuple(tuple) => if attribute < tuple.data.len() {
                Ok(tuple.data[attribute as int])
            } else {
                Err(EvalError::MissingAttribute)
            },
            _ => Err(EvalError::MissingAttribute),
        },
        Expression::Aggregate => match current {
            CurrentModel::Aggr(value) => Ok(value),
            _ => Err(EvalError::MissingAggregate),
        },
        Expression::Parameter { predicate, parameter } => {
            if !below(predicate, parameter, level) || predicate >= predicates.len() {
                Err(EvalError::MissingParameter)
            } else {
                let declared = predicates[predicate as int].ty.declared();
                match binding_of(bound, current, predicate as int) {
                    BindingModel::Event { event, .. } => if predicates[predicate as int].ty.binds_event()
                        && parameter < declared.len() {
                        evaluate_model(
                            predicates,
                            bound,
                            CurrentModel::Tuple(event.tuple),
                            (predicate as nat, parameter as nat),
                            declared[parameter as int].expression,
                        )
                    } else {
                        Err(EvalError::MissingParameter)
                    },
                    BindingModel::Aggregate(value) => if predicates[predicate as int].ty
                        is EventAggregate && parameter == 0 {
                        evaluate_model(
                            predicates,
                            bound,
                            CurrentModel::Aggr(value),
                            (predicate as nat, 0),
                            declared[0].expression,
                        )
                    } else {
                        Err(EvalError::MissingParameter)
                    },
                    BindingModel::Row(values) => if parameter < values.len() {
                        Ok(values[parameter as int])
                    } else {
                        Err(EvalError::MissingParameter)
                    },
                    BindingModel::Nothing => Err(EvalError::MissingParameter),
                }
            }
        },
        Expression::Cast { ty, expression } => match evaluate_model(
            predicates,
            bound,
            current,
            level,
            *expression,
        ) {
            Ok(value) => cast_model(ty, value),
            Err(error) => Err(error),
        },
        Expression::UnaryOperation { operator, expression } => match evaluate_model(
            predicates,
            bound,
            current,
            level,
            *expression,
        ) {
            Ok(value) => unary::apply_model(operator, value),
            Err(error) => Err(error),
        },
        Expression::BinaryOperation { operator, left, right } => match evaluate_model(
            predicates,
            bound,
            current,
            level,
            *left,
        ) {
            Ok(l) => match evaluate_model(predicates, bound, current, level, *right) {
                Ok(r) => binary::apply_model(operator, l, r),
                Err(error) => Err(error),
            },
            Err(error) => Err(error),
        },
    }
}

/// Whether the expressions from index `from` on all hold in the context of a
/// partial result: the first one that does not evaluate to true decides.
pub open spec fn all_hold(
    predicates: Seq<Predicate>,
    bound: Seq<BindingModel>,
    current: CurrentModel,
    expressions: Seq<Expression>,
    from: int,
) -> Result<bool, EvalError>
    decreases expressions.len() - from,
{
    if from < 0 || from >= expressions.len() {
        Ok(true)
    } else {
        match truth(
            evaluate_model(
                predicates,
                bound,
                current,
                top_level(bound),
                expressions[from],
            ),
        ) {
            Ok(true) => all_hold(predicates, bound, current, expressions, from + 1),
            decided => decided,
        }
    }
}

/// An expression without parameters gives in the context of a partial result
/// what it gives on the current tuple alone.
pub proof fn lemma_local_evaluation(
    predicates: Seq<Predicate>,
    bound: Seq<BindingModel>,
    tuple: TupleModel,
    level: (nat, nat),
    expression: Expression,
)
    requires
        expression.local(),
    ensures
        evaluate_model(predicates, bound, CurrentModel::Tuple(tuple), level, expression)
            == evaluate_local(tuple, expression),
    decreases expression,
{
    match expression {
        Expression::Cast { ty, expression } => {
            lemma_local_evaluation(predicates, bound, tuple, level, *expression);
        },
        Expression::UnaryOperation { operator, expression } => {
            lemma_local_evaluation(predicates, bound, tuple, level, *expression);
        },
        Expression::BinaryOperation { operator, left, right } => {
            lemma_local_evaluation(predicates, bound, tuple, level, *left);
            lemma_local_evaluation(predicates, bound, tuple, level, *right);
        },
        _ => {},
    }
}

/// The context of an expression that is evaluated for a partial result.
#[derive(Debug)]
pub struct CompleteContext<'a> {
    predicates: &'a Vec<Predicate>,
    result: &'a PartialResult,
    current: CurrentValue<'a>,
}

impl<'a> CompleteContext<'a> {
    /// The context of a partial result of a rule with the given predicates.
    pub fn new(
        predicates: &'a Vec<Predicate>,
        result: &'a PartialResult,
        current: CurrentValue<'a>,
    ) -> (context: CompleteContext<'a>)
        ensures
            context.predicates() == predicates@,
            context.bound() == result.deep_view(),
            context.current() == current.deep_view(),
    {
        CompleteContext { predicates, result, current }
    }

    /// The predicates of the rule.
    pub closed spec fn predicates(&self) -> Seq<Predicate> {
        self.predicates@
    }

    /// The bindings of the partial result.
    pub closed spec fn bound(&self) -> Seq<BindingModel> {
        self.result.deep_view()
    }

    /// What the context holds besides the bindings.
    pub closed spec fn current(&self) -> CurrentModel {
        self.current.deep_view()
    }

    /// The level at which expressions are evaluated in this context.
    pub open spec fn level(&self) -> (nat, nat) {
        top_level(self.bound())
    }

    /// The context with the same partial result and the given tuple.
    pub fn set_tuple(&self, tuple: &'a Tuple) -> (context: CompleteContext<'a>)
        ensures
            context.predicates() == self.predicates(),
            context.bound() == self.bound(),
            context.current() == CurrentModel::Tuple(tuple.deep_view()),
    {
        CompleteContext {
            predicates: self.predicates,
            result: self.result,
            current: CurrentValue::Tuple(tuple),
        }
    }

    /// The context with the same partial result and the given aggregate.
    pub fn set_aggregate(&self, aggregate: &'a Value) -> (context: CompleteContext<'a>)
        ensures
            context.predicates() == self.predicates(),
            context.bound() == self.bound(),
            context.current() == CurrentModel::Aggr(aggregate.deep_view()),
    {
        CompleteContext {
            predicates: self.predicates,
            result: self.result,
            current: CurrentValue::Aggr(aggregate),
        }
    }

    /// The partial result of the context.
    pub fn get_result(&self) -> (result: &'a PartialResult)
        ensures
            result.deep_view() == self.bound(),
    {
        self.result
    }

    /// The value of an attribute of the current tuple.
    pub fn get_attribute(&self, attribute: usize) -> (result: Result<Value, EvalError>)
        ensures
            agrees(
                result,
                evaluate_model(
                    self.predicates(),
                    self.bound(),
                    self.current(),
                    self.level(),
                    Expression::Reference { attribute },
                ),
            ),
    {
        match &self.current {
            CurrentValue::Tuple(tuple) => {
                if attribute < tuple.data.len() {
                    Ok(tuple.data[attribute].clone())
                } else {
                    Err(EvalError::MissingAttribute)
                }
            },
            _ => Err(EvalError::MissingAttribute),
        }
    }

    /// The value of the current aggregate.
    pub fn get_aggregate(&self) -> (result: Result<Value, EvalError>)
        ensures
            agrees(
                result,
                evaluate_model(
                    self.predicates(),
                    self.bound(),
                    self.current(),
                    self.level(),
                    Expression::Aggregate,
                ),
            ),
    {
        match &self.current {
            CurrentValue::Aggr(value) => Ok((*value).clone()),
            _ => Err(EvalError::MissingAggregate),
        }
    }

    /// The value of a parameter of this or of an earlier predicate.
    pub fn get_parameter(&self, predicate: usize, parameter: usize) -> (result: Result<
        Value,
        EvalError,
    >)
        ensures
            agrees(
                result,
                evaluate_model(
                    self.predicates(),
                    self.bound(),
                    self.current(),
                    self.level(),
                    Expression::Parameter { predicate, parameter },
                ),
            ),
    {
        let expression = Expression::Parameter { predicate, parameter };
        self.evaluate_at(self.result.len(), usize::MAX, &expression)
    }

    /// Evaluates an expression for the partial result.
    pub fn evaluate_expression(&self, expression: &Expression) -> (result: Result<
        Value,
        EvalError,
    >)
        ensures
            agrees(
                result,
                evaluate_model(
                    self.predicates(),
                    self.bound(),
                    self.current(),
                    self.level(),
                    *expression,
                ),
            ),
    {
        self.evaluate_at(self.result.len(), usize::MAX, expression)
    }

    fn evaluate_at(&self, p: usize, q: usize, expression: &Expression) -> (result: Result<
        Value,
        EvalError,
    >)
        ensures
            agrees(
                result,
                evaluate_model(
                    self.predicates(),
                    self.bound(),
                    self.current(),
                    (p as nat, q as nat),
                    *expression,
                ),
            ),
        decreases p, q, expression,
    {
        match expression {
            Expression::Immediate { value } => Ok(value.clone()),
            Expression::Reference { attribute } => self.get_attribute(*attribute),
            Expression::Aggregate => self.get_aggregate(),
            Expression::Parameter { predicate, parameter } => {
                let predicate = *predicate;
                let parameter = *parameter;
                let is_below = predicate < p || (predicate == p && parameter < q);
                if !is_below || predicate >= self.predicates.len() {
                    return Err(EvalError::MissingParameter);
                }
                let source: CurrentValue<'a> = if predicate < self.result.len() {
                    match &self.result.bindings[predicate] {
                        Binding::Event { event, .. } => CurrentValue::Tuple(&event.tuple),
                        Binding::Aggregate(value) => CurrentValue::Aggr(value),
                        Binding::Row(values) => {
                            if parameter < values.len() {
                                return Ok(values[parameter].clone());
                            } else {
                                return Err(EvalError::MissingParameter);
                            }
                        },
                        Binding::Nothing => {
                            return Err(EvalError::MissingParameter);
                        },
                    }
                } else if predicate == self.result.len() {
                    match &self.current {
                        CurrentValue::Tuple(tuple) => CurrentValue::Tuple(*tuple),
                        CurrentValue::Aggr(value) => CurrentValue::Aggr(*value),
                        CurrentValue::Empty => {
                            return Err(EvalError::MissingParameter);
                        },
                    }
                } else {
                    return Err(EvalError::MissingParameter);
                };
                let aggregate = match &source {
                    CurrentValue::Aggr(_) => true,
                    _ => false,
                };
                let context = CompleteContext {
                    predicates: self.predicates,
                    result: self.result,
                    current: source,
                };
                match &self.predicates[predicate].ty {
                    PredicateType::Trigger { parameters } => {
                        if !aggregate && parameter < parameters.len() {
                            context.evaluate_at(
                                predicate,
                                parameter,
                                &parameters[parameter].expression,
                            )
                        } else {
                            Err(EvalError::MissingParameter)
                        }
                    },
                    PredicateType::Event { parameters, .. } => {
                        if !aggregate && parameter < parameters.len() {
                            context.evaluate_at(
                                predicate,
                                parameter,
                                &parameters[parameter].expression,
                            )
                        } else {
                            Err(EvalError::MissingParameter)
                        }
                    },
                    PredicateType::EventAggregate { parameter: declaration, .. } => {
                        if aggregate && parameter == 0 {
                            context.evaluate_at(predicate, 0, &declaration.expression)
                        } else {
                            Err(EvalError::MissingParameter)
                        }
                    },
                    _ => Err(EvalError::MissingParameter),
                }
            },
            Expression::Cast { ty, expression } => {
                match self.evaluate_at(p, q, expression) {
                    Ok(value) => cast(&value, ty),
                    Err(error) => Err(error),
                }
            },
            Expression::UnaryOperation { operator, expression } => {
                match self.evaluate_at(p, q, expression) {
                    Ok(value) => unary::apply(operator, &value),
                    Err(error) => Err(error),
                }
            },
            Expression::BinaryOperation { operator, left, right } => {
                match self.evaluate_at(p, q, left) {
                    Ok(l) => match self.evaluate_at(p, q, right) {
                        Ok(r) => binary::apply(operator, &l, &r),
                        Err(error) => Err(error),
                    },
                    Err(error) => Err(error),
                }
            },
        }
    }

    /// Whether all the expressions hold for the partial result; the first one
    /// that does not evaluate to true decides, and its error is the error.
    pub fn check_all(&self, expressions: &Vec<Expression>) -> (result: Result<bool, EvalError>)
        ensures
            result == all_hold(self.predicates(), self.bound(), self.current(), expressions@, 0),
    {
        let mut i: usize = 0;
        while i < expressions.len()
            invariant
                i <= expressions.len(),
                all_hold(self.predicates(), self.bound(), self.current(), expressions@, 0)
                    == all_hold(
                    self.predicates(),
                    self.bound(),
                    self.current(),
                    expressions@,
                    i as int,
                ),
            decreases expressions.len() - i,
        {
            match self.evaluate_expression(&expressions[i]) {
                Ok(Value::Bool(true)) => {},
                Ok(Value::Bool(false)) => {
                    return Ok(false);
                },
                Ok(_) => {
                    return Err(EvalError::NotBoolean);
                },
                Err(error) => {
                    return Err(error);
                },
            }
            i += 1;
        }
        Ok(true)
    }
}

/// The context in which an expression is evaluated: it gives the values of
/// the attributes, of the aggregate and of the parameters that the
/// expression refers to.
pub trait EvaluationContext {
    /// What an expression gives in the context.
    spec fn outcome(&self, expression: Expression) -> Outcome;

    /// The value of an attribute.
    fn get_attribute(&self, attribute: usize) -> (result: Result<Value, EvalError>)
        ensures
            agrees(result, self.outcome(Expression::Reference { attribute })),
    ;

    /// The value of the aggregate.
    fn get_aggregate(&self) -> (result: Result<Value, EvalError>)
        ensures
            agrees(result, self.outcome(Expression::Aggregate)),
    ;

    /// The value of a parameter.
    fn get_parameter(&self, predicate: usize, parameter: usize) -> (result: Result<
        Value,
        EvalError,
    >)
        ensures
            agrees(result, self.outcome(Expression::Parameter { predicate, parameter })),
    ;

    /// The value of an expression.
    fn evaluate_expression(&self, expression: &Expression) -> (result: Result<Value, EvalError>)
        ensures
            agrees(result, self.outcome(*expression)),
    ;
}

impl<'a> EvaluationContext for SimpleContext<'a> {
    open spec fn outcome(&self, expression: Expression) -> Outcome {
        evaluate_local(self.tuple(), expression)
    }

    fn get_attribute(&self, attribute: usize) -> (result: Result<Value, EvalError>) {
        SimpleContext::get_attribute(self, attribute)
    }

    fn get_aggregate(&self) -> (result: Result<Value, EvalError>) {
        SimpleContext::get_aggregate(self)
    }

    fn get_parameter(&self, predicate: usize, parameter: usize) -> (result: Result<
        Value,
        EvalError,
    >) {
        SimpleContext::get_parameter(self, predicate, parameter)
    }

    fn evaluate_expression(&self, expression: &Expression) -> (result: Result<Value, EvalError>) {
        SimpleContext::evaluate_expression(self, expression)
    }
}

impl<'a> EvaluationContext for CompleteContext<'a> {
    open spec fn outcome(&self, expression: Expression) -> Outcome {
        evaluate_model(self.predicates(), self.bound(), self.current(), self.level(), expression)
    }

    fn get_attribute(&self, attribute: usize) -> (result: Result<Value, EvalError>) {
        CompleteContext::get_attribute(self, attribute)
    }

    fn get_aggregate(&self) -> (result: Result<Value, EvalError>) {
        CompleteContext::get_aggregate(self)
    }

    fn get_parameter(&self, predicate: usize, parameter: usize) -> (result: Result<
        Value,
        EvalError,
    >) {
        CompleteContext::get_parameter(self, predicate, parameter)
    }

    fn evaluate_expression(&self, expression: &Expression) -> (result: Result<Value, EvalError>) {
        CompleteContext::evaluate_expression(self, expression)
    }
}

} // verus!

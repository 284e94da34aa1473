use std::sync::Arc;
use trex::tesla::expressions::{BasicType, BinaryOperator, Expression, UnaryOperator, Value};
use trex::tesla::predicates::{
    Aggregator, ConstrainedTuple, EventSelection, ParameterDeclaration, Predicate, PredicateType,
    Timing, TimingBound,
};
use trex::tesla::{Event, Tuple};
use trex::trex::expressions::{Binding, CompleteContext, CurrentValue, PartialResult, SimpleContext};
use trex::trex::operations::EvalError;

fn integer(x: i64) -> Expression {
    Expression::Immediate { value: Value::Int(x) }
}

fn attribute(attribute: usize) -> Expression {
    Expression::Reference { attribute }
}

fn parameter(predicate: usize, parameter: usize) -> Expression {
    Expression::Parameter { predicate, parameter }
}

fn binary(operator: BinaryOperator, left: Expression, right: Expression) -> Expression {
    Expression::BinaryOperation { operator, left: Box::new(left), right: Box::new(right) }
}

fn unary(operator: UnaryOperator, expression: Expression) -> Expression {
    Expression::UnaryOperation { operator, expression: Box::new(expression) }
}

fn cast(expression: Expression) -> Expression {
    Expression::Cast { ty: BasicType::Float, expression: Box::new(expression) }
}

fn declared(expressions: Vec<Expression>) -> Vec<ParameterDeclaration> {
    expressions
        .into_iter()
        .enumerate()
        .map(|(i, expression)| ParameterDeclaration { name: format!("p{}", i), expression })
        .collect()
}

fn on(ty_id: usize, ty: PredicateType, constraints: Vec<Expression>) -> Predicate {
    Predicate { ty, tuple: ConstrainedTuple { ty_id, constraints, alias: "t".to_string() } }
}

fn timing() -> Timing {
    Timing { upper: 0, bound: TimingBound::Within { window: 10 } }
}

fn event(data: Vec<Value>, time: i64) -> Arc<Event> {
    Arc::new(Event { tuple: Tuple { ty_id: 1, data }, time })
}

#[test]
fn expressions_without_parameters_are_local() {
    assert!(integer(1).is_local());
    assert!(attribute(3).is_local());
    assert!(Expression::Aggregate.is_local());
    assert!(!parameter(0, 0).is_local());
    assert!(cast(attribute(0)).is_local());
    assert!(!cast(parameter(1, 2)).is_local());
    assert!(unary(UnaryOperator::Minus, attribute(0)).is_local());
    assert!(!unary(UnaryOperator::Not, parameter(1, 2)).is_local());
    assert!(binary(BinaryOperator::Plus, attribute(0), integer(1)).is_local());
    assert!(!binary(BinaryOperator::Plus, attribute(0), parameter(0, 1)).is_local());
    assert!(!binary(BinaryOperator::Plus, parameter(0, 1), attribute(0)).is_local());
}

#[test]
fn the_parameters_of_an_expression_come_in_order_and_once() {
    let expression = binary(
        BinaryOperator::Plus,
        binary(BinaryOperator::Times, parameter(2, 1), parameter(0, 3)),
        binary(
            BinaryOperator::Minus,
            cast(parameter(2, 0)),
            unary(UnaryOperator::Minus, binary(BinaryOperator::Plus, parameter(2, 1), parameter(1, 9))),
        ),
    );
    assert_eq!(expression.get_parameters(), vec![(0, 3), (1, 9), (2, 0), (2, 1)]);
    assert_eq!(expression.get_last_predicate(), Some(2));
    assert_eq!(integer(1).get_parameters(), vec![]);
    assert_eq!(integer(1).get_last_predicate(), None);
    assert_eq!(parameter(4, 5).get_parameters(), vec![(4, 5)]);
    assert_eq!(parameter(4, 5).get_last_predicate(), Some(4));
    assert_eq!(expression.clone().get_parameters(), expression.get_parameters());
}

#[test]
fn the_parameters_that_a_predicate_uses() {
    let predicate = on(
        1,
        PredicateType::Event {
            selection: EventSelection::Each,
            parameters: declared(vec![parameter(0, 2), binary(BinaryOperator::Plus, parameter(0, 0), attribute(0))]),
            timing: timing(),
        },
        vec![binary(BinaryOperator::Equal, parameter(1, 0), parameter(0, 2)), attribute(1)],
    );
    assert_eq!(predicate.get_used_parameters(), vec![(0, 0), (0, 2), (1, 0)]);
    assert_eq!(predicate.ty.get_used_parameters(), vec![(0, 0), (0, 2)]);
    assert_eq!(predicate.tuple.get_used_parameters(), vec![(0, 2), (1, 0)]);
    let aggregate = on(
        1,
        PredicateType::EventAggregate {
            aggregator: Aggregator::Count,
            parameter: ParameterDeclaration {
                name: "n".to_string(),
                expression: binary(BinaryOperator::Plus, Expression::Aggregate, parameter(0, 1)),
            },
            timing: timing(),
        },
        vec![binary(BinaryOperator::Equal, attribute(0), parameter(0, 0))],
    );
    assert_eq!(aggregate.get_used_parameters(), vec![(0, 0), (0, 1)]);
    assert_eq!(aggregate.ty.get_used_parameters(), vec![(0, 1)]);
    assert_eq!(aggregate.tuple.get_used_parameters(), vec![(0, 0)]);
    let negation = on(1, PredicateType::StaticNegation, vec![]);
    assert_eq!(negation.get_used_parameters(), vec![]);
}

#[test]
fn evaluation_on_a_tuple() {
    let tuple = Tuple { ty_id: 1, data: vec![Value::Int(7), Value::Str("x".to_string()), Value::Bool(true)] };
    let context = SimpleContext::new(&tuple);
    assert_eq!(context.evaluate_expression(&integer(3)), Ok(Value::Int(3)));
    assert_eq!(context.evaluate_expression(&attribute(0)), Ok(Value::Int(7)));
    assert_eq!(context.evaluate_expression(&attribute(2)), Ok(Value::Bool(true)));
    assert_eq!(context.get_attribute(1), Ok(Value::Str("x".to_string())));
    assert_eq!(context.evaluate_expression(&attribute(3)), Err(EvalError::MissingAttribute));
    assert_eq!(context.evaluate_expression(&Expression::Aggregate), Err(EvalError::MissingAggregate));
    assert_eq!(context.get_aggregate(), Err(EvalError::MissingAggregate));
    assert_eq!(context.evaluate_expression(&parameter(0, 0)), Err(EvalError::MissingParameter));
    assert_eq!(context.get_parameter(0, 0), Err(EvalError::MissingParameter));
    let sum = binary(BinaryOperator::Plus, binary(BinaryOperator::Times, attribute(0), integer(2)), integer(1));
    assert_eq!(context.evaluate_expression(&sum), Ok(Value::Int(15)));
    assert_eq!(
        context.evaluate_expression(&unary(UnaryOperator::Minus, attribute(0))),
        Ok(Value::Int(-7))
    );
    assert_eq!(
        context.evaluate_expression(&unary(UnaryOperator::Not, attribute(2))),
        Ok(Value::Bool(false))
    );
    assert_eq!(
        context.evaluate_expression(&binary(BinaryOperator::Plus, attribute(0), attribute(1))),
        Err(EvalError::WrongOperands)
    );
    assert_eq!(
        context.evaluate_expression(&binary(BinaryOperator::Plus, attribute(9), attribute(1))),
        Err(EvalError::MissingAttribute)
    );
    assert_eq!(
        context.evaluate_expression(&binary(BinaryOperator::Plus, attribute(0), parameter(0, 0))),
        Err(EvalError::MissingParameter)
    );
    match context.evaluate_expression(&cast(attribute(0))) {
        Ok(Value::Float(x)) => assert_eq!(f64::from_bits(x.to_bits()), 7.0),
        other => panic!("{:?}", other),
    }
    assert_eq!(context.evaluate_expression(&cast(attribute(1))), Err(EvalError::WrongOperands));
}

#[test]
fn constraints_on_a_tuple() {
    let tuple = Tuple { ty_id: 1, data: vec![Value::Int(7)] };
    let context = SimpleContext::new(&tuple);
    let positive = binary(BinaryOperator::GreaterThan, attribute(0), integer(0));
    let small = binary(BinaryOperator::LowerThan, attribute(0), integer(5));
    let broken = binary(BinaryOperator::Division, attribute(0), integer(0));
    assert_eq!(context.check_all(&vec![]), Ok(true));
    assert_eq!(context.check_all(&vec![positive.clone()]), Ok(true));
    assert_eq!(context.check_all(&vec![positive.clone(), small.clone()]), Ok(false));
    assert_eq!(context.check_all(&vec![small.clone(), broken.clone()]), Ok(false));
    assert_eq!(context.check_all(&vec![positive.clone(), broken.clone()]), Err(EvalError::DivisionByZero));
    assert_eq!(context.check_all(&vec![positive.clone(), attribute(0)]), Err(EvalError::NotBoolean));
    assert_eq!(context.check_all(&vec![attribute(4)]), Err(EvalError::MissingAttribute));
}

fn predicates() -> Vec<Predicate> {
    vec![
        on(
            1,
            PredicateType::Trigger {
                parameters: declared(vec![
                    attribute(0),
                    binary(BinaryOperator::Plus, parameter(0, 0), integer(1)),
                    parameter(0, 2),
                ]),
            },
            vec![],
        ),
        on(
            1,
            PredicateType::EventAggregate {
                aggregator: Aggregator::Sum(0),
                parameter: ParameterDeclaration {
                    name: "s".to_string(),
                    expression: binary(BinaryOperator::Times, Expression::Aggregate, parameter(0, 1)),
                },
                timing: timing(),
            },
            vec![],
        ),
        on(1, PredicateType::UnorderedStatic { parameters: declared(vec![attribute(0)]) }, vec![]),
        on(1, PredicateType::EventNegation { timing: timing() }, vec![]),
        on(
            1,
            PredicateType::Event {
                selection: EventSelection::Last,
                parameters: declared(vec![binary(BinaryOperator::Minus, attribute(0), parameter(1, 0))]),
                timing: timing(),
            },
            vec![],
        ),
    ]
}

#[test]
fn parameters_are_computed_from_what_their_predicates_have_bound() {
    let predicates = predicates();
    let result = PartialResult::with_trigger(0, &event(vec![Value::Int(10)], 100))
        .push(Binding::Aggregate(Value::Int(3)))
        .insert_parameter(vec![Value::Str("row".to_string())])
        .push(Binding::Nothing);
    assert_eq!(result.len(), 4);
    let current = Tuple { ty_id: 1, data: vec![Value::Int(50)] };
    let context = CompleteContext::new(&predicates, &result, CurrentValue::Tuple(&current));
    assert_eq!(context.get_parameter(0, 0), Ok(Value::Int(10)));
    assert_eq!(context.get_parameter(0, 1), Ok(Value::Int(11)));
    assert_eq!(context.get_parameter(0, 2), Err(EvalError::MissingParameter));
    assert_eq!(context.get_parameter(0, 3), Err(EvalError::MissingParameter));
    assert_eq!(context.get_parameter(1, 0), Ok(Value::Int(33)));
    assert_eq!(context.get_parameter(1, 1), Err(EvalError::MissingParameter));
    assert_eq!(context.get_parameter(2, 0), Ok(Value::Str("row".to_string())));
    assert_eq!(context.get_parameter(2, 1), Err(EvalError::MissingParameter));
    assert_eq!(context.get_parameter(3, 0), Err(EvalError::MissingParameter));
    assert_eq!(context.get_parameter(4, 0), Ok(Value::Int(17)));
    assert_eq!(context.get_parameter(5, 0), Err(EvalError::MissingParameter));
    assert_eq!(context.get_attribute(0), Ok(Value::Int(50)));
    assert_eq!(context.get_attribute(1), Err(EvalError::MissingAttribute));
    assert_eq!(context.get_aggregate(), Err(EvalError::MissingAggregate));
    let sum = binary(BinaryOperator::Plus, parameter(4, 0), parameter(1, 0));
    assert_eq!(context.evaluate_expression(&sum), Ok(Value::Int(50)));
    assert_eq!(
        context.check_all(&vec![binary(BinaryOperator::Equal, sum.clone(), attribute(0))]),
        Ok(true)
    );
    assert_eq!(context.check_all(&vec![sum]), Err(EvalError::NotBoolean));
    let aggregate = Value::Int(4);
    let context = context.set_aggregate(&aggregate);
    assert_eq!(context.get_aggregate(), Ok(Value::Int(4)));
    assert_eq!(context.get_attribute(0), Err(EvalError::MissingAttribute));
    assert_eq!(context.get_parameter(4, 0), Err(EvalError::MissingParameter));
    let context = context.set_tuple(&current);
    assert_eq!(context.get_parameter(4, 0), Ok(Value::Int(17)));
    assert_eq!(context.get_result().len(), 4);
    let empty = CompleteContext::new(&predicates, &result, CurrentValue::Empty);
    assert_eq!(empty.get_parameter(4, 0), Err(EvalError::MissingParameter));
    assert_eq!(empty.get_attribute(0), Err(EvalError::MissingAttribute));
}

#[test]
fn partial_results_know_the_times_of_their_events() {
    let result = PartialResult::new()
        .insert_event(1, event(vec![], 100))
        .push(Binding::Aggregate(Value::Int(3)))
        .insert_event(2, event(vec![], 90));
    assert_eq!(result.get_time(0), Ok(100));
    assert_eq!(result.get_time(1), Err(EvalError::MissingEvent));
    assert_eq!(result.get_time(2), Ok(90));
    assert_eq!(result.get_time(3), Err(EvalError::MissingEvent));
    assert!(matches!(result.get(0), Some(Binding::Event { id: 1, .. })));
    assert!(matches!(result.get(1), Some(Binding::Aggregate(Value::Int(3)))));
    assert!(result.get(3).is_none());
    let extended = result.extended(Binding::Nothing);
    assert_eq!(result.len(), 3);
    assert_eq!(extended.len(), 4);
    assert_eq!(extended.clone().get_time(2), Ok(90));
    assert_eq!(PartialResult::new().len(), 0);
}

fn through<C: trex::trex::expressions::EvaluationContext>(
    context: &C,
    expression: &Expression,
) -> Vec<Result<Value, EvalError>> {
    vec![
        context.get_attribute(0),
        context.get_aggregate(),
        context.get_parameter(0, 0),
        context.evaluate_expression(expression),
    ]
}

#[test]
fn contexts_answer_alike_through_their_trait() {
    let tuple = Tuple { ty_id: 1, data: vec![Value::Int(7)] };
    let expression = binary(BinaryOperator::Plus, attribute(0), integer(1));
    assert_eq!(
        through(&SimpleContext::new(&tuple), &expression),
        vec![
            Ok(Value::Int(7)),
            Err(EvalError::MissingAggregate),
            Err(EvalError::MissingParameter),
            Ok(Value::Int(8)),
        ]
    );
    let predicates = predicates();
    let result = PartialResult::with_trigger(0, &event(vec![Value::Int(10)], 100));
    let context = CompleteContext::new(&predicates, &result, CurrentValue::from(&tuple));
    assert!(matches!(CurrentValue::from(()), CurrentValue::Empty));
    assert!(matches!(CurrentValue::from(&Value::Int(1)), CurrentValue::Aggr(Value::Int(1))));
    assert_eq!(
        through(&context, &expression),
        vec![
            Ok(Value::Int(7)),
            Err(EvalError::MissingAggregate),
            Ok(Value::Int(10)),
            Ok(Value::Int(8)),
        ]
    );
}

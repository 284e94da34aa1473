use std::sync::Arc;
use trex::tesla::expressions::{BasicType, BinaryOperator, Expression, Value};
use trex::tesla::predicates::{
    Aggregator, ConstrainedTuple, EventSelection, ParameterDeclaration, Predicate, PredicateType,
    Timing, TimingBound,
};
use trex::tesla::{
    AttributeDeclaration, Event, EventTemplate, Rule, SubscrFilter, Tuple, TupleDeclaration,
    TupleType,
};
use trex::trex::cache::dummy::DummyCache;
use trex::trex::cache::Fetcher;
use trex::trex::engine::{EngineError, TRex};
use trex::trex::operations::EvalError;
use trex::trex::providers::StackProvider;
use trex::trex::sqlite::{CacheEntryModel, CacheKeyModel};
use trex::trex::sqlite::{CacheEntry, CacheKey};
use trex::trex::types::TypeError;

const SECOND: i64 = 1_000_000_000;
const T0: i64 = 1_000 * SECOND;

struct NoSource;

impl Fetcher<CacheKey, CacheEntry> for NoSource {
    // The model of what the source may answer; no program calls it.
    fn answers(&self, _key: CacheKeyModel, _value: CacheEntryModel) -> bool {
        unreachable!()
    }

    fn fetch(&self, _key: &CacheKey) -> CacheEntry {
        unreachable!()
    }
}

type Provider = StackProvider<DummyCache<CacheKey, CacheEntry>, NoSource>;
type Engine = TRex<Provider>;

fn declaration(id: usize, name: &str, attributes: Vec<(&str, BasicType)>) -> TupleDeclaration {
    TupleDeclaration {
        ty: TupleType::Event,
        id,
        name: name.to_string(),
        attributes: attributes
            .into_iter()
            .map(|(name, ty)| AttributeDeclaration { name: name.to_string(), ty })
            .collect(),
    }
}

fn event(ty_id: usize, data: Vec<Value>, time: i64) -> Arc<Event> {
    Arc::new(Event { tuple: Tuple { ty_id, data }, time })
}

fn trigger(ty_id: usize, parameters: Vec<Expression>) -> Predicate {
    Predicate {
        ty: PredicateType::Trigger {
            parameters: parameters
                .into_iter()
                .enumerate()
                .map(|(i, expression)| ParameterDeclaration { name: format!("p{}", i), expression })
                .collect(),
        },
        tuple: ConstrainedTuple { ty_id, constraints: Vec::new(), alias: "a".to_string() },
    }
}

fn within(
    ty_id: usize,
    selection: EventSelection,
    window: i64,
    constraints: Vec<Expression>,
) -> Predicate {
    Predicate {
        ty: PredicateType::Event {
            selection,
            parameters: Vec::new(),
            timing: Timing { upper: 0, bound: TimingBound::Within { window } },
        },
        tuple: ConstrainedTuple { ty_id, constraints, alias: "e".to_string() },
    }
}

fn rule(predicates: Vec<Predicate>, attributes: Vec<Expression>, consuming: Vec<usize>) -> Rule {
    Rule::new(predicates, Vec::new(), EventTemplate { ty_id: 4, attributes }, consuming)
}

fn engine() -> Engine {
    let mut engine = TRex::new(16, vec![StackProvider::new()]);
    engine.declare(declaration(1, "A", vec![("x", BasicType::Int)])).unwrap();
    engine.declare(declaration(2, "B", vec![("x", BasicType::Int)])).unwrap();
    engine.declare(declaration(3, "C", vec![("x", BasicType::Int)])).unwrap();
    engine.declare(declaration(4, "D", vec![])).unwrap();
    engine
}

fn emissions(engine: &mut Engine, listener: usize, event: &Arc<Event>) -> Vec<Arc<Event>> {
    let report = engine.publish(event);
    assert!(report.failures.is_empty());
    report
        .deliveries
        .into_iter()
        .filter(|delivery| delivery.listener == listener)
        .map(|delivery| delivery.event)
        .collect()
}

#[test]
fn it_works() {}

#[test]
fn simple_chain_emits_one_event_at_the_time_of_the_trigger() {
    let mut engine = engine();
    engine
        .define(rule(
            vec![
                trigger(1, vec![]),
                within(2, EventSelection::Each, SECOND, vec![]),
                within(3, EventSelection::Last, SECOND, vec![]),
            ],
            vec![],
            vec![],
        ))
        .unwrap();
    let listener = engine.subscribe(SubscrFilter::Topic { ty: 4 });
    assert!(emissions(&mut engine, listener, &event(2, vec![Value::Int(1)], T0 - SECOND / 2)).is_empty());
    assert!(emissions(&mut engine, listener, &event(3, vec![Value::Int(1)], T0 - SECOND / 5)).is_empty());
    let emitted = emissions(&mut engine, listener, &event(1, vec![Value::Int(1)], T0));
    assert_eq!(emitted.len(), 1);
    assert_eq!(emitted[0].tuple.ty_id, 4);
    assert_eq!(emitted[0].time, T0);
    assert!(emitted[0].tuple.data.is_empty());
}

#[test]
fn trigger_before_the_other_events_emits_nothing() {
    let mut engine = engine();
    engine
        .define(rule(
            vec![trigger(1, vec![]), within(2, EventSelection::Each, SECOND, vec![])],
            vec![],
            vec![],
        ))
        .unwrap();
    let listener = engine.subscribe(SubscrFilter::Topic { ty: 4 });
    assert!(emissions(&mut engine, listener, &event(1, vec![Value::Int(1)], T0)).is_empty());
    assert!(emissions(&mut engine, listener, &event(2, vec![Value::Int(1)], T0 - SECOND / 2)).is_empty());
}

fn attribute_rule(selection: EventSelection) -> Rule {
    Rule::new(
        vec![
            trigger(1, vec![]),
            Predicate {
                ty: PredicateType::Event {
                    selection,
                    parameters: vec![ParameterDeclaration {
                        name: "x".to_string(),
                        expression: Expression::Reference { attribute: 0 },
                    }],
                    timing: Timing { upper: 0, bound: TimingBound::Within { window: SECOND } },
                },
                tuple: ConstrainedTuple { ty_id: 2, constraints: vec![], alias: "b".to_string() },
            },
        ],
        Vec::new(),
        EventTemplate {
            ty_id: 5,
            attributes: vec![Expression::Parameter { predicate: 1, parameter: 0 }],
        },
        Vec::new(),
    )
}

fn engine_with_output() -> Engine {
    let mut engine = engine();
    engine.declare(declaration(5, "E", vec![("x", BasicType::Int)])).unwrap();
    engine
}

fn values(events: &[Arc<Event>]) -> Vec<i64> {
    events
        .iter()
        .map(|event| match &event.tuple.data[0] {
            Value::Int(x) => *x,
            other => panic!("not an integer: {:?}", other),
        })
        .collect()
}

#[test]
fn last_selects_the_most_recent_event() {
    let mut engine = engine_with_output();
    engine.define(attribute_rule(EventSelection::Last)).unwrap();
    let listener = engine.subscribe(SubscrFilter::Topic { ty: 5 });
    emissions(&mut engine, listener, &event(2, vec![Value::Int(8)], T0 - 8 * SECOND / 10));
    emissions(&mut engine, listener, &event(2, vec![Value::Int(3)], T0 - 3 * SECOND / 10));
    let emitted = emissions(&mut engine, listener, &event(1, vec![Value::Int(0)], T0));
    assert_eq!(values(&emitted), vec![3]);
}

#[test]
fn first_selects_the_least_recent_event() {
    let mut engine = engine_with_output();
    engine.define(attribute_rule(EventSelection::First)).unwrap();
    let listener = engine.subscribe(SubscrFilter::Topic { ty: 5 });
    emissions(&mut engine, listener, &event(2, vec![Value::Int(8)], T0 - 8 * SECOND / 10));
    emissions(&mut engine, listener, &event(2, vec![Value::Int(3)], T0 - 3 * SECOND / 10));
    let emitted = emissions(&mut engine, listener, &event(1, vec![Value::Int(0)], T0));
    assert_eq!(values(&emitted), vec![8]);
}

#[test]
fn each_emits_one_result_for_every_match() {
    for n in [0usize, 1, 5] {
        let mut engine = engine_with_output();
        engine.define(attribute_rule(EventSelection::Each)).unwrap();
        let listener = engine.subscribe(SubscrFilter::Topic { ty: 5 });
        for i in 0..n {
            let time = T0 - (i as i64 + 1) * SECOND / 10;
            emissions(&mut engine, listener, &event(2, vec![Value::Int(i as i64)], time));
        }
        let emitted = emissions(&mut engine, listener, &event(1, vec![Value::Int(0)], T0));
        assert_eq!(values(&emitted), (0..n as i64).collect::<Vec<_>>());
    }
}

#[test]
fn an_event_whose_age_equals_the_window_is_excluded() {
    let count = |time: i64| {
        let mut engine = engine_with_output();
        engine.define(attribute_rule(EventSelection::Each)).unwrap();
        let listener = engine.subscribe(SubscrFilter::Topic { ty: 5 });
        emissions(&mut engine, listener, &event(2, vec![Value::Int(1)], time));
        emissions(&mut engine, listener, &event(1, vec![Value::Int(0)], T0)).len()
    };
    assert_eq!(count(T0 - SECOND), 0);
    assert_eq!(count(T0 - SECOND + 1), 1);
    assert_eq!(count(T0 - SECOND - 1), 0);
    assert_eq!(count(T0 - 1), 1);
    assert_eq!(count(T0), 0);
    assert_eq!(count(T0 + 1), 0);
}

#[test]
fn an_event_that_fails_the_trigger_starts_no_match_but_is_kept() {
    let mut engine = engine_with_output();
    let mut first = trigger(2, vec![Expression::Reference { attribute: 0 }]);
    first.tuple.constraints = vec![Expression::BinaryOperation {
        operator: BinaryOperator::GreaterThan,
        left: Box::new(Expression::Reference { attribute: 0 }),
        right: Box::new(Expression::Immediate { value: Value::Int(10) }),
    }];
    let second = Predicate {
        ty: PredicateType::Event {
            selection: EventSelection::Each,
            parameters: vec![ParameterDeclaration {
                name: "x".to_string(),
                expression: Expression::Reference { attribute: 0 },
            }],
            timing: Timing { upper: 0, bound: TimingBound::Within { window: SECOND } },
        },
        tuple: ConstrainedTuple { ty_id: 2, constraints: vec![], alias: "b".to_string() },
    };
    engine
        .define(Rule::new(
            vec![first, second],
            Vec::new(),
            EventTemplate {
                ty_id: 5,
                attributes: vec![Expression::Parameter { predicate: 1, parameter: 0 }],
            },
            Vec::new(),
        ))
        .unwrap();
    let listener = engine.subscribe(SubscrFilter::Topic { ty: 5 });
    assert!(emissions(&mut engine, listener, &event(2, vec![Value::Int(5)], T0 - 2)).is_empty());
    let emitted = emissions(&mut engine, listener, &event(2, vec![Value::Int(11)], T0));
    assert_eq!(values(&emitted), vec![5]);
}

#[test]
fn constraints_with_parameters_are_checked_for_each_partial_result() {
    let mut engine = engine_with_output();
    let first = trigger(1, vec![Expression::Reference { attribute: 0 }]);
    let second = Predicate {
        ty: PredicateType::Event {
            selection: EventSelection::Each,
            parameters: vec![ParameterDeclaration {
                name: "x".to_string(),
                expression: Expression::Reference { attribute: 0 },
            }],
            timing: Timing { upper: 0, bound: TimingBound::Within { window: SECOND } },
        },
        tuple: ConstrainedTuple {
            ty_id: 2,
            constraints: vec![
                Expression::BinaryOperation {
                    operator: BinaryOperator::GreaterThan,
                    left: Box::new(Expression::Reference { attribute: 0 }),
                    right: Box::new(Expression::Immediate { value: Value::Int(0) }),
                },
                Expression::BinaryOperation {
                    operator: BinaryOperator::LowerThan,
                    left: Box::new(Expression::Reference { attribute: 0 }),
                    right: Box::new(Expression::Parameter { predicate: 0, parameter: 0 }),
                },
            ],
            alias: "b".to_string(),
        },
    };
    engine
        .define(Rule::new(
            vec![first, second],
            Vec::new(),
            EventTemplate {
                ty_id: 5,
                attributes: vec![Expression::Parameter { predicate: 1, parameter: 0 }],
            },
            Vec::new(),
        ))
        .unwrap();
    let listener = engine.subscribe(SubscrFilter::Topic { ty: 5 });
    for (i, x) in [-1i64, 2, 4, 7, 9].iter().enumerate() {
        emissions(&mut engine, listener, &event(2, vec![Value::Int(*x)], T0 - 10 + i as i64));
    }
    let emitted = emissions(&mut engine, listener, &event(1, vec![Value::Int(7)], T0));
    assert_eq!(values(&emitted), vec![2, 4]);
}

fn aggregate_rule(aggregator: Aggregator, ty: BasicType) -> (Engine, usize) {
    let mut engine = engine();
    engine.declare(declaration(6, "F", vec![("v", ty)])).unwrap();
    engine
        .define(Rule::new(
            vec![
                trigger(1, vec![]),
                Predicate {
                    ty: PredicateType::EventAggregate {
                        aggregator,
                        parameter: ParameterDeclaration {
                            name: "v".to_string(),
                            expression: Expression::Aggregate,
                        },
                        timing: Timing { upper: 0, bound: TimingBound::Within { window: SECOND } },
                    },
                    tuple: ConstrainedTuple {
                        ty_id: 2,
                        constraints: vec![],
                        alias: "b".to_string(),
                    },
                },
            ],
            Vec::new(),
            EventTemplate {
                ty_id: 6,
                attributes: vec![Expression::Parameter { predicate: 1, parameter: 0 }],
            },
            Vec::new(),
        ))
        .unwrap();
    let listener = engine.subscribe(SubscrFilter::Topic { ty: 6 });
    (engine, listener)
}

#[test]
fn aggregates_over_no_events() {
    let (mut engine, listener) = aggregate_rule(Aggregator::Sum(0), BasicType::Int);
    let emitted = emissions(&mut engine, listener, &event(1, vec![Value::Int(0)], T0));
    assert_eq!(values(&emitted), vec![0]);
    let (mut engine, listener) = aggregate_rule(Aggregator::Count, BasicType::Int);
    let emitted = emissions(&mut engine, listener, &event(1, vec![Value::Int(0)], T0));
    assert_eq!(values(&emitted), vec![0]);
    for aggregator in [Aggregator::Avg(0), Aggregator::Min(0), Aggregator::Max(0)] {
        let ty = if let Aggregator::Avg(_) = aggregator { BasicType::Float } else { BasicType::Int };
        let (mut engine, listener) = aggregate_rule(aggregator, ty);
        let emitted = emissions(&mut engine, listener, &event(1, vec![Value::Int(0)], T0));
        assert!(emitted.is_empty());
    }
}

#[test]
fn aggregates_over_events() {
    let run = |aggregator: Aggregator, ty: BasicType| {
        let (mut engine, listener) = aggregate_rule(aggregator, ty);
        for (i, x) in [4i64, -2, 9].iter().enumerate() {
            emissions(&mut engine, listener, &event(2, vec![Value::Int(*x)], T0 - 10 + i as i64));
        }
        emissions(&mut engine, listener, &event(1, vec![Value::Int(0)], T0))
    };
    assert_eq!(values(&run(Aggregator::Sum(0), BasicType::Int)), vec![11]);
    assert_eq!(values(&run(Aggregator::Min(0), BasicType::Int)), vec![-2]);
    assert_eq!(values(&run(Aggregator::Max(0), BasicType::Int)), vec![9]);
    assert_eq!(values(&run(Aggregator::Count, BasicType::Int)), vec![3]);
    let average = run(Aggregator::Avg(0), BasicType::Float);
    assert_eq!(average.len(), 1);
    match &average[0].tuple.data[0] {
        Value::Float(x) => assert_eq!(f64::from_bits(x.to_bits()), 11.0 / 3.0),
        other => panic!("not a float: {:?}", other),
    }
}

fn negation_rule() -> (Engine, usize) {
    let mut engine = engine();
    engine
        .define(Rule::new(
            vec![
                trigger(1, vec![]),
                Predicate {
                    ty: PredicateType::EventNegation {
                        timing: Timing { upper: 0, bound: TimingBound::Within { window: SECOND } },
                    },
                    tuple: ConstrainedTuple {
                        ty_id: 2,
                        constraints: vec![],
                        alias: "b".to_string(),
                    },
                },
            ],
            Vec::new(),
            EventTemplate { ty_id: 4, attributes: vec![] },
            Vec::new(),
        ))
        .unwrap();
    let listener = engine.subscribe(SubscrFilter::Topic { ty: 4 });
    (engine, listener)
}

#[test]
fn a_negation_emits_one_result_exactly_when_nothing_matches() {
    let (mut engine, listener) = negation_rule();
    assert_eq!(emissions(&mut engine, listener, &event(1, vec![Value::Int(0)], T0)).len(), 1);
    let (mut engine, listener) = negation_rule();
    emissions(&mut engine, listener, &event(2, vec![Value::Int(0)], T0 - 2 * SECOND));
    assert_eq!(emissions(&mut engine, listener, &event(1, vec![Value::Int(0)], T0)).len(), 1);
    let (mut engine, listener) = negation_rule();
    emissions(&mut engine, listener, &event(2, vec![Value::Int(0)], T0 - SECOND / 2));
    emissions(&mut engine, listener, &event(2, vec![Value::Int(0)], T0 - SECOND / 3));
    assert_eq!(emissions(&mut engine, listener, &event(1, vec![Value::Int(0)], T0)).len(), 0);
}

#[test]
fn consumed_events_match_once() {
    let run = |consuming: Vec<usize>| {
        let mut engine = engine_with_output();
        let mut rule = attribute_rule(EventSelection::Each);
        rule.consuming = consuming;
        engine.define(rule).unwrap();
        let listener = engine.subscribe(SubscrFilter::Topic { ty: 5 });
        emissions(&mut engine, listener, &event(2, vec![Value::Int(1)], T0 - 5));
        let first = emissions(&mut engine, listener, &event(1, vec![Value::Int(0)], T0)).len();
        let second = emissions(&mut engine, listener, &event(1, vec![Value::Int(0)], T0 + 1)).len();
        (first, second)
    };
    assert_eq!(run(vec![]), (1, 1));
    assert_eq!(run(vec![1]), (1, 0));
}

#[test]
fn declaring_a_tuple_twice_is_refused_and_changes_nothing() {
    let mut engine = engine();
    let again = engine.declare(declaration(1, "Other", vec![("x", BasicType::Str)]));
    assert_eq!(again, Err(EngineError::AlreadyDeclared));
    engine
        .define(rule(vec![trigger(1, vec![Expression::Reference { attribute: 0 }])], vec![], vec![]))
        .unwrap();
    let mut wrong = trigger(1, vec![]);
    wrong.tuple.constraints = vec![Expression::BinaryOperation {
        operator: BinaryOperator::Equal,
        left: Box::new(Expression::Reference { attribute: 0 }),
        right: Box::new(Expression::Immediate { value: Value::Str("x".to_string()) }),
    }];
    assert_eq!(
        engine.define(rule(vec![wrong], vec![], vec![])),
        Err(EngineError::Refused(TypeError::WrongBinaryOperands))
    );
}

#[test]
fn listeners_receive_what_they_subscribed_to_until_they_unsubscribe() {
    let mut engine = engine();
    let any = engine.subscribe(SubscrFilter::Any);
    let topic = engine.subscribe(SubscrFilter::Topic { ty: 2 });
    let content = engine.subscribe(SubscrFilter::Content {
        ty: 2,
        filters: vec![Expression::BinaryOperation {
            operator: BinaryOperator::GreaterEqual,
            left: Box::new(Expression::Reference { attribute: 0 }),
            right: Box::new(Expression::Immediate { value: Value::Int(3) }),
        }],
    });
    assert_eq!((any, topic, content), (1, 2, 3));
    let receivers = |engine: &mut Engine, event: &Arc<Event>| {
        engine.publish(event).deliveries.iter().map(|d| d.listener).collect::<Vec<_>>()
    };
    assert_eq!(receivers(&mut engine, &event(1, vec![Value::Int(5)], T0)), vec![any]);
    assert_eq!(receivers(&mut engine, &event(2, vec![Value::Int(2)], T0)), vec![any, topic]);
    assert_eq!(receivers(&mut engine, &event(2, vec![Value::Int(3)], T0)), vec![any, topic, content]);
    engine.unsubscribe(topic);
    assert_eq!(receivers(&mut engine, &event(2, vec![Value::Int(3)], T0)), vec![any, content]);
    engine.unsubscribe(any);
    engine.unsubscribe(any);
    assert_eq!(receivers(&mut engine, &event(2, vec![Value::Int(3)], T0)), vec![content]);
    assert_eq!(engine.subscribe(SubscrFilter::Any), 4);
}

#[test]
fn emitted_events_trigger_other_rules_up_to_the_allowed_depth() {
    let looping = |max_depth: usize| {
        let mut engine = TRex::<Provider>::new(max_depth, vec![StackProvider::new()]);
        engine.declare(declaration(1, "A", vec![])).unwrap();
        engine
            .define(Rule::new(
                vec![trigger(1, vec![])],
                Vec::new(),
                EventTemplate { ty_id: 1, attributes: vec![] },
                Vec::new(),
            ))
            .unwrap();
        let listener = engine.subscribe(SubscrFilter::Any);
        let report = engine.publish(&event(1, vec![], T0));
        assert!(report.deliveries.iter().all(|d| d.listener == listener && d.event.time == T0));
        (report.deliveries.len(), report.dropped)
    };
    assert_eq!(looping(0), (1, 1));
    assert_eq!(looping(3), (4, 1));
}

#[test]
fn a_failing_evaluation_is_reported_and_leaves_the_other_rules_alone() {
    let mut engine = engine_with_output();
    let mut failing = trigger(1, vec![]);
    failing.tuple.constraints = vec![Expression::BinaryOperation {
        operator: BinaryOperator::Equal,
        left: Box::new(Expression::BinaryOperation {
            operator: BinaryOperator::Division,
            left: Box::new(Expression::Immediate { value: Value::Int(1) }),
            right: Box::new(Expression::Reference { attribute: 0 }),
        }),
        right: Box::new(Expression::Immediate { value: Value::Int(1) }),
    }];
    engine.define(rule(vec![failing], vec![], vec![])).unwrap();
    engine.define(rule(vec![trigger(1, vec![])], vec![], vec![])).unwrap();
    let listener = engine.subscribe(SubscrFilter::Topic { ty: 4 });
    let report = engine.publish(&event(1, vec![Value::Int(0)], T0));
    assert_eq!(report.failures.len(), 1);
    assert_eq!(report.failures[0].rule, 0);
    assert_eq!(report.failures[0].error, EvalError::DivisionByZero);
    assert_eq!(report.deliveries.iter().filter(|d| d.listener == listener).count(), 1);
    let report = engine.publish(&event(1, vec![Value::Int(1)], T0));
    assert!(report.failures.is_empty());
    assert_eq!(report.deliveries.iter().filter(|d| d.listener == listener).count(), 2);
}

#[test]
fn a_subscription_is_interested_in_the_events_that_its_filter_accepts() {
    let event = Arc::new(Event { tuple: Tuple { ty_id: 2, data: vec![Value::Int(5)] }, time: 0 });
    let holds = Expression::BinaryOperation {
        operator: BinaryOperator::GreaterThan,
        left: Box::new(Expression::Reference { attribute: 0 }),
        right: Box::new(Expression::Immediate { value: Value::Int(4) }),
    };
    let fails = Expression::BinaryOperation {
        operator: BinaryOperator::GreaterThan,
        left: Box::new(Expression::Reference { attribute: 0 }),
        right: Box::new(Expression::Immediate { value: Value::Int(5) }),
    };
    let broken = Expression::Reference { attribute: 3 };
    let accepted = |filter: SubscrFilter| trex::trex::engine::is_interested(&filter, &event);
    assert!(accepted(SubscrFilter::Any));
    assert!(accepted(SubscrFilter::Topic { ty: 2 }));
    assert!(!accepted(SubscrFilter::Topic { ty: 3 }));
    assert!(accepted(SubscrFilter::Content { ty: 2, filters: vec![] }));
    assert!(accepted(SubscrFilter::Content { ty: 2, filters: vec![holds.clone()] }));
    assert!(!accepted(SubscrFilter::Content { ty: 3, filters: vec![holds.clone()] }));
    assert!(!accepted(SubscrFilter::Content { ty: 2, filters: vec![holds.clone(), fails] }));
    assert!(!accepted(SubscrFilter::Content { ty: 2, filters: vec![broken] }));
    assert!(!accepted(SubscrFilter::Content {
        ty: 2,
        filters: vec![Expression::Reference { attribute: 0 }],
    }));
}

fn replay() -> Vec<(Vec<(usize, usize, i64)>, usize, usize)> {
    let mut engine = engine();
    engine
        .define(rule(
            vec![trigger(1, vec![]), within(2, EventSelection::Each, 10 * SECOND, vec![])],
            vec![],
            vec![1],
        ))
        .unwrap();
    engine
        .define(rule(
            vec![trigger(3, vec![]), within(2, EventSelection::Last, 10 * SECOND, vec![])],
            vec![],
            vec![],
        ))
        .unwrap();
    engine
        .define(Rule::new(
            vec![trigger(4, vec![]), within(3, EventSelection::First, 10 * SECOND, vec![])],
            Vec::new(),
            EventTemplate { ty_id: 1, attributes: vec![Expression::Immediate { value: Value::Int(0) }] },
            Vec::new(),
        ))
        .unwrap();
    let all = engine.subscribe(SubscrFilter::Any);
    let some = engine.subscribe(SubscrFilter::Topic { ty: 4 });
    assert_eq!((all, some), (1, 2));
    let mut reports = Vec::new();
    for (step, ty_id) in [2, 3, 2, 1, 3, 2, 2, 3, 1, 1, 3].iter().enumerate() {
        let report = engine.publish(&event(*ty_id, vec![Value::Int(step as i64)], T0 + step as i64 * SECOND));
        reports.push((
            report
                .deliveries
                .iter()
                .map(|delivery| (delivery.listener, delivery.event.tuple.ty_id, delivery.event.time))
                .collect(),
            report.failures.len(),
            report.dropped,
        ));
    }
    reports
}

#[test]
fn the_same_rules_and_events_give_the_same_reports() {
    let first = replay();
    assert_eq!(first, replay());
    assert!(first.iter().any(|(deliveries, _, _)| deliveries.len() > 2));
    assert!(first.iter().all(|(_, failures, dropped)| *failures == 0 && *dropped == 0));
}

#[test]
fn the_rules_of_an_event_are_evaluated_one_by_one() {
    let mut engine = engine();
    engine
        .define(rule(
            vec![trigger(1, vec![]), within(2, EventSelection::Each, SECOND, vec![])],
            vec![],
            vec![],
        ))
        .unwrap();
    engine
        .define(rule(
            vec![trigger(3, vec![]), within(2, EventSelection::Each, SECOND, vec![])],
            vec![],
            vec![],
        ))
        .unwrap();
    engine.define(rule(vec![trigger(1, vec![])], vec![], vec![])).unwrap();
    let b = event(2, vec![Value::Int(1)], T0 - 1);
    let a = event(1, vec![Value::Int(1)], T0);
    assert_eq!(engine.affected(&b), vec![0, 1]);
    assert_eq!(engine.affected(&a), vec![0, 2]);
    assert_eq!(engine.affected(&event(3, vec![Value::Int(1)], T0)), vec![1]);
    assert_eq!(engine.affected(&event(4, vec![], T0)), Vec::<usize>::new());
    assert_eq!(engine.evaluate(0, &b).map(|r| r.map(|events| events.len())), Some(Ok(0)));
    assert_eq!(engine.evaluate(0, &a).map(|r| r.map(|events| events.len())), Some(Ok(1)));
    assert_eq!(engine.evaluate(1, &a).map(|r| r.map(|events| events.len())), Some(Ok(0)));
    assert_eq!(engine.evaluate(2, &a).map(|r| r.map(|events| events.len())), Some(Ok(1)));
    assert!(engine.evaluate(3, &a).is_none());
    let broken = event(1, vec![], T0);
    assert_eq!(engine.evaluate(0, &broken).map(|r| r.map(|events| events.len())), Some(Ok(1)));
    assert!(engine.follows(0) && engine.follows(15) && !engine.follows(16) && !engine.follows(17));
}

use rusqlite::types::ValueRef;
use rusqlite::Connection;
use std::cell::Cell;
use std::rc::Rc;
use std::sync::Arc;
use trex::tesla::expressions::{BasicType, BinaryOperator, Expression, Value};
use trex::tesla::number::Number;
use trex::tesla::predicates::{
    Aggregator, AttributeOrdering, ConstrainedTuple, Order, ParameterDeclaration, Predicate,
    PredicateType,
};
use trex::tesla::{
    AttributeDeclaration, Event, EventTemplate, Rule, SubscrFilter, Tuple, TupleDeclaration,
    TupleType,
};
use trex::trex::cache::dummy::DummyCache;
use trex::trex::cache::gdfs_cache::GDSFCache;
use trex::trex::cache::{Cache, Fetcher};
use trex::trex::collections::ParameterTypes;
use trex::trex::engine::TRex;
use trex::trex::providers::{EitherProvider, NodeProvider, StackProvider};
use trex::trex::rule_checks::Types;
use trex::trex::rule_processor::{Node, NodeShape};
use trex::trex::sqlite::{CacheEntryModel, CacheKeyModel};
use trex::trex::sqlite::driver::{SQLiteDriver, StaticQuery};
use trex::trex::sqlite::query_builder::parameter_name;
use trex::trex::sqlite::caches::{make_cache, SqlCaches};
use trex::trex::sqlite::rows::{build_entry, to_sql_value, SqlValue, StaticKind};
use trex::trex::sqlite::{CacheEntry, CacheKey, CacheType};

const T0: i64 = 1_000_000_000_000;

struct SqlSource {
    connection: Rc<Connection>,
    kind: StaticKind,
    names: Vec<String>,
    types: Vec<BasicType>,
    calls: Rc<Cell<usize>>,
}

impl Fetcher<CacheKey, CacheEntry> for SqlSource {
    // The model of what the source may answer; no program calls it.
    fn answers(&self, _key: CacheKeyModel, _value: CacheEntryModel) -> bool {
        unreachable!()
    }

    fn fetch(&self, key: &CacheKey) -> CacheEntry {
        self.calls.set(self.calls.get() + 1);
        let mut statement = self.connection.prepare(&key.statement).unwrap();
        for (name, value) in self.names.iter().zip(key.input_params.iter()) {
            let index = statement.parameter_index(name).unwrap().unwrap();
            match to_sql_value(value) {
                SqlValue::Null => statement.raw_bind_parameter(index, rusqlite::types::Null),
                SqlValue::Integer(x) => statement.raw_bind_parameter(index, x),
                SqlValue::Real(x) => statement.raw_bind_parameter(index, f64::from_bits(x.to_bits())),
                SqlValue::Text(x) => statement.raw_bind_parameter(index, x),
                SqlValue::Blob(x) => statement.raw_bind_parameter(index, x),
            }
            .unwrap();
        }
        let columns = statement.column_count();
        let mut rows = statement.raw_query();
        let mut read: Vec<Vec<SqlValue>> = Vec::new();
        while let Some(row) = rows.next().unwrap() {
            let mut values = Vec::new();
            for i in 0..columns {
                values.push(match row.get_ref(i).unwrap() {
                    ValueRef::Null => SqlValue::Null,
                    ValueRef::Integer(x) => SqlValue::Integer(x),
                    ValueRef::Real(x) => SqlValue::Real(Number::from_bits(x.to_bits())),
                    ValueRef::Text(x) => SqlValue::Text(String::from_utf8(x.to_vec()).unwrap()),
                    ValueRef::Blob(x) => SqlValue::Blob(x.to_vec()),
                });
            }
            read.push(values);
        }
        build_entry(self.kind, &self.types, &read, Some(7)).unwrap()
    }
}

type Engine<C> = TRex<EitherProvider<StackProvider<C, SqlSource>, Provider<C>>>;

struct Provider<C> {
    connection: Rc<Connection>,
    calls: Rc<Cell<usize>>,
    cache: fn() -> C,
}

impl<C: Cache<K = CacheKey, V = CacheEntry>> NodeProvider for Provider<C> {
    type C = C;
    type F = SqlSource;

    // The model of what the provider offers; no program calls it.
    fn offer(
        &self,
        _idx: usize,
        _tuple: TupleDeclaration,
        _predicate: Predicate,
        _types: Types,
    ) -> Option<NodeShape> {
        unreachable!()
    }

    fn provide(
        &self,
        idx: usize,
        tuple: &TupleDeclaration,
        predicate: &Predicate,
        parameters_ty: &ParameterTypes,
    ) -> Option<Node<C, SqlSource>> {
        let query = StaticQuery::new(idx, tuple, predicate, parameters_ty)?;
        let source = SqlSource {
            connection: self.connection.clone(),
            kind: query.kind,
            names: query.input_params.iter().map(|&(p, q)| parameter_name(p, q)).collect(),
            types: query.output_params.clone(),
            calls: self.calls.clone(),
        };
        Some(Node::Static(SQLiteDriver::with_query(query, source, (self.cache)())))
    }
}

fn table() -> Rc<Connection> {
    let connection = Connection::open_in_memory().unwrap();
    connection
        .execute_batch(
            "CREATE TABLE T (col0 INTEGER NOT NULL, col1 TEXT NOT NULL);
             INSERT INTO T VALUES (1, 'one'), (2, 'two'), (3, 'three');",
        )
        .unwrap();
    Rc::new(connection)
}

fn attribute(name: &str, ty: BasicType) -> AttributeDeclaration {
    AttributeDeclaration { name: name.to_string(), ty }
}

fn setup<C: Cache<K = CacheKey, V = CacheEntry>>(
    cache: fn() -> C,
    predicate: Predicate,
    output: Vec<(Expression, BasicType)>,
) -> (Engine<C>, Rc<Cell<usize>>, usize) {
    let calls = Rc::new(Cell::new(0));
    let provider = Provider { connection: table(), calls: calls.clone(), cache };
    let mut engine = TRex::new(
        4,
        vec![EitherProvider::First(StackProvider::new()), EitherProvider::Second(provider)],
    );
    engine
        .declare(TupleDeclaration {
            ty: TupleType::Event,
            id: 1,
            name: "A".to_string(),
            attributes: vec![attribute("x", BasicType::Int), attribute("y", BasicType::Int)],
        })
        .unwrap();
    engine
        .declare(TupleDeclaration {
            ty: TupleType::Static,
            id: 2,
            name: "T".to_string(),
            attributes: vec![attribute("col0", BasicType::Int), attribute("col1", BasicType::Str)],
        })
        .unwrap();
    engine
        .declare(TupleDeclaration {
            ty: TupleType::Event,
            id: 3,
            name: "D".to_string(),
            attributes: output.iter().enumerate().map(|(i, (_, ty))| attribute(&format!("a{}", i), *ty)).collect(),
        })
        .unwrap();
    let trigger = Predicate {
        ty: PredicateType::Trigger {
            parameters: vec![
                ParameterDeclaration {
                    name: "x".to_string(),
                    expression: Expression::Reference { attribute: 0 },
                },
                ParameterDeclaration {
                    name: "y".to_string(),
                    expression: Expression::Reference { attribute: 1 },
                },
            ],
        },
        tuple: ConstrainedTuple { ty_id: 1, constraints: vec![], alias: "a".to_string() },
    };
    engine
        .define(Rule::new(
            vec![trigger, predicate],
            Vec::new(),
            EventTemplate { ty_id: 3, attributes: output.into_iter().map(|(e, _)| e).collect() },
            Vec::new(),
        ))
        .unwrap();
    let listener = engine.subscribe(SubscrFilter::Topic { ty: 3 });
    (engine, calls, listener)
}

fn between_x_and_y() -> Vec<Expression> {
    vec![
        Expression::BinaryOperation {
            operator: BinaryOperator::GreaterEqual,
            left: Box::new(Expression::Reference { attribute: 0 }),
            right: Box::new(Expression::Parameter { predicate: 0, parameter: 0 }),
        },
        Expression::BinaryOperation {
            operator: BinaryOperator::LowerThan,
            left: Box::new(Expression::Reference { attribute: 0 }),
            right: Box::new(Expression::Parameter { predicate: 0, parameter: 1 }),
        },
    ]
}

fn on_table(ty: PredicateType, constraints: Vec<Expression>) -> Predicate {
    Predicate { ty, tuple: ConstrainedTuple { ty_id: 2, constraints, alias: "t".to_string() } }
}

fn column(attribute: usize, name: &str) -> ParameterDeclaration {
    ParameterDeclaration { name: name.to_string(), expression: Expression::Reference { attribute } }
}

fn trigger_event(x: i64, y: i64) -> Arc<Event> {
    Arc::new(Event { tuple: Tuple { ty_id: 1, data: vec![Value::Int(x), Value::Int(y)] }, time: T0 })
}

fn publish<C: Cache<K = CacheKey, V = CacheEntry>>(
    engine: &mut Engine<C>,
    listener: usize,
    x: i64,
    y: i64,
) -> Vec<Vec<String>> {
    let report = engine.publish(&trigger_event(x, y));
    assert!(report.failures.is_empty(), "{:?}", report.failures);
    report
        .deliveries
        .iter()
        .filter(|d| d.listener == listener)
        .map(|d| {
            d.event
                .tuple
                .data
                .iter()
                .map(|value| match value {
                    Value::Int(x) => x.to_string(),
                    Value::Float(x) => f64::from_bits(x.to_bits()).to_string(),
                    Value::Bool(x) => x.to_string(),
                    Value::Str(x) => x.clone(),
                })
                .collect()
        })
        .collect()
}

fn no_cache() -> DummyCache<CacheKey, CacheEntry> {
    DummyCache::new()
}

fn one_entry() -> SqlCaches {
    make_cache(CacheType::Lru, 1)
}

fn many_entries() -> SqlCaches {
    make_cache(CacheType::Lru, 10)
}

fn chained() -> SqlCaches {
    make_cache(CacheType::Collision, 3)
}

fn by_size() -> SqlCaches {
    make_cache(CacheType::LruSize, 3)
}

fn greedy() -> GDSFCache<CacheKey, CacheEntry> {
    GDSFCache::new(10)
}

#[test]
fn static_join_emits_one_event_for_every_matching_row() {
    let predicate = on_table(
        PredicateType::UnorderedStatic { parameters: vec![column(0, "v"), column(1, "w")] },
        between_x_and_y(),
    );
    let (mut engine, calls, listener) = setup(no_cache,
        predicate,
        vec![
            (Expression::Parameter { predicate: 1, parameter: 0 }, BasicType::Int),
            (Expression::Parameter { predicate: 1, parameter: 1 }, BasicType::Str),
        ],
    );
    assert_eq!(
        publish(&mut engine, listener, 1, 3),
        vec![vec!["1".to_string(), "one".to_string()], vec!["2".to_string(), "two".to_string()]]
    );
    assert_eq!(publish(&mut engine, listener, 5, 9), Vec::<Vec<String>>::new());
    assert_eq!(calls.get(), 2);
}

#[test]
fn static_join_without_parameters_emits_as_many_events_as_rows() {
    let predicate = on_table(PredicateType::UnorderedStatic { parameters: vec![] }, between_x_and_y());
    let (mut engine, _, listener) = setup(no_cache, predicate, vec![]);
    assert_eq!(publish(&mut engine, listener, 1, 4).len(), 3);
    assert_eq!(publish(&mut engine, listener, 2, 3).len(), 1);
    assert_eq!(publish(&mut engine, listener, 4, 4).len(), 0);
}

#[test]
fn static_negation_emits_when_no_row_exists() {
    let predicate = on_table(
        PredicateType::StaticNegation,
        vec![Expression::BinaryOperation {
            operator: BinaryOperator::Equal,
            left: Box::new(Expression::Reference { attribute: 0 }),
            right: Box::new(Expression::Immediate { value: Value::Int(99) }),
        }],
    );
    let (mut engine, _, listener) = setup(no_cache, predicate, vec![]);
    assert_eq!(publish(&mut engine, listener, 0, 0).len(), 1);
    assert_eq!(publish(&mut engine, listener, 0, 0).len(), 1);
    let predicate = on_table(PredicateType::StaticNegation, between_x_and_y());
    let (mut engine, _, listener) = setup(no_cache, predicate, vec![]);
    assert_eq!(publish(&mut engine, listener, 2, 3).len(), 0);
    assert_eq!(publish(&mut engine, listener, 7, 8).len(), 1);
}

#[test]
fn static_aggregate_emits_the_value_of_the_aggregate() {
    let predicate = on_table(
        PredicateType::StaticAggregate {
            aggregator: Aggregator::Sum(0),
            parameter: ParameterDeclaration {
                name: "s".to_string(),
                expression: Expression::Aggregate,
            },
        },
        between_x_and_y(),
    );
    let (mut engine, _, listener) = setup(no_cache,
        predicate,
        vec![(Expression::Parameter { predicate: 1, parameter: 0 }, BasicType::Int)],
    );
    assert_eq!(publish(&mut engine, listener, 1, 4), vec![vec!["6".to_string()]]);
    assert_eq!(publish(&mut engine, listener, 2, 4), vec![vec!["5".to_string()]]);
}

#[test]
fn ordered_static_emits_the_first_row() {
    let ordered = |direction: Order| {
        let predicate = on_table(
            PredicateType::OrderedStatic {
                parameters: vec![column(1, "w")],
                ordering: vec![AttributeOrdering { attribute: 0, direction }],
            },
            between_x_and_y(),
        );
        let (mut engine, _, listener) = setup(no_cache,
            predicate,
            vec![(Expression::Parameter { predicate: 1, parameter: 0 }, BasicType::Str)],
        );
        publish(&mut engine, listener, 1, 4)
    };
    assert_eq!(ordered(Order::Asc), vec![vec!["one".to_string()]]);
    assert_eq!(ordered(Order::Desc), vec![vec!["three".to_string()]]);
}

fn join() -> Predicate {
    on_table(PredicateType::UnorderedStatic { parameters: vec![column(0, "v")] }, between_x_and_y())
}

fn output() -> Vec<(Expression, BasicType)> {
    vec![(Expression::Parameter { predicate: 1, parameter: 0 }, BasicType::Int)]
}

#[test]
fn a_cache_of_one_entry_misses_a_key_that_was_evicted() {
    let (mut engine, calls, listener) = setup(one_entry, join(), output());
    assert_eq!(publish(&mut engine, listener, 1, 3).len(), 2);
    assert_eq!(calls.get(), 1);
    assert_eq!(publish(&mut engine, listener, 1, 3).len(), 2);
    assert_eq!(calls.get(), 1);
    assert_eq!(publish(&mut engine, listener, 2, 4).len(), 2);
    assert_eq!(calls.get(), 2);
    assert_eq!(publish(&mut engine, listener, 1, 3).len(), 2);
    assert_eq!(calls.get(), 3);
}

#[test]
fn a_cache_answers_what_the_source_answers() {
    let keys = [(1, 3), (2, 4), (1, 3), (0, 9), (2, 4), (5, 5), (1, 3), (0, 9)];
    let expected: Vec<_> = {
        let (mut engine, calls, listener) = setup(no_cache, join(), output());
        let answers = keys.iter().map(|&(x, y)| publish(&mut engine, listener, x, y)).collect();
        assert_eq!(calls.get(), keys.len());
        answers
    };
    let (mut engine, calls, listener) = setup(many_entries, join(), output());
    let answers: Vec<_> = keys.iter().map(|&(x, y)| publish(&mut engine, listener, x, y)).collect();
    assert_eq!(answers, expected);
    assert_eq!(calls.get(), 4);
    let (mut engine, calls, listener) = setup(one_entry, join(), output());
    let answers: Vec<_> = keys.iter().map(|&(x, y)| publish(&mut engine, listener, x, y)).collect();
    assert_eq!(answers, expected);
    assert_eq!(calls.get(), 8);
    let (mut engine, calls, listener) = setup(greedy, join(), output());
    let answers: Vec<_> = keys.iter().map(|&(x, y)| publish(&mut engine, listener, x, y)).collect();
    assert_eq!(answers, expected);
    assert!(calls.get() >= 4 && calls.get() <= 8);
    let (mut engine, calls, listener) = setup(chained, join(), output());
    let answers: Vec<_> = keys.iter().map(|&(x, y)| publish(&mut engine, listener, x, y)).collect();
    assert_eq!(answers, expected);
    assert_eq!(calls.get(), 4);
    let (mut engine, calls, listener) = setup(by_size, join(), output());
    let answers: Vec<_> = keys.iter().map(|&(x, y)| publish(&mut engine, listener, x, y)).collect();
    assert_eq!(answers, expected);
    assert!(calls.get() >= 4 && calls.get() <= 8);
}

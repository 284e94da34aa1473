use std::sync::Arc;
use trex::tesla::expressions::{BasicType, BinaryOperator, Expression, UnaryOperator, Value};
use trex::tesla::number::Number;
use trex::tesla::predicates::{
    Aggregator, AttributeOrdering, ConstrainedTuple, EventSelection, Order, ParameterDeclaration,
    Predicate, PredicateType, Timing, TimingBound,
};
use trex::tesla::{AttributeDeclaration, Event, Tuple, TupleDeclaration, TupleType};
use trex::trex::collections::ParameterTypes;
use trex::trex::expressions::{Binding, PartialResult};
use trex::trex::sqlite::driver::{materialize, StaticQuery};
use trex::trex::sqlite::query_builder::{parameter_name, SqlContext};
use trex::trex::sqlite::rows::{build_entry, cost_of, get_res, to_sql_value, DataError, SqlValue, StaticKind};
use trex::trex::sqlite::{CacheEntry, CacheEntryValue};

fn table(ty: TupleType) -> TupleDeclaration {
    TupleDeclaration {
        ty,
        id: 2,
        name: "T".to_string(),
        attributes: vec![
            AttributeDeclaration { name: "col0".to_string(), ty: BasicType::Int },
            AttributeDeclaration { name: "col1".to_string(), ty: BasicType::Str },
        ],
    }
}

fn integer(x: i64) -> Expression {
    Expression::Immediate { value: Value::Int(x) }
}

fn attribute(attribute: usize) -> Expression {
    Expression::Reference { attribute }
}

fn parameter(predicate: usize, parameter: usize) -> Expression {
    Expression::Parameter { predicate, parameter }
}

fn op(operator: BinaryOperator, left: Expression, right: Expression) -> Expression {
    Expression::BinaryOperation { operator, left: Box::new(left), right: Box::new(right) }
}

fn named(name: &str, expression: Expression) -> ParameterDeclaration {
    ParameterDeclaration { name: name.to_string(), expression }
}

fn on(ty: PredicateType, constraints: Vec<Expression>) -> Predicate {
    Predicate { ty, tuple: ConstrainedTuple { ty_id: 2, constraints, alias: "t".to_string() } }
}

fn between() -> Vec<Expression> {
    vec![
        op(BinaryOperator::GreaterEqual, attribute(0), parameter(0, 0)),
        op(BinaryOperator::LowerThan, attribute(0), parameter(0, 1)),
    ]
}

fn statement(predicate: &Predicate) -> Option<String> {
    let table = table(TupleType::Static);
    let mut context = SqlContext::new(1, &table);
    context.encode_predicate(predicate)
}

#[test]
fn the_parts_of_a_statement() {
    let table = table(TupleType::Static);
    let mut context = SqlContext::new(1, &table);
    assert_eq!(context.encode_value(&Value::Int(-42)), "-42");
    assert_eq!(context.encode_value(&Value::Int(0)), "0");
    assert_eq!(context.encode_value(&Value::Int(i64::MIN)), "-9223372036854775808");
    assert_eq!(context.encode_value(&Value::Bool(true)), "true");
    assert_eq!(context.encode_value(&Value::Bool(false)), "false");
    assert_eq!(context.encode_value(&Value::Str("a \"b\"\n".to_string())), "\"a \\\"b\\\"\\n\"");
    let half = context.encode_value(&Value::Float(Number::from_bits(0.5f64.to_bits())));
    assert_eq!(half.parse::<f64>().unwrap(), 0.5);
    let third = context.encode_value(&Value::Float(Number::from_bits((1.0f64 / 3.0).to_bits())));
    assert_eq!(third.parse::<f64>().unwrap(), 1.0 / 3.0);
    assert_eq!(context.encode_unary(&UnaryOperator::Minus), "-");
    assert_eq!(context.encode_unary(&UnaryOperator::Not), "!");
    let operators = [
        (BinaryOperator::Plus, "+"),
        (BinaryOperator::Minus, "-"),
        (BinaryOperator::Times, "*"),
        (BinaryOperator::Division, "/"),
        (BinaryOperator::Equal, "="),
        (BinaryOperator::NotEqual, "!="),
        (BinaryOperator::GreaterThan, ">"),
        (BinaryOperator::GreaterEqual, ">="),
        (BinaryOperator::LowerThan, "<"),
        (BinaryOperator::LowerEqual, "<="),
    ];
    for (operator, text) in operators {
        assert_eq!(context.encode_binary(&operator), text);
    }
    assert_eq!(context.encode_attribute(1), Some("T.col1".to_string()));
    assert_eq!(context.encode_attribute(2), None);
    assert_eq!(context.encode_order(&Order::Asc), "ASC");
    assert_eq!(context.encode_order(&Order::Desc), "DESC");
    assert_eq!(
        context.encode_ordering(&AttributeOrdering { attribute: 0, direction: Order::Desc }),
        Some("T.col0 DESC".to_string())
    );
    assert_eq!(context.encode_ordering(&AttributeOrdering { attribute: 7, direction: Order::Asc }), None);
    assert_eq!(context.get_parameter(0, 12), Some(":param0x12".to_string()));
    assert_eq!(context.get_parameter(1, 0), None);
    assert_eq!(context.encode_expression(&Expression::Aggregate), None);
    assert_eq!(context.insert_parameter(&named("v", op(BinaryOperator::Plus, attribute(0), integer(1)))), Some("(T.col0 + 1)".to_string()));
    assert_eq!(context.get_parameter(1, 0), Some("(T.col0 + 1)".to_string()));
    assert_eq!(context.get_parameter(1, 1), None);
    assert_eq!(context.insert_parameter(&named("w", attribute(5))), None);
    assert_eq!(context.get_parameter(1, 1), None);
    assert!(!context.set_aggregate(&Aggregator::Sum(9)));
    assert!(context.set_aggregate(&Aggregator::Avg(0)));
    assert_eq!(context.encode_expression(&Expression::Aggregate), Some("AVG(T.col0)".to_string()));
    assert!(context.set_aggregate(&Aggregator::Count));
    assert_eq!(context.encode_expression(&Expression::Aggregate), Some("COUNT(*)".to_string()));
    let nested = Expression::UnaryOperation {
        operator: UnaryOperator::Minus,
        expression: Box::new(Expression::Cast {
            ty: BasicType::Float,
            expression: Box::new(op(BinaryOperator::Times, parameter(1, 0), parameter(3, 4))),
        }),
    };
    assert_eq!(context.encode_expression(&nested), Some("(-((T.col0 + 1) * :param3x4))".to_string()));
    assert_eq!(parameter_name(10, 0), ":param10x0");
    assert_eq!(parameter_name(usize::MAX, 7), format!(":param{}x7", usize::MAX));
}

#[test]
fn the_statements_of_predicates() {
    assert_eq!(
        statement(&on(
            PredicateType::UnorderedStatic {
                parameters: vec![named("v", attribute(0)), named("w", attribute(1))]
            },
            between()
        )),
        Some("SELECT T.col0 AS v, T.col1 AS w FROM T WHERE (T.col0 >= :param0x0) AND (T.col0 < :param0x1) ".to_string())
    );
    assert_eq!(
        statement(&on(PredicateType::UnorderedStatic { parameters: vec![] }, between())),
        Some("SELECT 1 FROM T WHERE (T.col0 >= :param0x0) AND (T.col0 < :param0x1) ".to_string())
    );
    assert_eq!(
        statement(&on(
            PredicateType::OrderedStatic {
                parameters: vec![named("v", attribute(0))],
                ordering: vec![
                    AttributeOrdering { attribute: 1, direction: Order::Asc },
                    AttributeOrdering { attribute: 0, direction: Order::Desc },
                ],
            },
            vec![op(BinaryOperator::Equal, attribute(1), Expression::Immediate { value: Value::Str("x".to_string()) })]
        )),
        Some("SELECT T.col0 AS v FROM T WHERE (T.col1 = \"x\") ORDER BY T.col1 ASC, T.col0 DESC LIMIT 1".to_string())
    );
    assert_eq!(
        statement(&on(
            PredicateType::StaticAggregate {
                aggregator: Aggregator::Max(0),
                parameter: named("m", op(BinaryOperator::Plus, Expression::Aggregate, integer(1))),
            },
            vec![op(BinaryOperator::NotEqual, attribute(0), integer(5))]
        )),
        Some("SELECT (MAX(T.col0) + 1) AS m FROM T WHERE (T.col0 != 5) ".to_string())
    );
    assert_eq!(
        statement(&on(PredicateType::StaticNegation, vec![op(BinaryOperator::Equal, attribute(0), integer(99))])),
        Some("SELECT 1 FROM T WHERE (T.col0 = 99) LIMIT 1".to_string())
    );
    assert_eq!(
        statement(&on(
            PredicateType::UnorderedStatic { parameters: vec![named("v", attribute(0))] },
            vec![op(BinaryOperator::GreaterThan, parameter(1, 0), parameter(0, 0))]
        )),
        Some("SELECT T.col0 AS v FROM T WHERE (T.col0 > :param0x0) ".to_string())
    );
}

#[test]
fn predicates_without_a_statement() {
    let timing = Timing { upper: 0, bound: TimingBound::Within { window: 1 } };
    assert_eq!(statement(&on(PredicateType::Trigger { parameters: vec![] }, vec![])), None);
    assert_eq!(
        statement(&on(
            PredicateType::Event { selection: EventSelection::Each, parameters: vec![], timing },
            vec![]
        )),
        None
    );
    assert_eq!(statement(&on(PredicateType::EventNegation { timing }, vec![])), None);
    assert_eq!(
        statement(&on(PredicateType::UnorderedStatic { parameters: vec![named("v", attribute(4))] }, vec![])),
        None
    );
    assert_eq!(statement(&on(PredicateType::StaticNegation, vec![attribute(4)])), None);
    assert_eq!(
        statement(&on(
            PredicateType::OrderedStatic {
                parameters: vec![],
                ordering: vec![AttributeOrdering { attribute: 4, direction: Order::Asc }]
            },
            vec![]
        )),
        None
    );
    assert_eq!(
        statement(&on(
            PredicateType::StaticAggregate { aggregator: Aggregator::Min(4), parameter: named("m", integer(1)) },
            vec![]
        )),
        None
    );
    assert_eq!(
        statement(&on(PredicateType::StaticNegation, vec![parameter(1, 0)])),
        None
    );
}

#[test]
fn what_a_predicate_asks() {
    let predicate = on(
        PredicateType::UnorderedStatic { parameters: vec![named("v", attribute(0)), named("w", attribute(1))] },
        vec![
            op(BinaryOperator::LowerThan, attribute(0), parameter(0, 1)),
            op(BinaryOperator::GreaterEqual, parameter(1, 0), parameter(0, 0)),
            op(BinaryOperator::GreaterEqual, attribute(0), parameter(0, 0)),
        ],
    );
    let mut types = ParameterTypes::new();
    types.insert((1, 0), BasicType::Int);
    assert!(StaticQuery::new(1, &table(TupleType::Static), &predicate, &types).is_none());
    types.insert((1, 1), BasicType::Str);
    assert!(StaticQuery::new(1, &table(TupleType::Event), &predicate, &types).is_none());
    let query = StaticQuery::new(1, &table(TupleType::Static), &predicate, &types).unwrap();
    assert_eq!(query.idx, 1);
    assert_eq!(query.kind, StaticKind::Unordered);
    assert_eq!(query.input_params, vec![(0, 0), (0, 1)]);
    assert_eq!(query.output_params, vec![BasicType::Int, BasicType::Str]);
    assert_eq!(
        query.statement,
        "SELECT T.col0 AS v, T.col1 AS w FROM T WHERE (T.col0 < :param0x1) AND (T.col0 >= :param0x0) AND (T.col0 >= :param0x0) "
    );
    let negation = on(PredicateType::StaticNegation, vec![]);
    let query = StaticQuery::new(3, &table(TupleType::Static), &negation, &types).unwrap();
    assert_eq!(query.kind, StaticKind::Negation);
    assert!(query.input_params.is_empty() && query.output_params.is_empty());
    let trigger = on(PredicateType::Trigger { parameters: vec![] }, vec![]);
    assert!(StaticQuery::new(1, &table(TupleType::Static), &trigger, &types).is_none());
}

fn double(x: f64) -> SqlValue {
    SqlValue::Real(Number::from_bits(x.to_bits()))
}

#[test]
fn values_go_to_the_database_and_come_back() {
    assert!(matches!(to_sql_value(&Value::Int(-3)), SqlValue::Integer(-3)));
    assert!(matches!(to_sql_value(&Value::Bool(true)), SqlValue::Integer(1)));
    assert!(matches!(to_sql_value(&Value::Bool(false)), SqlValue::Integer(0)));
    assert!(matches!(to_sql_value(&Value::Str("x".to_string())), SqlValue::Text(x) if x == "x"));
    assert!(matches!(to_sql_value(&Value::Float(Number::from_bits(1.5f64.to_bits()))), SqlValue::Real(x) if x.to_bits() == 1.5f64.to_bits()));
    let row = vec![SqlValue::Integer(7), double(2.5), SqlValue::Text("t".to_string()), SqlValue::Null, SqlValue::Integer(0), SqlValue::Blob(vec![1])];
    assert_eq!(get_res(&row, 0, &BasicType::Int), Ok(Value::Int(7)));
    assert_eq!(get_res(&row, 0, &BasicType::Bool), Ok(Value::Bool(true)));
    assert_eq!(get_res(&row, 4, &BasicType::Bool), Ok(Value::Bool(false)));
    assert_eq!(get_res(&row, 0, &BasicType::Float), Ok(Value::Float(Number::from_bits(7.0f64.to_bits()))));
    assert_eq!(get_res(&row, 1, &BasicType::Float), Ok(Value::Float(Number::from_bits(2.5f64.to_bits()))));
    assert_eq!(get_res(&row, 2, &BasicType::Str), Ok(Value::Str("t".to_string())));
    assert_eq!(get_res(&row, 0, &BasicType::Str), Err(DataError::WrongColumnType));
    assert_eq!(get_res(&row, 1, &BasicType::Int), Err(DataError::WrongColumnType));
    assert_eq!(get_res(&row, 2, &BasicType::Bool), Err(DataError::WrongColumnType));
    assert_eq!(get_res(&row, 3, &BasicType::Int), Err(DataError::WrongColumnType));
    assert_eq!(get_res(&row, 5, &BasicType::Str), Err(DataError::WrongColumnType));
    assert_eq!(get_res(&row, 6, &BasicType::Int), Err(DataError::MissingColumn));
}

fn summary(entry: Result<CacheEntry, DataError>) -> Result<String, DataError> {
    entry.map(|entry| format!("{} {:?}", entry.cost, entry.value))
}

#[test]
fn the_entries_that_rows_make() {
    let rows = vec![
        vec![SqlValue::Integer(1), SqlValue::Text("a".to_string())],
        vec![SqlValue::Integer(2), SqlValue::Text("b".to_string())],
    ];
    let types = vec![BasicType::Int, BasicType::Str];
    assert_eq!(
        summary(build_entry(StaticKind::Unordered, &types, &rows, Some(5))),
        Ok("5 Values(2, [Int(1), Str(\"a\"), Int(2), Str(\"b\")])".to_string())
    );
    assert_eq!(
        summary(build_entry(StaticKind::Ordered, &vec![BasicType::Bool], &rows, Some(-5))),
        Ok("0 Values(1, [Bool(true), Bool(true)])".to_string())
    );
    assert_eq!(
        summary(build_entry(StaticKind::Unordered, &vec![], &rows, None)),
        Ok(format!("{} Count(2)", usize::MAX))
    );
    assert_eq!(summary(build_entry(StaticKind::Unordered, &vec![], &vec![], Some(1))), Ok("1 Count(0)".to_string()));
    assert_eq!(summary(build_entry(StaticKind::Unordered, &types, &vec![], Some(1))), Ok("1 Values(2, [])".to_string()));
    assert_eq!(summary(build_entry(StaticKind::Aggregate, &types, &rows, Some(1))), Ok("1 Aggr(Int(1))".to_string()));
    assert_eq!(summary(build_entry(StaticKind::Negation, &types, &rows, Some(1))), Ok("1 Exists(true)".to_string()));
    assert_eq!(summary(build_entry(StaticKind::Negation, &types, &vec![], Some(1))), Ok("1 Exists(false)".to_string()));
    assert_eq!(summary(build_entry(StaticKind::Aggregate, &types, &vec![], Some(1))), Err(DataError::MissingRow));
    assert_eq!(summary(build_entry(StaticKind::Aggregate, &vec![], &rows, Some(1))), Err(DataError::MissingColumn));
    assert_eq!(
        summary(build_entry(StaticKind::Aggregate, &vec![BasicType::Str], &rows, Some(1))),
        Err(DataError::WrongColumnType)
    );
    assert_eq!(
        summary(build_entry(StaticKind::Unordered, &vec![BasicType::Int, BasicType::Int], &rows, Some(1))),
        Err(DataError::WrongColumnType)
    );
    assert_eq!(
        summary(build_entry(
            StaticKind::Unordered,
            &vec![BasicType::Int, BasicType::Str, BasicType::Int],
            &rows,
            Some(1)
        )),
        Err(DataError::MissingColumn)
    );
    assert_eq!(cost_of(Some(12)), 12);
    assert_eq!(cost_of(Some(-1)), 0);
    assert_eq!(cost_of(None), usize::MAX);
}

fn rows_of(results: &[PartialResult]) -> Vec<Option<Vec<Value>>> {
    results
        .iter()
        .map(|result| {
            assert_eq!(result.len(), 2);
            assert_eq!(result.get_time(0), Ok(5));
            match result.get(1) {
                Some(Binding::Row(values)) => Some(values.clone()),
                Some(Binding::Nothing) => None,
                other => panic!("{:?}", other),
            }
        })
        .collect()
}

#[test]
fn the_partial_results_that_an_answer_makes() {
    let event = Arc::new(Event { tuple: Tuple { ty_id: 1, data: vec![] }, time: 5 });
    let result = PartialResult::with_trigger(0, &event);
    let entry = |value| CacheEntry { cost: 0, value };
    let ints = |list: &[i64]| list.iter().map(|x| Value::Int(*x)).collect::<Vec<_>>();
    assert_eq!(
        rows_of(&materialize(&result, &entry(CacheEntryValue::Values(2, ints(&[1, 2, 3, 4, 5, 6]))))),
        vec![Some(ints(&[1, 2])), Some(ints(&[3, 4])), Some(ints(&[5, 6]))]
    );
    assert_eq!(
        rows_of(&materialize(&result, &entry(CacheEntryValue::Values(2, ints(&[1, 2, 3]))))),
        vec![Some(ints(&[1, 2])), Some(ints(&[3]))]
    );
    assert_eq!(
        rows_of(&materialize(&result, &entry(CacheEntryValue::Values(5, ints(&[1, 2]))))),
        vec![Some(ints(&[1, 2]))]
    );
    assert!(materialize(&result, &entry(CacheEntryValue::Values(2, vec![]))).is_empty());
    assert!(materialize(&result, &entry(CacheEntryValue::Values(0, ints(&[1])))).is_empty());
    assert_eq!(
        rows_of(&materialize(&result, &entry(CacheEntryValue::Count(3)))),
        vec![Some(vec![]), Some(vec![]), Some(vec![])]
    );
    assert!(materialize(&result, &entry(CacheEntryValue::Count(0))).is_empty());
    assert_eq!(
        rows_of(&materialize(&result, &entry(CacheEntryValue::Aggr(Value::Int(9))))),
        vec![Some(ints(&[9]))]
    );
    assert_eq!(rows_of(&materialize(&result, &entry(CacheEntryValue::Exists(false)))), vec![None]);
    assert!(materialize(&result, &entry(CacheEntryValue::Exists(true))).is_empty());
    assert_eq!(result.len(), 1);
}

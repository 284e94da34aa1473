use std::sync::Arc;
use trex::tesla::expressions::{BasicType, BinaryOperator, UnaryOperator, Value};
use trex::tesla::number::Number;
use trex::tesla::predicates::Aggregator;
use trex::tesla::{AttributeDeclaration, Event, Tuple};
use trex::trex::aggregators::compute_aggregate;
use trex::trex::expressions::cast;
use trex::trex::operations::{binary, unary, EvalError};

fn float(x: f64) -> Value {
    Value::Float(Number::from_bits(x.to_bits()))
}

fn text(x: &str) -> Value {
    Value::Str(x.to_string())
}

fn bits(value: &Value) -> u64 {
    match value {
        Value::Float(x) => x.to_bits(),
        other => panic!("not a float: {:?}", other),
    }
}

fn samples() -> Vec<f64> {
    vec![
        0.0,
        -0.0,
        1.0,
        -1.0,
        0.1,
        0.2,
        0.3,
        1.5,
        -2.75,
        3.141592653589793,
        1e-320,
        -4.9e-324,
        2.2250738585072014e-308,
        1e308,
        -1.7976931348623157e308,
        9007199254740993.0,
        123456789.123456789,
        f64::INFINITY,
        f64::NEG_INFINITY,
        f64::NAN,
    ]
}

fn canonical(x: f64) -> u64 {
    if x.is_nan() {
        0x7ff8_0000_0000_0000
    } else {
        x.to_bits()
    }
}

#[test]
fn integer_arithmetic() {
    let apply = |op, a: i64, b: i64| binary::apply(&op, &Value::Int(a), &Value::Int(b));
    assert_eq!(apply(BinaryOperator::Plus, 2, 3), Ok(Value::Int(5)));
    assert_eq!(apply(BinaryOperator::Minus, 2, 3), Ok(Value::Int(-1)));
    assert_eq!(apply(BinaryOperator::Times, -4, 3), Ok(Value::Int(-12)));
    assert_eq!(apply(BinaryOperator::Division, 7, 2), Ok(Value::Int(3)));
    assert_eq!(apply(BinaryOperator::Division, -7, 2), Ok(Value::Int(-3)));
    assert_eq!(apply(BinaryOperator::Division, 7, -2), Ok(Value::Int(-3)));
    assert_eq!(apply(BinaryOperator::Division, -7, -2), Ok(Value::Int(3)));
    assert_eq!(apply(BinaryOperator::Plus, i64::MAX, 0), Ok(Value::Int(i64::MAX)));
}

#[test]
fn integer_arithmetic_out_of_range() {
    let apply = |op, a: i64, b: i64| binary::apply(&op, &Value::Int(a), &Value::Int(b));
    assert_eq!(apply(BinaryOperator::Plus, i64::MAX, 1), Err(EvalError::Overflow));
    assert_eq!(apply(BinaryOperator::Minus, i64::MIN, 1), Err(EvalError::Overflow));
    assert_eq!(apply(BinaryOperator::Times, i64::MAX, 2), Err(EvalError::Overflow));
    assert_eq!(apply(BinaryOperator::Division, i64::MIN, -1), Err(EvalError::Overflow));
    assert_eq!(apply(BinaryOperator::Division, 1, 0), Err(EvalError::DivisionByZero));
    assert_eq!(unary::apply(&UnaryOperator::Minus, &Value::Int(i64::MIN)), Err(EvalError::Overflow));
}

#[test]
fn integer_comparisons() {
    let apply = |op, a: i64, b: i64| binary::apply(&op, &Value::Int(a), &Value::Int(b)).unwrap();
    assert_eq!(apply(BinaryOperator::Equal, 2, 2), Value::Bool(true));
    assert_eq!(apply(BinaryOperator::NotEqual, 2, 2), Value::Bool(false));
    assert_eq!(apply(BinaryOperator::GreaterThan, 3, 2), Value::Bool(true));
    assert_eq!(apply(BinaryOperator::GreaterThan, 2, 2), Value::Bool(false));
    assert_eq!(apply(BinaryOperator::GreaterEqual, 2, 2), Value::Bool(true));
    assert_eq!(apply(BinaryOperator::GreaterEqual, 1, 2), Value::Bool(false));
    assert_eq!(apply(BinaryOperator::LowerThan, 1, 2), Value::Bool(true));
    assert_eq!(apply(BinaryOperator::LowerThan, 2, 2), Value::Bool(false));
    assert_eq!(apply(BinaryOperator::LowerEqual, 2, 2), Value::Bool(true));
    assert_eq!(apply(BinaryOperator::LowerEqual, 3, 2), Value::Bool(false));
}

#[test]
fn float_arithmetic_is_that_of_the_machine() {
    for a in samples() {
        for b in samples() {
            let apply = |op| bits(&binary::apply(&op, &float(a), &float(b)).unwrap());
            assert_eq!(apply(BinaryOperator::Plus), canonical(a + b), "{} + {}", a, b);
            assert_eq!(apply(BinaryOperator::Minus), canonical(a - b), "{} - {}", a, b);
            assert_eq!(apply(BinaryOperator::Times), canonical(a * b), "{} * {}", a, b);
            assert_eq!(apply(BinaryOperator::Division), canonical(a / b), "{} / {}", a, b);
        }
    }
}

#[test]
fn float_comparisons_are_those_of_the_machine() {
    for a in samples() {
        for b in samples() {
            let apply = |op| binary::apply(&op, &float(a), &float(b)).unwrap();
            assert_eq!(apply(BinaryOperator::Equal), Value::Bool(a == b), "{} == {}", a, b);
            assert_eq!(apply(BinaryOperator::NotEqual), Value::Bool(a != b), "{} != {}", a, b);
            assert_eq!(apply(BinaryOperator::LowerThan), Value::Bool(a < b), "{} < {}", a, b);
            assert_eq!(apply(BinaryOperator::LowerEqual), Value::Bool(a <= b), "{} <= {}", a, b);
            assert_eq!(apply(BinaryOperator::GreaterThan), Value::Bool(a > b), "{} > {}", a, b);
            assert_eq!(apply(BinaryOperator::GreaterEqual), Value::Bool(a >= b), "{} >= {}", a, b);
        }
    }
}

#[test]
fn float_negation_minimum_and_maximum() {
    for a in samples() {
        let negated = unary::apply(&UnaryOperator::Minus, &float(a)).unwrap();
        assert_eq!(bits(&negated), canonical(-a));
        for b in samples() {
            let x = Number::from_bits(a.to_bits());
            let y = Number::from_bits(b.to_bits());
            let min = f64::from_bits(x.min(&y).to_bits());
            let max = f64::from_bits(x.max(&y).to_bits());
            assert!(min == a.min(b) || (min.is_nan() && a.min(b).is_nan()), "min {} {}", a, b);
            assert!(max == a.max(b) || (max.is_nan() && a.max(b).is_nan()), "max {} {}", a, b);
        }
    }
}

#[test]
fn every_nan_is_the_same_value() {
    let quiet = Number::from_bits(0x7ff8_0000_0000_0001);
    let negative = Number::from_bits(0xfff0_0000_0000_0001);
    let signaling = Number::from_bits(0x7ff0_0000_dead_beef);
    assert_eq!(quiet.to_bits(), 0x7ff8_0000_0000_0000);
    assert_eq!(quiet, negative);
    assert_eq!(quiet, signaling);
    assert!(quiet.is_nan());
    assert_eq!(Value::Float(quiet), Value::Float(signaling));
    assert_ne!(float(0.0), float(-0.0));
    assert_ne!(float(f64::INFINITY), Value::Float(quiet));
    assert!(!Number::from_bits(0x7ff0_0000_0000_0000).is_nan());
    assert!(!Number::from_bits(0xfff0_0000_0000_0000).is_nan());
}

#[test]
fn casts() {
    for x in [0i64, 1, -1, 42, i64::MAX, i64::MIN, 9007199254740993, -9007199254740995, 1 << 60] {
        let value = cast(&Value::Int(x), &BasicType::Float).unwrap();
        assert_eq!(bits(&value), (x as f64).to_bits(), "{}", x);
        assert_eq!(Number::from_integer(x).to_bits(), (x as f64).to_bits());
    }
    assert_eq!(cast(&Value::Int(1), &BasicType::Int), Err(EvalError::WrongOperands));
    assert_eq!(cast(&Value::Int(1), &BasicType::Str), Err(EvalError::WrongOperands));
    assert_eq!(cast(&float(1.0), &BasicType::Float), Err(EvalError::WrongOperands));
    assert_eq!(cast(&Value::Bool(true), &BasicType::Float), Err(EvalError::WrongOperands));
}

#[test]
fn strings() {
    let apply = |op, a: &str, b: &str| binary::apply(&op, &text(a), &text(b)).unwrap();
    assert_eq!(apply(BinaryOperator::Plus, "ab", "cd"), text("abcd"));
    assert_eq!(apply(BinaryOperator::Plus, "", "é"), text("é"));
    assert_eq!(apply(BinaryOperator::Equal, "ab", "ab"), Value::Bool(true));
    assert_eq!(apply(BinaryOperator::Equal, "ab", "abc"), Value::Bool(false));
    assert_eq!(apply(BinaryOperator::NotEqual, "ab", "abc"), Value::Bool(true));
    for (a, b) in [("a", "b"), ("", "a"), ("ab", "abc"), ("Z", "a"), ("a", "é"), ("é", "日本")] {
        assert_eq!(apply(BinaryOperator::LowerThan, a, b), Value::Bool(true), "{} < {}", a, b);
        assert_eq!(apply(BinaryOperator::LowerThan, b, a), Value::Bool(false));
        assert_eq!(apply(BinaryOperator::LowerEqual, a, b), Value::Bool(true));
        assert_eq!(apply(BinaryOperator::LowerEqual, b, a), Value::Bool(false));
        assert_eq!(apply(BinaryOperator::GreaterThan, b, a), Value::Bool(true));
        assert_eq!(apply(BinaryOperator::GreaterThan, a, b), Value::Bool(false));
        assert_eq!(apply(BinaryOperator::GreaterEqual, b, a), Value::Bool(true));
        assert_eq!(apply(BinaryOperator::GreaterEqual, a, b), Value::Bool(false));
    }
    assert_eq!(apply(BinaryOperator::LowerThan, "same", "same"), Value::Bool(false));
    assert_eq!(apply(BinaryOperator::LowerEqual, "same", "same"), Value::Bool(true));
    assert_eq!(apply(BinaryOperator::GreaterEqual, "same", "same"), Value::Bool(true));
}

#[test]
fn booleans() {
    let apply = |op, a: bool, b: bool| binary::apply(&op, &Value::Bool(a), &Value::Bool(b));
    assert_eq!(apply(BinaryOperator::Equal, true, true), Ok(Value::Bool(true)));
    assert_eq!(apply(BinaryOperator::Equal, true, false), Ok(Value::Bool(false)));
    assert_eq!(apply(BinaryOperator::NotEqual, true, false), Ok(Value::Bool(true)));
    assert_eq!(apply(BinaryOperator::LowerThan, false, true), Err(EvalError::WrongOperands));
    assert_eq!(apply(BinaryOperator::Plus, false, true), Err(EvalError::WrongOperands));
    assert_eq!(unary::apply(&UnaryOperator::Not, &Value::Bool(true)), Ok(Value::Bool(false)));
    assert_eq!(unary::apply(&UnaryOperator::Not, &Value::Bool(false)), Ok(Value::Bool(true)));
}

#[test]
fn operands_of_the_wrong_type() {
    let operators = [
        BinaryOperator::Plus,
        BinaryOperator::Minus,
        BinaryOperator::Times,
        BinaryOperator::Division,
        BinaryOperator::Equal,
        BinaryOperator::NotEqual,
        BinaryOperator::GreaterThan,
        BinaryOperator::GreaterEqual,
        BinaryOperator::LowerThan,
        BinaryOperator::LowerEqual,
    ];
    for operator in operators {
        assert_eq!(binary::apply(&operator, &Value::Int(1), &float(1.0)), Err(EvalError::WrongOperands));
        assert_eq!(binary::apply(&operator, &text("1"), &Value::Int(1)), Err(EvalError::WrongOperands));
        assert_eq!(binary::apply(&operator, &Value::Bool(true), &text("")), Err(EvalError::WrongOperands));
    }
    for operator in [BinaryOperator::Minus, BinaryOperator::Times, BinaryOperator::Division] {
        assert_eq!(binary::apply(&operator, &text("a"), &text("b")), Err(EvalError::WrongOperands));
    }
    assert_eq!(unary::apply(&UnaryOperator::Minus, &Value::Bool(true)), Err(EvalError::WrongOperands));
    assert_eq!(unary::apply(&UnaryOperator::Minus, &text("a")), Err(EvalError::WrongOperands));
    assert_eq!(unary::apply(&UnaryOperator::Not, &Value::Int(1)), Err(EvalError::WrongOperands));
    assert_eq!(unary::apply(&UnaryOperator::Minus, &Value::Int(5)), Ok(Value::Int(-5)));
}

#[test]
fn values_know_their_type_and_hand_out_what_they_hold() {
    assert_eq!(Value::Int(1).get_type(), BasicType::Int);
    assert_eq!(float(1.0).get_type(), BasicType::Float);
    assert_eq!(Value::Bool(true).get_type(), BasicType::Bool);
    assert_eq!(text("x").get_type(), BasicType::Str);
    assert_eq!(Value::Int(7).extract_int(), Some(7));
    assert_eq!(text("x").extract_int(), None);
    assert_eq!(float(2.5).extract_float().map(|x| x.to_bits()), Some(2.5f64.to_bits()));
    assert_eq!(Value::Int(7).extract_float(), None);
    assert_eq!(Value::Bool(true).extract_bool(), Some(true));
    assert_eq!(Value::Bool(false).as_bool(), Some(false));
    assert_eq!(Value::Int(1).as_bool(), None);
    assert_eq!(text("x").extract_string(), Some("x".to_string()));
    assert_eq!(Value::Int(1).extract_string(), None);
    assert_eq!(text("x").clone(), text("x"));
    assert!(Value::Int(1).same(&Value::Int(1)));
    assert!(!Value::Int(1).same(&Value::Int(2)));
    assert!(!Value::Int(1).same(&Value::Bool(true)));
}

fn events(values: Vec<Value>) -> Vec<Arc<Event>> {
    values
        .into_iter()
        .map(|value| Arc::new(Event { tuple: Tuple { ty_id: 1, data: vec![Value::Int(0), value] }, time: 0 }))
        .collect()
}

fn attributes(ty: BasicType) -> Vec<AttributeDeclaration> {
    vec![
        AttributeDeclaration { name: "id".to_string(), ty: BasicType::Int },
        AttributeDeclaration { name: "v".to_string(), ty },
    ]
}

#[test]
fn aggregates_of_integers() {
    let list = events(vec![Value::Int(4), Value::Int(-2), Value::Int(9), Value::Int(1)]);
    let compute = |aggregator| compute_aggregate(&aggregator, &list, &attributes(BasicType::Int));
    assert_eq!(compute(Aggregator::Sum(1)), Ok(Some(Value::Int(12))));
    assert_eq!(compute(Aggregator::Min(1)), Ok(Some(Value::Int(-2))));
    assert_eq!(compute(Aggregator::Max(1)), Ok(Some(Value::Int(9))));
    assert_eq!(compute(Aggregator::Count), Ok(Some(Value::Int(4))));
    assert_eq!(compute(Aggregator::Avg(1)), Ok(Some(float(3.0))));
}

#[test]
fn aggregates_of_floats() {
    let values = [0.1, 0.2, 0.3, -7.5];
    let list = events(values.iter().map(|x| float(*x)).collect());
    let compute = |aggregator| compute_aggregate(&aggregator, &list, &attributes(BasicType::Float));
    let sum = ((0.0 + 0.1) + 0.2 + 0.3) + -7.5;
    assert_eq!(compute(Aggregator::Sum(1)), Ok(Some(float(sum))));
    assert_eq!(compute(Aggregator::Avg(1)), Ok(Some(float(sum / 4.0))));
    assert_eq!(compute(Aggregator::Min(1)), Ok(Some(float(-7.5))));
    assert_eq!(compute(Aggregator::Max(1)), Ok(Some(float(0.3))));
    assert_eq!(compute(Aggregator::Count), Ok(Some(Value::Int(4))));
    let with_nan = events(vec![float(f64::NAN), float(2.0), float(f64::NAN), float(1.0)]);
    let compute = |aggregator| compute_aggregate(&aggregator, &with_nan, &attributes(BasicType::Float));
    assert_eq!(compute(Aggregator::Min(1)), Ok(Some(float(1.0))));
    assert_eq!(compute(Aggregator::Max(1)), Ok(Some(float(2.0))));
    let only_nan = events(vec![float(f64::NAN)]);
    let compute = |aggregator| compute_aggregate(&aggregator, &only_nan, &attributes(BasicType::Float));
    assert_eq!(compute(Aggregator::Min(1)), Ok(None));
    assert_eq!(compute(Aggregator::Max(1)), Ok(None));
}

#[test]
fn aggregates_of_nothing() {
    let none: Vec<Arc<Event>> = Vec::new();
    for ty in [BasicType::Int, BasicType::Float] {
        let compute = |aggregator| compute_aggregate(&aggregator, &none, &attributes(ty));
        let zero = if ty == BasicType::Int { Value::Int(0) } else { float(0.0) };
        assert_eq!(compute(Aggregator::Sum(1)), Ok(Some(zero)));
        assert_eq!(compute(Aggregator::Count), Ok(Some(Value::Int(0))));
        assert_eq!(compute(Aggregator::Avg(1)), Ok(None));
        assert_eq!(compute(Aggregator::Min(1)), Ok(None));
        assert_eq!(compute(Aggregator::Max(1)), Ok(None));
    }
}

#[test]
fn aggregates_that_cannot_be_had() {
    let list = events(vec![Value::Int(i64::MAX), Value::Int(1)]);
    let compute = |aggregator, ty| compute_aggregate(&aggregator, &list, &attributes(ty));
    assert_eq!(compute(Aggregator::Sum(1), BasicType::Int), Err(EvalError::Overflow));
    assert_eq!(compute(Aggregator::Avg(1), BasicType::Int), Err(EvalError::Overflow));
    assert_eq!(compute(Aggregator::Max(1), BasicType::Int), Ok(Some(Value::Int(i64::MAX))));
    assert_eq!(compute(Aggregator::Sum(1), BasicType::Float), Err(EvalError::WrongOperands));
    assert_eq!(compute(Aggregator::Sum(1), BasicType::Str), Err(EvalError::WrongOperands));
    assert_eq!(compute(Aggregator::Min(1), BasicType::Bool), Err(EvalError::WrongOperands));
    assert_eq!(compute(Aggregator::Sum(2), BasicType::Int), Err(EvalError::MissingAttribute));
    let short = vec![Arc::new(Event { tuple: Tuple { ty_id: 1, data: vec![Value::Int(0)] }, time: 0 })];
    assert_eq!(
        compute_aggregate(&Aggregator::Sum(1), &short, &attributes(BasicType::Int)),
        Err(EvalError::MissingAttribute)
    );
    let mixed = events(vec![Value::Int(1), text("x")]);
    assert_eq!(
        compute_aggregate(&Aggregator::Max(1), &mixed, &attributes(BasicType::Int)),
        Err(EvalError::WrongOperands)
    );
}

#[test]
fn values_hand_out_what_they_are_known_to_hold() {
    assert_eq!(Value::Int(7).unwrap_int(), 7);
    assert_eq!(float(2.5).unwrap_float().to_bits(), 2.5f64.to_bits());
    assert!(Value::Bool(true).unwrap_bool());
    assert_eq!(text("x").unwrap_string(), "x");
}

#[test]
fn values_are_made_of_what_they_hold_and_give_it_back() {
    assert_eq!(Value::from(7i64), Value::Int(7));
    assert_eq!(Value::from(true), Value::Bool(true));
    assert_eq!(Value::from("x".to_string()), text("x"));
    assert_eq!(Value::from(Number::from_bits(1.5f64.to_bits())), float(1.5));
    assert_eq!(Option::<i64>::from(Value::Int(7)), Some(7));
    assert_eq!(Option::<i64>::from(Value::Bool(true)), None);
    assert_eq!(Option::<bool>::from(Value::Bool(true)), Some(true));
    assert_eq!(Option::<bool>::from(Value::Int(1)), None);
    assert_eq!(Option::<String>::from(text("x")), Some("x".to_string()));
    assert_eq!(Option::<String>::from(Value::Int(1)), None);
    assert_eq!(Option::<Number>::from(float(1.5)).map(|x| x.to_bits()), Some(1.5f64.to_bits()));
    assert_eq!(Option::<Number>::from(Value::Int(1)), None);
}

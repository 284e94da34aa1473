use std::collections::HashMap;
use trex::tesla::expressions::{BasicType, BinaryOperator, Expression, UnaryOperator, Value};
use trex::tesla::predicates::{
    Aggregator, ConstrainedTuple, EventSelection, ParameterDeclaration, Predicate, PredicateType,
    Timing, TimingBound,
};
use trex::tesla::{AttributeDeclaration, EventTemplate, Rule, TupleDeclaration, TupleType};
use trex::trex::rule_checks::check_rule;
use trex::trex::types::inference::{CurrentType, InferenceContext};
use trex::trex::types::{aggregate, binary, unary, TypeError};

fn declaration(id: usize, ty: TupleType, attributes: Vec<BasicType>) -> TupleDeclaration {
    TupleDeclaration {
        ty,
        id,
        name: format!("T{}", id),
        attributes: attributes
            .into_iter()
            .enumerate()
            .map(|(i, ty)| AttributeDeclaration { name: format!("a{}", i), ty })
            .collect(),
    }
}

fn tuples() -> HashMap<usize, TupleDeclaration> {
    let mut tuples = HashMap::new();
    tuples.insert(1, declaration(1, TupleType::Event, vec![BasicType::Int, BasicType::Str]));
    tuples.insert(2, declaration(2, TupleType::Event, vec![BasicType::Float, BasicType::Bool]));
    tuples.insert(3, declaration(3, TupleType::Static, vec![BasicType::Int]));
    tuples.insert(4, declaration(4, TupleType::Event, vec![BasicType::Int, BasicType::Float]));
    tuples
}

fn integer(x: i64) -> Expression {
    Expression::Immediate { value: Value::Int(x) }
}

fn attribute(attribute: usize) -> Expression {
    Expression::Reference { attribute }
}

fn parameter(predicate: usize, parameter: usize) -> Expression {
    Expression::Parameter { predicate, parameter }
}

fn op(operator: BinaryOperator, left: Expression, right: Expression) -> Expression {
    Expression::BinaryOperation { operator, left: Box::new(left), right: Box::new(right) }
}

fn declared(expressions: Vec<Expression>) -> Vec<ParameterDeclaration> {
    expressions
        .into_iter()
        .enumerate()
        .map(|(i, expression)| ParameterDeclaration { name: format!("p{}", i), expression })
        .collect()
}

fn on(ty_id: usize, ty: PredicateType, constraints: Vec<Expression>) -> Predicate {
    Predicate { ty, tuple: ConstrainedTuple { ty_id, constraints, alias: "t".to_string() } }
}

fn trigger(parameters: Vec<Expression>, constraints: Vec<Expression>) -> Predicate {
    on(1, PredicateType::Trigger { parameters: declared(parameters) }, constraints)
}

fn timing() -> Timing {
    Timing { upper: 0, bound: TimingBound::Within { window: 10 } }
}

fn rule(predicates: Vec<Predicate>, filters: Vec<Expression>, template: Vec<Expression>) -> Rule {
    Rule::new(predicates, filters, EventTemplate { ty_id: 4, attributes: template }, vec![])
}

fn good_template() -> Vec<Expression> {
    vec![integer(1), Expression::Cast { ty: BasicType::Float, expression: Box::new(integer(2)) }]
}

fn refused(rule: Rule) -> TypeError {
    check_rule(&rule, &tuples()).err().expect("the rule is refused")
}

#[test]
fn the_types_of_operations() {
    let (boolean, float, integer, string) =
        (BasicType::Bool, BasicType::Float, BasicType::Int, BasicType::Str);
    for ty in [integer, float] {
        assert_eq!(unary::get_type(&UnaryOperator::Minus, &ty), Ok(ty));
        assert_eq!(unary::get_type(&UnaryOperator::Not, &ty), Err(TypeError::WrongUnaryOperand));
        for operator in [BinaryOperator::Plus, BinaryOperator::Minus, BinaryOperator::Times, BinaryOperator::Division] {
            assert_eq!(binary::get_type(&operator, &ty, &ty), Ok(ty));
        }
    }
    assert_eq!(unary::get_type(&UnaryOperator::Not, &boolean), Ok(boolean));
    assert_eq!(unary::get_type(&UnaryOperator::Minus, &boolean), Err(TypeError::WrongUnaryOperand));
    assert_eq!(unary::get_type(&UnaryOperator::Minus, &string), Err(TypeError::WrongUnaryOperand));
    assert_eq!(binary::get_type(&BinaryOperator::Plus, &string, &string), Ok(string));
    assert_eq!(binary::get_type(&BinaryOperator::Minus, &string, &string), Err(TypeError::WrongBinaryOperands));
    assert_eq!(binary::get_type(&BinaryOperator::Plus, &boolean, &boolean), Err(TypeError::WrongBinaryOperands));
    assert_eq!(binary::get_type(&BinaryOperator::Plus, &integer, &float), Err(TypeError::WrongBinaryOperands));
    for ty in [integer, float, boolean, string] {
        assert_eq!(binary::get_type(&BinaryOperator::Equal, &ty, &ty), Ok(boolean));
        assert_eq!(binary::get_type(&BinaryOperator::NotEqual, &ty, &ty), Ok(boolean));
    }
    assert_eq!(binary::get_type(&BinaryOperator::Equal, &integer, &string), Err(TypeError::WrongBinaryOperands));
    for operator in [
        BinaryOperator::GreaterThan,
        BinaryOperator::GreaterEqual,
        BinaryOperator::LowerThan,
        BinaryOperator::LowerEqual,
    ] {
        for ty in [integer, float, string] {
            assert_eq!(binary::get_type(&operator, &ty, &ty), Ok(boolean));
        }
        assert_eq!(binary::get_type(&operator, &boolean, &boolean), Err(TypeError::WrongBinaryOperands));
        assert_eq!(binary::get_type(&operator, &integer, &float), Err(TypeError::WrongBinaryOperands));
    }
}

#[test]
fn the_types_of_aggregates() {
    let tuple = declaration(9, TupleType::Event, vec![BasicType::Int, BasicType::Float, BasicType::Str]);
    assert_eq!(aggregate::get_type(&Aggregator::Avg(0), &tuple), Ok(BasicType::Float));
    assert_eq!(aggregate::get_type(&Aggregator::Avg(1), &tuple), Ok(BasicType::Float));
    assert_eq!(aggregate::get_type(&Aggregator::Sum(0), &tuple), Ok(BasicType::Int));
    assert_eq!(aggregate::get_type(&Aggregator::Sum(1), &tuple), Ok(BasicType::Float));
    assert_eq!(aggregate::get_type(&Aggregator::Min(0), &tuple), Ok(BasicType::Int));
    assert_eq!(aggregate::get_type(&Aggregator::Max(1), &tuple), Ok(BasicType::Float));
    assert_eq!(aggregate::get_type(&Aggregator::Count, &tuple), Ok(BasicType::Int));
    assert_eq!(aggregate::get_type(&Aggregator::Sum(2), &tuple), Err(TypeError::WrongAggregateAttribute));
    assert_eq!(aggregate::get_type(&Aggregator::Avg(2), &tuple), Err(TypeError::WrongAggregateAttribute));
    assert_eq!(aggregate::get_type(&Aggregator::Max(3), &tuple), Err(TypeError::AttributeOutOfBound));
}

#[test]
fn the_types_of_expressions() {
    let tuple = declaration(9, TupleType::Event, vec![BasicType::Int, BasicType::Str]);
    let context = InferenceContext::new()
        .add_parameter((0, 1), BasicType::Bool)
        .set_current(CurrentType::Tuple(&tuple));
    assert_eq!(context.infer_expression(&integer(1)), Ok(BasicType::Int));
    assert_eq!(context.infer_expression(&attribute(1)), Ok(BasicType::Str));
    assert_eq!(context.infer_expression(&attribute(2)), Err(TypeError::AttributeOutOfBound));
    assert_eq!(context.infer_expression(&parameter(0, 1)), Ok(BasicType::Bool));
    assert_eq!(context.infer_expression(&parameter(1, 0)), Err(TypeError::NoSuchParameter));
    assert_eq!(context.infer_expression(&Expression::Aggregate), Err(TypeError::NoAggregate));
    let cast = |e| Expression::Cast { ty: BasicType::Float, expression: Box::new(e) };
    assert_eq!(context.infer_expression(&cast(attribute(0))), Ok(BasicType::Float));
    assert_eq!(context.infer_expression(&cast(attribute(1))), Err(TypeError::BadCast));
    assert_eq!(
        context.infer_expression(&Expression::Cast { ty: BasicType::Int, expression: Box::new(attribute(0)) }),
        Err(TypeError::BadCast)
    );
    assert_eq!(
        context.infer_expression(&op(BinaryOperator::LowerThan, attribute(0), integer(3))),
        Ok(BasicType::Bool)
    );
    assert_eq!(
        context.infer_expression(&op(BinaryOperator::Plus, attribute(0), attribute(1))),
        Err(TypeError::WrongBinaryOperands)
    );
    let context = context.set_current(CurrentType::Aggr(BasicType::Float));
    assert_eq!(context.infer_expression(&Expression::Aggregate), Ok(BasicType::Float));
    assert_eq!(context.infer_expression(&attribute(0)), Err(TypeError::NoTuple));
    let context = context.reset_current();
    assert_eq!(context.infer_expression(&Expression::Aggregate), Err(TypeError::NoAggregate));
    assert_eq!(context.infer_expression(&attribute(0)), Err(TypeError::NoTuple));
    let params = context.get_params();
    assert_eq!(params.len(), 1);
    assert_eq!(params.get(&(0, 1)), Some(&BasicType::Bool));
}

#[test]
fn a_well_typed_rule_gives_the_types_of_its_parameters() {
    let rule = rule(
        vec![
            trigger(
                vec![attribute(0), op(BinaryOperator::Plus, parameter(0, 0), integer(1)), attribute(1)],
                vec![op(BinaryOperator::GreaterThan, parameter(0, 1), integer(0))],
            ),
            on(
                2,
                PredicateType::Event {
                    selection: EventSelection::Each,
                    parameters: declared(vec![attribute(0)]),
                    timing: timing(),
                },
                vec![attribute(1), op(BinaryOperator::Equal, parameter(0, 2), parameter(0, 2))],
            ),
            on(
                2,
                PredicateType::EventAggregate {
                    aggregator: Aggregator::Avg(0),
                    parameter: ParameterDeclaration {
                        name: "avg".to_string(),
                        expression: op(BinaryOperator::Plus, Expression::Aggregate, parameter(1, 0)),
                    },
                    timing: timing(),
                },
                vec![attribute(1)],
            ),
            on(3, PredicateType::UnorderedStatic { parameters: declared(vec![attribute(0)]) }, vec![]),
            on(
                3,
                PredicateType::StaticAggregate {
                    aggregator: Aggregator::Count,
                    parameter: ParameterDeclaration {
                        name: "n".to_string(),
                        expression: Expression::Aggregate,
                    },
                },
                vec![op(BinaryOperator::Equal, attribute(0), parameter(0, 0))],
            ),
            on(2, PredicateType::EventNegation { timing: timing() }, vec![attribute(1)]),
            on(3, PredicateType::StaticNegation, vec![]),
        ],
        vec![op(BinaryOperator::LowerThan, parameter(3, 0), parameter(4, 0))],
        vec![parameter(0, 1), parameter(2, 0)],
    );
    let types = check_rule(&rule, &tuples()).unwrap();
    let mut listed: Vec<_> = types.iter().map(|(key, ty)| (*key, *ty)).collect();
    listed.sort_by_key(|(key, _)| *key);
    assert_eq!(
        listed,
        vec![
            ((0, 0), BasicType::Int),
            ((0, 1), BasicType::Int),
            ((0, 2), BasicType::Str),
            ((1, 0), BasicType::Float),
            ((2, 0), BasicType::Float),
            ((3, 0), BasicType::Int),
            ((4, 0), BasicType::Int),
        ]
    );
}

#[test]
fn rules_that_are_refused() {
    let good = || vec![trigger(vec![attribute(0)], vec![])];
    assert_eq!(
        refused(rule(vec![on(9, PredicateType::StaticNegation, vec![])], vec![], good_template())),
        TypeError::UnknownTuple
    );
    assert_eq!(
        refused(rule(vec![trigger(vec![attribute(2)], vec![])], vec![], good_template())),
        TypeError::AttributeOutOfBound
    );
    assert_eq!(
        refused(rule(vec![trigger(vec![parameter(0, 0)], vec![])], vec![], good_template())),
        TypeError::NoSuchParameter
    );
    assert_eq!(
        refused(rule(vec![trigger(vec![parameter(0, 1), attribute(0)], vec![])], vec![], good_template())),
        TypeError::NoSuchParameter
    );
    assert_eq!(
        refused(rule(vec![trigger(vec![], vec![attribute(0)])], vec![], good_template())),
        TypeError::NonBooleanConstraint
    );
    assert_eq!(
        refused(rule(vec![trigger(vec![Expression::Aggregate], vec![])], vec![], good_template())),
        TypeError::NoAggregate
    );
    assert_eq!(
        refused(rule(
            vec![trigger(
                vec![Expression::UnaryOperation {
                    operator: UnaryOperator::Not,
                    expression: Box::new(attribute(0)),
                }],
                vec![]
            )],
            vec![],
            good_template()
        )),
        TypeError::WrongUnaryOperand
    );
    assert_eq!(
        refused(rule(
            vec![trigger(vec![op(BinaryOperator::Plus, attribute(0), attribute(1))], vec![])],
            vec![],
            good_template()
        )),
        TypeError::WrongBinaryOperands
    );
    assert_eq!(
        refused(rule(
            vec![trigger(
                vec![Expression::Cast { ty: BasicType::Float, expression: Box::new(attribute(1)) }],
                vec![]
            )],
            vec![],
            good_template()
        )),
        TypeError::BadCast
    );
    let aggregate = |aggregator| {
        on(
            1,
            PredicateType::EventAggregate {
                aggregator,
                parameter: ParameterDeclaration { name: "a".to_string(), expression: Expression::Aggregate },
                timing: timing(),
            },
            vec![],
        )
    };
    assert_eq!(
        refused(rule(vec![trigger(vec![], vec![]), aggregate(Aggregator::Sum(1))], vec![], good_template())),
        TypeError::WrongAggregateAttribute
    );
    assert_eq!(
        refused(rule(vec![trigger(vec![], vec![]), aggregate(Aggregator::Sum(5))], vec![], good_template())),
        TypeError::AttributeOutOfBound
    );
    assert_eq!(refused(rule(good(), vec![integer(1)], good_template())), TypeError::NonBooleanConstraint);
    assert_eq!(refused(rule(good(), vec![attribute(0)], good_template())), TypeError::NoTuple);
    assert_eq!(refused(rule(good(), vec![], vec![integer(1)])), TypeError::WrongTemplateArity);
    assert_eq!(refused(rule(good(), vec![], vec![integer(1), integer(2)])), TypeError::WrongAttributeAssignment);
    assert_eq!(
        refused(rule(good(), vec![], vec![integer(1), attribute(0)])),
        TypeError::NoTuple
    );
    let unknown = Rule::new(good(), vec![], EventTemplate { ty_id: 99, attributes: vec![] }, vec![]);
    assert_eq!(refused(unknown), TypeError::UnknownEvent);
    let fixed = Rule::new(good(), vec![], EventTemplate { ty_id: 3, attributes: vec![integer(1)] }, vec![]);
    assert_eq!(refused(fixed), TypeError::StaticTemplate);
    assert!(check_rule(&rule(good(), vec![], good_template()), &tuples()).is_ok());
    assert!(check_rule(&rule(vec![], vec![], good_template()), &tuples()).unwrap().is_empty());
}

#[test]
fn reasons_are_told_in_words() {
    assert_eq!(TypeError::BadCast.message(), "Bad cast");
    assert_eq!(TypeError::NoSuchParameter.message(), "No such parameter");
    assert_eq!(TypeError::UnknownTuple.message(), "Predicate refers to unknown tuple");
    assert_eq!(TypeError::WrongTemplateArity.message(), "Wrong number of attributes in event template");
}

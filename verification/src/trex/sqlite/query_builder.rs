//! The statement that a predicate on static data asks.

use crate::tesla::expressions::{BinaryOperator, Expression, UnaryOperator, Value, ValueModel};
use crate::tesla::number::ieee_decimal;
use crate::tesla::predicates::{
    Aggregator,
    AttributeOrdering,
    Order,
    ParameterDeclaration,
    Predicate,
    PredicateType,
};
use crate::tesla::TupleDeclaration;
use vstd::prelude::*;
use vstd::string::StringExecFns;

verus! {

/// The digit of a number below ten.
pub open spec fn digit(value: int) -> char {
    (48 + value) as u8 as char
}

/// A natural number in decimal.
pub open spec fn natural_decimal(value: int) -> Seq<char>
    decreases value,
{
    if value < 10 {
        seq![digit(value)]
    } else {
        natural_decimal(value / 10).push(digit(value % 10))
    }
}

/// An integer in decimal.
pub open spec fn integer_decimal(value: int) -> Seq<char> {
    if value < 0 {
        seq!['-'] + natural_decimal(-value)
    } else {
        natural_decimal(value)
    }
}

/// A string as `Debug` writes it: between double quotes, with the
/// characters escaped that cannot stand there.
pub uninterp spec fn debug_quoted(text: Seq<char>) -> Seq<char>;

/// The text of a digit.
fn digit_text(value: u64) -> (text: &'static str)
    requires
        value < 10,
    ensures
        text@ == seq![digit(value as int)],
{
    proof {
        reveal_strlit("0");
        reveal_strlit("1");
        reveal_strlit("2");
        reveal_strlit("3");
        reveal_strlit("4");
        reveal_strlit("5");
        reveal_strlit("6");
        reveal_strlit("7");
        reveal_strlit("8");
        reveal_strlit("9");
    }
    let text = if value == 0 {
        "0"
    } else if value == 1 {
        "1"
    } else if value == 2 {
        "2"
    } else if value == 3 {
        "3"
    } else if value == 4 {
        "4"
    } else if value == 5 {
        "5"
    } else if value == 6 {
        "6"
    } else if value == 7 {
        "7"
    } else if value == 8 {
        "8"
    } else {
        "9"
    };
    assert(text@ =~= seq![digit(value as int)]);
    text
}

/// A natural number in decimal.
fn natural_text(value: u64) -> (text: String)
    ensures
        text@ == natural_decimal(value as int),
    decreases value,
{
    if value < 10 {
        String::from_str(digit_text(value))
    } else {
        let mut text = natural_text(value / 10);
        text.append(digit_text(value % 10));
        assert(text@ =~= natural_decimal(value as int / 10).push(digit(value as int % 10)));
        text
    }
}

/// An integer in decimal, with a minus sign where it is below zero.
fn integer_text(value: i64) -> (text: String)
    ensures
        text@ == integer_decimal(value as int),
{
    if value < 0 {
        let magnitude: u64 = (-(value as i128)) as u64;
        let mut text = String::from_str("-");
        proof {
            reveal_strlit("-");
        }
        text.append(natural_text(magnitude).as_str());
        assert(text@ =~= seq!['-'] + natural_decimal(-(value as int)));
        text
    } else {
        natural_text(value as u64)
    }
}

/// A number in decimal.
fn index_text(value: usize) -> (text: String)
    ensures
        text@ == natural_decimal(value as int),
{
    natural_text(value as u64)
}

/// The `Debug` form of a string: the result is the text that `debug_quoted` names.
#[verifier::external_body]
fn quoted_text(value: &String) -> (text: String)
    ensures
        text@ == debug_quoted(value@),
{
    format!("{:?}", value)
}

/// The texts up to the `n`th, with the separator between them.
pub open spec fn joined(parts: Seq<Seq<char>>, separator: Seq<char>, n: int) -> Seq<char>
    decreases n,
{
    if n <= 0 {
        Seq::empty()
    } else if n == 1 {
        parts[0]
    } else {
        joined(parts, separator, n - 1) + separator + parts[n - 1]
    }
}

fn join(parts: &Vec<String>, separator: &str) -> (text: String)
    ensures
        text@ == joined(parts.deep_view(), separator@, parts.len() as int),
{
    let mut text = String::new();
    let mut i: usize = 0;
    while i < parts.len()
        invariant
            i <= parts.len(),
            text@ == joined(parts.deep_view(), separator@, i as int),
        decreases parts.len() - i,
    {
        assert(parts.deep_view()[i as int] == parts@[i as int]@);
        if i > 0 {
            text.append(separator);
        }
        text.append(parts[i].as_str());
        assert(text@ =~= joined(parts.deep_view(), separator@, i + 1));
        i += 1;
    }
    text
}

/// What the statement of a predicate is composed from.
pub struct SqlModel {
    /// The index of the predicate in its rule.
    pub idx: usize,
    /// The declaration of the table.
    pub tuple: TupleDeclaration,
    /// The expressions of the parameters that the predicate has defined so far.
    pub parameters: Seq<Seq<char>>,
    /// The expression of the aggregate, once it is set.
    pub aggregate: Option<Seq<char>>,
}

impl SqlModel {
    /// A column of the table: the name of the table, a dot, and the name of the attribute.
    pub open spec fn attribute(self, attribute: usize) -> Option<Seq<char>> {
        if attribute < self.tuple.attributes@.len() {
            Some(self.tuple.name@ + "."@ + self.tuple.attributes@[attribute as int].name@)
        } else {
            None
        }
    }

    /// An aggregate function applied to a column, or the count of the rows.
    pub open spec fn aggregator(self, aggregator: Aggregator) -> Option<Seq<char>> {
        match aggregator {
            Aggregator::Avg(attribute) => match self.attribute(attribute) {
                Some(column) => Some("AVG("@ + column + ")"@),
                None => None,
            },
            Aggregator::Sum(attribute) => match self.attribute(attribute) {
                Some(column) => Some("SUM("@ + column + ")"@),
                None => None,
            },
            Aggregator::Max(attribute) => match self.attribute(attribute) {
                Some(column) => Some("MAX("@ + column + ")"@),
                None => None,
            },
            Aggregator::Min(attribute) => match self.attribute(attribute) {
                Some(column) => Some("MIN("@ + column + ")"@),
                None => None,
            },
            Aggregator::Count => Some("COUNT(*)"@),
        }
    }

    /// A parameter: one of the predicate itself stands as its expression,
    /// one of another predicate as the name under which its value is bound.
    pub open spec fn parameter(self, predicate: usize, parameter: usize) -> Option<Seq<char>> {
        if predicate == self.idx {
            if parameter < self.parameters.len() {
                Some(self.parameters[parameter as int])
            } else {
                None
            }
        } else {
            Some(bind_name(predicate, parameter))
        }
    }

    /// An expression.
    pub open spec fn expression(self, expression: Expression) -> Option<Seq<char>>
        decreases expression,
    {
        match expression {
            Expression::Immediate { value } => Some(value_sql(value.deep_view())),
            Expression::Reference { attribute } => self.attribute(attribute),
            Expression::Parameter { predicate, parameter } => self.parameter(predicate, parameter),
            Expression::Aggregate => self.aggregate,
            Expression::Cast { expression, .. } => self.expression(*expression),
            Expression::UnaryOperation { operator, expression } => match self.expression(
                *expression,
            ) {
                Some(inner) => Some("("@ + unary_sql(operator) + inner + ")"@),
                None => None,
            },
            Expression::BinaryOperation { operator, left, right } => match self.expression(*left) {
                Some(l) => match self.expression(*right) {
                    Some(r) => Some("("@ + l + " "@ + binary_sql(operator) + " "@ + r + ")"@),
                    None => None,
                },
                None => None,
            },
        }
    }

    /// A sorting criterion: the column and the direction.
    pub open spec fn ordering(self, ordering: AttributeOrdering) -> Option<Seq<char>> {
        match self.attribute(ordering.attribute) {
            Some(column) => Some(column + " "@ + order_sql(ordering.direction)),
            None => None,
        }
    }

    /// The expressions from index `from` on, each as its text; `None` where one has none.
    pub open spec fn expressions(self, expressions: Seq<Expression>, from: int) -> Option<
        Seq<Seq<char>>,
    >
        decreases expressions.len() - from,
    {
        if from < 0 || from >= expressions.len() {
            Some(Seq::empty())
        } else {
            match self.expression(expressions[from]) {
                None => None,
                Some(first) => match self.expressions(expressions, from + 1) {
                    None => None,
                    Some(rest) => Some(seq![first] + rest),
                },
            }
        }
    }

    /// The sorting criteria from index `from` on, each as its text.
    pub open spec fn orderings(self, orderings: Seq<AttributeOrdering>, from: int) -> Option<
        Seq<Seq<char>>,
    >
        decreases orderings.len() - from,
    {
        if from < 0 || from >= orderings.len() {
            Some(Seq::empty())
        } else {
            match self.ordering(orderings[from]) {
                None => None,
                Some(first) => match self.orderings(orderings, from + 1) {
                    None => None,
                    Some(rest) => Some(seq![first] + rest),
                },
            }
        }
    }

    /// The model once the parameters from index `from` on are defined, and
    /// the columns that they select: each is its expression, `AS`, and its name.
    pub open spec fn selected(self, declared: Seq<ParameterDeclaration>, from: int) -> Option<
        (SqlModel, Seq<Seq<char>>),
    >
        decreases declared.len() - from,
    {
        if from < 0 || from >= declared.len() {
            Some((self, Seq::empty()))
        } else {
            match self.expression(declared[from].expression) {
                None => None,
                Some(sql) => match (SqlModel {
                    parameters: self.parameters.push(sql),
                    ..self
                }).selected(declared, from + 1) {
                    None => None,
                    Some((model, rest)) => Some(
                        (model, seq![sql + " AS "@ + declared[from].name@] + rest),
                    ),
                },
            }
        }
    }

    /// The model once the predicate is composed, what the statement selects
    /// and what follows its condition; `None` for a predicate that is not
    /// on static data, or that refers to what is not there.
    pub open spec fn clauses(self, predicate: Predicate) -> Option<
        (SqlModel, Seq<char>, Seq<char>),
    > {
        match predicate.ty {
            PredicateType::OrderedStatic { parameters, ordering } => match self.selected(
                parameters@,
                0,
            ) {
                None => None,
                Some((model, columns)) => match model.orderings(ordering@, 0) {
                    None => None,
                    Some(criteria) => Some(
                        (
                            model,
                            joined(columns, ", "@, columns.len() as int),
                            "ORDER BY "@ + joined(criteria, ", "@, criteria.len() as int)
                                + " LIMIT 1"@,
                        ),
                    ),
                },
            },
            PredicateType::UnorderedStatic { parameters } => match self.selected(parameters@, 0) {
                None => None,
                Some((model, columns)) => Some(
                    (model, joined(columns, ", "@, columns.len() as int), Seq::empty()),
                ),
            },
            PredicateType::StaticAggregate { aggregator, parameter } => match self.aggregator(
                aggregator,
            ) {
                None => None,
                Some(aggregate) => match (SqlModel {
                    aggregate: Some(aggregate),
                    ..self
                }).selected(seq![parameter], 0) {
                    None => None,
                    Some((model, columns)) => Some((model, columns[0], Seq::empty())),
                },
            },
            PredicateType::StaticNegation => Some((self, "1"@, "LIMIT 1"@)),
            _ => None,
        }
    }

    /// The statement of a predicate: what it selects, or `1` where it
    /// selects nothing; the table; the constraints, joined by `AND`; and
    /// what follows the condition.
    pub open spec fn statement(self, predicate: Predicate) -> Option<Seq<char>> {
        match self.clauses(predicate) {
            None => None,
            Some((model, selection, rest)) => match model.expressions(
                predicate.tuple.constraints@,
                0,
            ) {
                None => None,
                Some(filters) => Some(
                    "SELECT "@ + (if selection.len() == 0 {
                        "1"@
                    } else {
                        selection
                    }) + " FROM "@ + self.tuple.name@ + " WHERE "@ + joined(
                        filters,
                        " AND "@,
                        filters.len() as int,
                    ) + " "@ + rest,
                ),
            },
        }
    }
}

/// The name under which the value of a parameter of another predicate is bound.
pub open spec fn bind_name(predicate: usize, parameter: usize) -> Seq<char> {
    ":param"@ + natural_decimal(predicate as int) + "x"@ + natural_decimal(parameter as int)
}

/// A value as it is written in a statement.
pub open spec fn value_sql(value: ValueModel) -> Seq<char> {
    match value {
        ValueModel::Int(x) => integer_decimal(x as int),
        ValueModel::Float(x) => ieee_decimal(x),
        ValueModel::Bool(x) => if x {
            "true"@
        } else {
            "false"@
        },
        ValueModel::Str(x) => debug_quoted(x),
    }
}

/// A unary operator as it is written in a statement.
pub open spec fn unary_sql(operator: UnaryOperator) -> Seq<char> {
    match operator {
        UnaryOperator::Minus => "-"@,
        UnaryOperator::Not => "!"@,
    }
}

/// A binary operator as it is written in a statement.
pub open spec fn binary_sql(operator: BinaryOperator) -> Seq<char> {
    match operator {
        BinaryOperator::Plus => "+"@,
        BinaryOperator::Minus => "-"@,
        BinaryOperator::Times => "*"@,
        BinaryOperator::Division => "/"@,
        BinaryOperator::Equal => "="@,
        BinaryOperator::NotEqual => "!="@,
        BinaryOperator::GreaterThan => ">"@,
        BinaryOperator::GreaterEqual => ">="@,
        BinaryOperator::LowerThan => "<"@,
        BinaryOperator::LowerEqual => "<="@,
    }
}

/// A direction of sorting as it is written in a statement.
pub open spec fn order_sql(order: Order) -> Seq<char> {
    match order {
        Order::Asc => "ASC"@,
        Order::Desc => "DESC"@,
    }
}

/// The name under which the value of a parameter is bound to a statement.
pub fn parameter_name(predicate: usize, parameter: usize) -> (name: String)
    ensures
        name@ == bind_name(predicate, parameter),
{
    let mut name = String::from_str(":param");
    name.append(index_text(predicate).as_str());
    name.append("x");
    name.append(index_text(parameter).as_str());
    name
}

/// The text of a result, where there is one.
pub open spec fn text_of(result: Option<String>) -> Option<Seq<char>> {
    match result {
        Some(text) => Some(text@),
        None => None,
    }
}

/// The composer of the statement of one predicate on static data.
pub struct SqlContext<'a> {
    idx: usize,
    tuple: &'a TupleDeclaration,
    parameters: Vec<String>,
    aggregate: Option<String>,
}

impl<'a> SqlContext<'a> {
    /// What the statement is composed from.
    pub closed spec fn model(&self) -> SqlModel {
        SqlModel {
            idx: self.idx,
            tuple: *self.tuple,
            parameters: self.parameters.deep_view(),
            aggregate: text_of(self.aggregate),
        }
    }

    /// The composer for the predicate of the given index on the given table.
    pub fn new(idx: usize, tuple: &'a TupleDeclaration) -> (context: SqlContext<'a>)
        ensures
            context.model() == (SqlModel {
                idx,
                tuple: *tuple,
                parameters: Seq::empty(),
                aggregate: None,
            }),
    {
        let context = SqlContext { idx, tuple, parameters: Vec::new(), aggregate: None };
        assert(context.parameters.deep_view() =~= Seq::<Seq<char>>::empty());
        context
    }

    /// Sets the aggregate that `Expression::Aggregate` stands for. Nothing
    /// is set where the aggregate is on an attribute that the table does not have.
    pub fn set_aggregate(&mut self, aggr: &Aggregator) -> (set: bool)
        ensures
            set == old(self).model().aggregator(*aggr).is_some(),
            final(self).model() == if set {
                SqlModel { aggregate: old(self).model().aggregator(*aggr), ..old(self).model() }
            } else {
                old(self).model()
            },
    {
        let sql = match aggr {
            Aggregator::Avg(attribute) => self.function("AVG(", *attribute),
            Aggregator::Sum(attribute) => self.function("SUM(", *attribute),
            Aggregator::Max(attribute) => self.function("MAX(", *attribute),
            Aggregator::Min(attribute) => self.function("MIN(", *attribute),
            Aggregator::Count => Some(String::from_str("COUNT(*)")),
        };
        match sql {
            Some(text) => {
                self.aggregate = Some(text);
                true
            },
            None => false,
        }
    }

    fn function(&self, opening: &str, attribute: usize) -> (sql: Option<String>)
        ensures
            text_of(sql) == match self.model().attribute(attribute) {
                Some(column) => Some(opening@ + column + ")"@),
                None => None,
            },
    {
        match self.encode_attribute(attribute) {
            Some(column) => {
                let mut text = String::from_str(opening);
                text.append(column.as_str());
                text.append(")");
                Some(text)
            },
            None => None,
        }
    }

    /// Defines one more parameter of the predicate, and gives its expression.
    pub fn insert_parameter(&mut self, param: &ParameterDeclaration) -> (sql: Option<String>)
        ensures
            text_of(sql) == old(self).model().expression(param.expression),
            final(self).model() == match old(self).model().expression(param.expression) {
                Some(text) => SqlModel {
                    parameters: old(self).model().parameters.push(text),
                    ..old(self).model()
                },
                None => old(self).model(),
            },
    {
        match self.encode_expression(&param.expression) {
            Some(sql) => {
                let ghost before = self.parameters.deep_view();
                self.parameters.push(sql.clone());
                assert(self.parameters.deep_view() =~= before.push(sql@));
                Some(sql)
            },
            None => None,
        }
    }

    /// A value as it is written in a statement.
    pub fn encode_value(&self, value: &Value) -> (sql: String)
        ensures
            sql@ == value_sql(value.deep_view()),
    {
        match value {
            Value::Int(x) => integer_text(*x),
            Value::Float(x) => x.to_decimal(),
            Value::Bool(x) => if *x {
                String::from_str("true")
            } else {
                String::from_str("false")
            },
            Value::Str(x) => quoted_text(x),
        }
    }

    /// A unary operator as it is written in a statement.
    pub fn encode_unary(&self, op: &UnaryOperator) -> (sql: String)
        ensures
            sql@ == unary_sql(*op),
    {
        match op {
            UnaryOperator::Minus => String::from_str("-"),
            UnaryOperator::Not => String::from_str("!"),
        }
    }

    /// A binary operator as it is written in a statement.
    pub fn encode_binary(&self, op: &BinaryOperator) -> (sql: String)
        ensures
            sql@ == binary_sql(*op),
    {
        match op {
            BinaryOperator::Plus => String::from_str("+"),
            BinaryOperator::Minus => String::from_str("-"),
            BinaryOperator::Times => String::from_str("*"),
            BinaryOperator::Division => String::from_str("/"),
            BinaryOperator::Equal => String::from_str("="),
            BinaryOperator::NotEqual => String::from_str("!="),
            BinaryOperator::GreaterThan => String::from_str(">"),
            BinaryOperator::GreaterEqual => String::from_str(">="),
            BinaryOperator::LowerThan => String::from_str("<"),
            BinaryOperator::LowerEqual => String::from_str("<="),
        }
    }

    /// A column of the table; `None` for an attribute that the table does not have.
    pub fn encode_attribute(&self, attribute: usize) -> (sql: Option<String>)
        ensures
            text_of(sql) == self.model().attribute(attribute),
    {
        if attribute < self.tuple.attributes.len() {
            let mut text = self.tuple.name.clone();
            text.append(".");
            text.append(self.tuple.attributes[attribute].name.as_str());
            Some(text)
        } else {
            None
        }
    }

    /// A parameter; `None` for a parameter of the predicate itself that is
    /// not defined yet.
    pub fn get_parameter(&self, predicate: usize, parameter: usize) -> (sql: Option<String>)
        ensures
            text_of(sql) == self.model().parameter(predicate, parameter),
    {
        if predicate == self.idx {
            if parameter < self.parameters.len() {
                assert(self.parameters.deep_view()[parameter as int]
                    == self.parameters@[parameter as int]@);
                Some(self.parameters[parameter].clone())
            } else {
                None
            }
        } else {
            Some(parameter_name(predicate, parameter))
        }
    }

    /// An expression; `None` where it refers to what is not there.
    pub fn encode_expression(&self, expr: &Expression) -> (sql: Option<String>)
        ensures
            text_of(sql) == self.model().expression(*expr),
        decreases expr,
    {
        match expr {
            Expression::Immediate { value } => Some(self.encode_value(value)),
            Expression::Reference { attribute } => self.encode_attribute(*attribute),
            Expression::Parameter { predicate, parameter } => self.get_parameter(
                *predicate,
                *parameter,
            ),
            Expression::Aggregate => match &self.aggregate {
                Some(text) => Some(text.clone()),
                None => None,
            },
            Expression::Cast { expression, .. } => self.encode_expression(expression),
            Expression::UnaryOperation { operator, expression } => {
                match self.encode_expression(expression) {
                    Some(inner) => {
                        let mut text = String::from_str("(");
                        text.append(self.encode_unary(operator).as_str());
                        text.append(inner.as_str());
                        text.append(")");
                        Some(text)
                    },
                    None => None,
                }
            },
            Expression::BinaryOperation { operator, left, right } => {
                let l = match self.encode_expression(left) {
                    Some(l) => l,
                    None => {
                        return None;
                    },
                };
                let r = match self.encode_expression(right) {
                    Some(r) => r,
                    None => {
                        return None;
                    },
                };
                let mut text = String::from_str("(");
                text.append(l.as_str());
                text.append(" ");
                text.append(self.encode_binary(operator).as_str());
                text.append(" ");
                text.append(r.as_str());
                text.append(")");
                Some(text)
            },
        }
    }

    /// A direction of sorting as it is written in a statement.
    pub fn encode_order(&self, ord: &Order) -> (sql: String)
        ensures
            sql@ == order_sql(*ord),
    {
        match ord {
            Order::Asc => String::from_str("ASC"),
            Order::Desc => String::from_str("DESC"),
        }
    }

    /// A sorting criterion; `None` for an attribute that the table does not have.
    pub fn encode_ordering(&self, ord: &AttributeOrdering) -> (sql: Option<String>)
        ensures
            text_of(sql) == self.model().ordering(*ord),
    {
        match self.encode_attribute(ord.attribute) {
            Some(column) => {
                let mut text = column;
                text.append(" ");
                text.append(self.encode_order(&ord.direction).as_str());
                Some(text)
            },
            None => None,
        }
    }

    fn encode_expressions(&self, expressions: &Vec<Expression>) -> (texts: Option<Vec<String>>)
        ensures
            match texts {
                Some(list) => self.model().expressions(expressions@, 0) == Some(list.deep_view()),
                None => self.model().expressions(expressions@, 0).is_none(),
            },
    {
        let mut list: Vec<String> = Vec::new();
        let mut i: usize = expressions.len();
        assert(list.deep_view() =~= Seq::<Seq<char>>::empty());
        while i > 0
            invariant
                i <= expressions.len(),
                self.model().expressions(expressions@, i as int) == Some(list.deep_view()),
            decreases i,
        {
            i -= 1;
            match self.encode_expression(&expressions[i]) {
                Some(text) => {
                    let ghost before = list.deep_view();
                    list.insert(0, text);
                    assert(list.deep_view() =~= seq![text@] + before);
                },
                None => {
                    proof {
                        lemma_expressions_none(self.model(), expressions@, i as int, 0);
                    }
                    return None;
                },
            }
        }
        Some(list)
    }

    fn encode_orderings(&self, orderings: &Vec<AttributeOrdering>) -> (texts: Option<Vec<String>>)
        ensures
            match texts {
                Some(list) => self.model().orderings(orderings@, 0) == Some(list.deep_view()),
                None => self.model().orderings(orderings@, 0).is_none(),
            },
    {
        let mut list: Vec<String> = Vec::new();
        let mut i: usize = orderings.len();
        assert(list.deep_view() =~= Seq::<Seq<char>>::empty());
        while i > 0
            invariant
                i <= orderings.len(),
                self.model().orderings(orderings@, i as int) == Some(list.deep_view()),
            decreases i,
        {
            i -= 1;
            match self.encode_ordering(&orderings[i]) {
                Some(text) => {
                    let ghost before = list.deep_view();
                    list.insert(0, text);
                    assert(list.deep_view() =~= seq![text@] + before);
                },
                None => {
                    proof {
                        lemma_orderings_none(self.model(), orderings@, i as int, 0);
                    }
                    return None;
                },
            }
        }
        Some(list)
    }

    fn encode_selection(&mut self, declared: &Vec<ParameterDeclaration>) -> (columns: Option<
        Vec<String>,
    >)
        ensures
            match columns {
                Some(list) => old(self).model().selected(declared@, 0) == Some(
                    (final(self).model(), list.deep_view()),
                ),
                None => old(self).model().selected(declared@, 0).is_none(),
            },
    {
        let mut list: Vec<String> = Vec::new();
        let mut i: usize = 0;
        assert(list.deep_view() =~= Seq::<Seq<char>>::empty());
        while i < declared.len()
            invariant
                i <= declared.len(),
                match self.model().selected(declared@, i as int) {
                    Some((model, rest)) => old(self).model().selected(declared@, 0) == Some(
                        (model, list.deep_view() + rest),
                    ),
                    None => old(self).model().selected(declared@, 0).is_none(),
                },
            decreases declared.len() - i,
        {
            let ghost before = self.model();
            let ghost sofar = list.deep_view();
            match self.insert_parameter(&declared[i]) {
                Some(sql) => {
                    let mut column = sql;
                    column.append(" AS ");
                    column.append(declared[i].name.as_str());
                    list.push(column);
                    assert(list.deep_view() =~= sofar.push(column@));
                    proof {
                        match self.model().selected(declared@, i + 1) {
                            Some((model, rest)) => {
                                assert(before.selected(declared@, i as int) == Some(
                                    (model, seq![column@] + rest),
                                ));
                                assert(sofar + (seq![column@] + rest) =~= list.deep_view() + rest);
                            },
                            None => {},
                        }
                    }
                },
                None => {
                    return None;
                },
            }
            i += 1;
        }
        assert(list.deep_view() + Seq::<Seq<char>>::empty() =~= list.deep_view());
        Some(list)
    }

    /// The statement of a predicate; `None` for a predicate that is not on
    /// static data, or that refers to what is not there. The parameters of
    /// the predicate are defined on the way.
    pub fn encode_predicate(&mut self, pred: &Predicate) -> (sql: Option<String>)
        ensures
            text_of(sql) == old(self).model().statement(*pred),
    {
        let ghost start = self.model();
        let mut rest = String::new();
        let selection: String;
        match &pred.ty {
            PredicateType::OrderedStatic { parameters, ordering } => {
                let columns = match self.encode_selection(parameters) {
                    Some(columns) => columns,
                    None => {
                        return None;
                    },
                };
                let criteria = match self.encode_orderings(ordering) {
                    Some(criteria) => criteria,
                    None => {
                        return None;
                    },
                };
                selection = join(&columns, ", ");
                rest.append("ORDER BY ");
                rest.append(join(&criteria, ", ").as_str());
                rest.append(" LIMIT 1");
            },
            PredicateType::UnorderedStatic { parameters } => {
                let columns = match self.encode_selection(parameters) {
                    Some(columns) => columns,
                    None => {
                        return None;
                    },
                };
                selection = join(&columns, ", ");
            },
            PredicateType::StaticAggregate { aggregator, parameter } => {
                if !self.set_aggregate(aggregator) {
                    return None;
                }
                let ghost with_aggregate = self.model();
                let sql = match self.insert_parameter(parameter) {
                    Some(sql) => sql,
                    None => {
                        return None;
                    },
                };
                let mut column = sql;
                column.append(" AS ");
                column.append(parameter.name.as_str());
                proof {
                    let declared = seq![*parameter];
                    assert(self.model().selected(declared, 1) == Some(
                        (self.model(), Seq::<Seq<char>>::empty()),
                    ));
                    assert(seq![column@] + Seq::<Seq<char>>::empty() =~= seq![column@]);
                    assert(with_aggregate.selected(declared, 0) == Some(
                        (self.model(), seq![column@]),
                    ));
                }
                selection = column;
            },
            PredicateType::StaticNegation => {
                selection = String::from_str("1");
                rest.append("LIMIT 1");
            },
            _ => {
                return None;
            },
        }
        proof {
            match &pred.ty {
                PredicateType::OrderedStatic { parameters, .. } => {
                    lemma_selected_keeps(start, parameters@, 0);
                },
                PredicateType::UnorderedStatic { parameters } => {
                    lemma_selected_keeps(start, parameters@, 0);
                },
                _ => {},
            }
        }
        assert(start.clauses(*pred) == Some((self.model(), selection@, rest@)));
        assert(self.model().tuple == start.tuple);
        let filters = match self.encode_expressions(&pred.tuple.constraints) {
            Some(filters) => filters,
            None => {
                return None;
            },
        };
        let mut text = String::from_str("SELECT ");
        if selection.as_str().is_empty() {
            text.append("1");
        } else {
            text.append(selection.as_str());
        }
        text.append(" FROM ");
        text.append(self.tuple.name.as_str());
        text.append(" WHERE ");
        text.append(join(&filters, " AND ").as_str());
        text.append(" ");
        text.append(rest.as_str());
        Some(text)
    }
}

/// The definition of parameters changes nothing but the parameters.
proof fn lemma_selected_keeps(model: SqlModel, declared: Seq<ParameterDeclaration>, from: int)
    requires
        0 <= from,
    ensures
        match model.selected(declared, from) {
            Some((after, _)) => after.idx == model.idx && after.tuple == model.tuple
                && after.aggregate == model.aggregate,
            None => true,
        },
    decreases declared.len() - from,
{
    if from < declared.len() {
        match model.expression(declared[from].expression) {
            Some(sql) => {
                lemma_selected_keeps(
                    SqlModel { parameters: model.parameters.push(sql), ..model },
                    declared,
                    from + 1,
                );
            },
            None => {},
        }
    }
}

/// Where an expression has no text, the list from any earlier index on has none.
proof fn lemma_expressions_none(model: SqlModel, expressions: Seq<Expression>, at: int, from: int)
    requires
        0 <= from <= at < expressions.len(),
        model.expression(expressions[at]).is_none(),
    ensures
        model.expressions(expressions, from).is_none(),
    decreases at - from,
{
    if from < at {
        lemma_expressions_none(model, expressions, at, from + 1);
    }
}

/// Where a criterion has no text, the list from any earlier index on has none.
proof fn lemma_orderings_none(
    model: SqlModel,
    orderings: Seq<AttributeOrdering>,
    at: int,
    from: int,
)
    requires
        0 <= from <= at < orderings.len(),
        model.ordering(orderings[at]).is_none(),
    ensures
        model.orderings(orderings, from).is_none(),
    decreases at - from,
{
    if from < at {
        lemma_orderings_none(model, orderings, at, from + 1);
    }
}

} // verus!

//! Values and the expressions computed from them.

use crate::tesla::number::Number;
use vstd::prelude::*;

verus! {

/// The types of attributes, parameters, aggregates and immediate values.
#[derive(Clone, Copy, Debug, PartialEq, Eq, Hash, Structural)]
pub enum BasicType {
    /// Signed integer of 64 bits.
    Int,
    /// Double precision number.
    Float,
    /// Boolean.
    Bool,
    /// String.
    Str,
}

/// The values of attributes, parameters, aggregates and immediate values.
#[derive(Debug, Hash)]
pub enum Value {
    /// Signed integer of 64 bits.
    Int(i64),
    /// Double precision number.
    Float(Number),
    /// Boolean.
    Bool(bool),
    /// String.
    Str(String),
}

/// What a `Value` holds: a float as its bit pattern, a string as its characters.
pub enum ValueModel {
    Int(i64),
    Float(u64),
    Bool(bool),
    Str(Seq<char>),
}

impl DeepView for Value {
    type V = ValueModel;

    open spec fn deep_view(&self) -> ValueModel {
        match self {
            Value::Int(x) => ValueModel::Int(*x),
            Value::Float(x) => ValueModel::Float(x@),
            Value::Bool(x) => ValueModel::Bool(*x),
            Value::Str(x) => ValueModel::Str(x@),
        }
    }
}

impl ValueModel {
    /// The type of the value.
    pub open spec fn ty(self) -> BasicType {
        match self {
            ValueModel::Int(_) => BasicType::Int,
            ValueModel::Float(_) => BasicType::Float,
            ValueModel::Bool(_) => BasicType::Bool,
            ValueModel::Str(_) => BasicType::Str,
        }
    }
}

impl Clone for Value {
    fn clone(&self) -> (copy: Value)
        ensures
            copy == *self,
    {
        match self {
            Value::Int(x) => Value::Int(*x),
            Value::Float(x) => Value::Float(*x),
            Value::Bool(x) => Value::Bool(*x),
            Value::Str(x) => Value::Str(x.clone()),
        }
    }
}

impl PartialEq for Value {
    fn eq(&self, other: &Value) -> (equal: bool) {
        self.same(other)
    }
}

impl vstd::std_specs::cmp::PartialEqSpecImpl for Value {
    open spec fn obeys_eq_spec() -> bool {
        true
    }

    open spec fn eq_spec(&self, other: &Value) -> bool {
        self.deep_view() == other.deep_view()
    }
}

impl Eq for Value {

}

impl Value {
    /// Whether the two values hold the same: floats hold the same when
    /// their bit patterns are the same, so that a NaN is the same as itself.
    pub fn same(&self, other: &Value) -> (same: bool)
        ensures
            same == (self.deep_view() == other.deep_view()),
    {
        match (self, other) {
            (Value::Int(x), Value::Int(y)) => *x == *y,
            (Value::Float(x), Value::Float(y)) => x.to_bits() == y.to_bits(),
            (Value::Bool(x), Value::Bool(y)) => *x == *y,
            (Value::Str(x), Value::Str(y)) => *x == *y,
            _ => false,
        }
    }

    /// The integer held; `None` for a value of another type.
    pub fn extract_int(&self) -> (held: Option<i64>)
        ensures
            held == (match self.deep_view() {
                ValueModel::Int(x) => Some(x),
                _ => None,
            }),
    {
        if let Value::Int(x) = self {
            Some(*x)
        } else {
            None
        }
    }

    /// The number held; `None` for a value of another type.
    pub fn extract_float(&self) -> (held: Option<Number>)
        ensures
            match self.deep_view() {
                ValueModel::Float(x) => held.is_some() && held.unwrap()@ == x,
                _ => held.is_none(),
            },
    {
        if let Value::Float(x) = self {
            Some(*x)
        } else {
            None
        }
    }

    /// The boolean held; `None` for a value of another type.
    pub fn extract_bool(&self) -> (held: Option<bool>)
        ensures
            held == (match self.deep_view() {
                ValueModel::Bool(x) => Some(x),
                _ => None,
            }),
    {
        if let Value::Bool(x) = self {
            Some(*x)
        } else {
            None
        }
    }

    /// The string held; `None` for a value of another type.
    pub fn extract_string(&self) -> (held: Option<String>)
        ensures
            match self.deep_view() {
                ValueModel::Str(x) => held.is_some() && held.unwrap()@ == x,
                _ => held.is_none(),
            },
    {
        if let Value::Str(x) = self {
            Some(x.clone())
        } else {
            None
        }
    }

    /// The integer that an integer value holds.
    pub fn unwrap_int(&self) -> (held: i64)
        requires
            self.deep_view() is Int,
        ensures
            self.deep_view() == ValueModel::Int(held),
    {
        match self {
            Value::Int(x) => *x,
            _ => vstd::pervasive::unreached(),
        }
    }

    /// The number that a float value holds.
    pub fn unwrap_float(&self) -> (held: Number)
        requires
            self.deep_view() is Float,
        ensures
            self.deep_view() == ValueModel::Float(held@),
    {
        match self {
            Value::Float(x) => *x,
            _ => vstd::pervasive::unreached(),
        }
    }

    /// The boolean that a boolean value holds.
    pub fn unwrap_bool(&self) -> (held: bool)
        requires
            self.deep_view() is Bool,
        ensures
            self.deep_view() == ValueModel::Bool(held),
    {
        match self {
            Value::Bool(x) => *x,
            _ => vstd::pervasive::unreached(),
        }
    }

    /// The string that a string value holds.
    pub fn unwrap_string(&self) -> (held: String)
        requires
            self.deep_view() is Str,
        ensures
            self.deep_view() == ValueModel::Str(held@),
    {
        match self {
            Value::Str(x) => x.clone(),
            _ => vstd::pervasive::unreached(),
        }
    }

    /// The boolean held; `None` for a value of another type.
    pub fn as_bool(&self) -> (held: Option<bool>)
        ensures
            held == (match self.deep_view() {
                ValueModel::Bool(x) => Some(x),
                _ => None,
            }),
    {
        self.extract_bool()
    }

    /// The type of the value.
    pub fn get_type(&self) -> (ty: BasicType)
        ensures
            ty == self.deep_view().ty(),
    {
        match self {
            Value::Int(_) => BasicType::Int,
            Value::Float(_) => BasicType::Float,
            Value::Bool(_) => BasicType::Bool,
            Value::Str(_) => BasicType::Str,
        }
    }
}

impl From<i64> for Value {
    fn from(value: i64) -> (made: Value) {
        Value::Int(value)
    }
}

impl vstd::std_specs::convert::FromSpecImpl<i64> for Value {
    open spec fn obeys_from_spec() -> bool {
        true
    }

    open spec fn from_spec(value: i64) -> Value {
        Value::Int(value)
    }
}

impl From<Number> for Value {
    fn from(value: Number) -> (made: Value) {
        Value::Float(value)
    }
}

impl vstd::std_specs::convert::FromSpecImpl<Number> for Value {
    open spec fn obeys_from_spec() -> bool {
        true
    }

    open spec fn from_spec(value: Number) -> Value {
        Value::Float(value)
    }
}

impl From<bool> for Value {
    fn from(value: bool) -> (made: Value) {
        Value::Bool(value)
    }
}

impl vstd::std_specs::convert::FromSpecImpl<bool> for Value {
    open spec fn obeys_from_spec() -> bool {
        true
    }

    open spec fn from_spec(value: bool) -> Value {
        Value::Bool(value)
    }
}

impl From<String> for Value {
    fn from(value: String) -> (made: Value) {
        Value::Str(value)
    }
}

impl vstd::std_specs::convert::FromSpecImpl<String> for Value {
    open spec fn obeys_from_spec() -> bool {
        true
    }

    open spec fn from_spec(value: String) -> Value {
        Value::Str(value)
    }
}

impl From<Value> for Option<i64> {
    fn from(value: Value) -> (held: Option<i64>) {
        match value {
            Value::Int(x) => Some(x),
            _ => None,
        }
    }
}

impl vstd::std_specs::convert::FromSpecImpl<Value> for Option<i64> {
    open spec fn obeys_from_spec() -> bool {
        true
    }

    open spec fn from_spec(value: Value) -> Option<i64> {
        match value {
            Value::Int(x) => Some(x),
            _ => None,
        }
    }
}

impl From<Value> for Option<Number> {
    fn from(value: Value) -> (held: Option<Number>) {
        match value {
            Value::Float(x) => Some(x),
            _ => None,
        }
    }
}

impl vstd::std_specs::convert::FromSpecImpl<Value> for Option<Number> {
    open spec fn obeys_from_spec() -> bool {
        true
    }

    open spec fn from_spec(value: Value) -> Option<Number> {
        match value {
            Value::Float(x) => Some(x),
            _ => None,
        }
    }
}

impl From<Value> for Option<bool> {
    fn from(value: Value) -> (held: Option<bool>) {
        match value {
            Value::Bool(x) => Some(x),
            _ => None,
        }
    }
}

impl vstd::std_specs::convert::FromSpecImpl<Value> for Option<bool> {
    open spec fn obeys_from_spec() -> bool {
        true
    }

    open spec fn from_spec(value: Value) -> Option<bool> {
        match value {
            Value::Bool(x) => Some(x),
            _ => None,
        }
    }
}

impl From<Value> for Option<String> {
    fn from(value: Value) -> (held: Option<String>) {
        match value {
            Value::Str(x) => Some(x),
            _ => None,
        }
    }
}

impl vstd::std_specs::convert::FromSpecImpl<Value> for Option<String> {
    open spec fn obeys_from_spec() -> bool {
        true
    }

    open spec fn from_spec(value: Value) -> Option<String> {
        match value {
            Value::Str(x) => Some(x),
            _ => None,
        }
    }
}

/// Copies a list of values.
pub fn clone_values(values: &Vec<Value>) -> (copy: Vec<Value>)
    ensures
        copy@ == values@,
        copy.deep_view() == values.deep_view(),
{
    let mut copy: Vec<Value> = Vec::new();
    let mut i: usize = 0;
    while i < values.len()
        invariant
            i <= values.len(),
            copy@ == values@.take(i as int),
        decreases values.len() - i,
    {
        copy.push(values[i].clone());
        assert(values@.take(i + 1) == values@.take(i as int).push(values@[i as int]));
        i += 1;
    }
    assert(values@.take(values.len() as int) == values@);
    assert(copy.deep_view() =~= values.deep_view());
    copy
}

/// Unary operators.
#[derive(Clone, Copy, Debug, PartialEq, Eq, Structural)]
pub enum UnaryOperator {
    /// Algebraic negation.
    Minus,
    /// Boolean negation.
    Not,
}

/// Binary operators.
#[derive(Clone, Copy, Debug, PartialEq, Eq, Structural)]
pub enum BinaryOperator {
    /// Sum, or concatenation of strings.
    Plus,
    /// Subtraction.
    Minus,
    /// Multiplication.
    Times,
    /// Division.
    Division,
    /// Equality.
    Equal,
    /// Inequality.
    NotEqual,
    /// Greater than.
    GreaterThan,
    /// Greater than or equal.
    GreaterEqual,
    /// Lower than.
    LowerThan,
    /// Lower than or equal.
    LowerEqual,
}

/// A node of an expression tree.
#[derive(Debug)]
#[allow(inconsistent_fields)]
pub enum Expression {
    /// An immediate value.
    Immediate { value: Value },
    /// The value of an attribute of the tuple of the predicate that the
    /// expression appears in.
    Reference { attribute: usize },
    /// The result of the aggregate of the predicate that the expression appears in.
    Aggregate,
    /// The value of a parameter: `parameter` counts within the parameters
    /// that the predicate of index `predicate` defines.
    Parameter { predicate: usize, parameter: usize },
    /// A cast to another type.
    Cast { ty: BasicType, expression: Box<Expression> },
    /// A unary operation.
    UnaryOperation { operator: UnaryOperator, expression: Box<Expression> },
    /// A binary operation.
    BinaryOperation { operator: BinaryOperator, left: Box<Expression>, right: Box<Expression> },
}

impl Clone for Expression {
    fn clone(&self) -> (copy: Expression)
        ensures
            copy == *self,
        decreases self,
    {
        match self {
            Expression::Immediate { value } => Expression::Immediate { value: value.clone() },
            Expression::Reference { attribute } => Expression::Reference { attribute: *attribute },
            Expression::Aggregate => Expression::Aggregate,
            Expression::Parameter { predicate, parameter } => Expression::Parameter {
                predicate: *predicate,
                parameter: *parameter,
            },
            Expression::Cast { ty, expression } => {
                let inner: Expression = (**expression).clone();
                Expression::Cast { ty: *ty, expression: Box::new(inner) }
            },
            Expression::UnaryOperation { operator, expression } => {
                let inner: Expression = (**expression).clone();
                Expression::UnaryOperation { operator: *operator, expression: Box::new(inner) }
            },
            Expression::BinaryOperation { operator, left, right } => {
                let l: Expression = (**left).clone();
                let r: Expression = (**right).clone();
                Expression::BinaryOperation {
                    operator: *operator,
                    left: Box::new(l),
                    right: Box::new(r),
                }
            },
        }
    }
}

/// `a` comes before `b`: by predicate first, then by parameter.
pub open spec fn param_before(a: (usize, usize), b: (usize, usize)) -> bool {
    a.0 < b.0 || (a.0 == b.0 && a.1 < b.1)
}

/// Every element comes before the one that follows it.
pub open spec fn params_ascending(params: Seq<(usize, usize)>) -> bool {
    forall|i: int, j: int| 0 <= i < j < params.len() ==> param_before(params[i], params[j])
}

impl Expression {
    /// Whether the expression holds no reference to a parameter.
    pub open spec fn local(self) -> bool
        decreases self,
    {
        match self {
            Expression::Parameter { .. } => false,
            Expression::Cast { expression, .. } => expression.local(),
            Expression::UnaryOperation { expression, .. } => expression.local(),
            Expression::BinaryOperation { left, right, .. } => left.local() && right.local(),
            _ => true,
        }
    }

    /// The parameters that the expression refers to.
    pub open spec fn parameters(self) -> Set<(usize, usize)>
        decreases self,
    {
        match self {
            Expression::Parameter { predicate, parameter } => set![(predicate, parameter)],
            Expression::Cast { expression, .. } => expression.parameters(),
            Expression::UnaryOperation { expression, .. } => expression.parameters(),
            Expression::BinaryOperation { left, right, .. } => left.parameters().union(
                right.parameters(),
            ),
            _ => Set::empty(),
        }
    }

    /// Whether the expression refers to a parameter of the given predicate.
    pub open spec fn depends_on(self, predicate: usize) -> bool {
        exists|q: usize| #[trigger] self.parameters().contains((predicate, q))
    }

    /// An expression is local exactly when it refers to no parameter.
    pub proof fn lemma_local_has_no_parameters(self)
        ensures
            self.local() <==> self.parameters() =~= Set::<(usize, usize)>::empty(),
            self.parameters().finite(),
        decreases self,
    {
        match self {
            Expression::Parameter { predicate, parameter } => {
                assert(set![(predicate, parameter)].contains((predicate, parameter)));
            },
            Expression::Cast { expression, .. } => {
                expression.lemma_local_has_no_parameters();
            },
            Expression::UnaryOperation { expression, .. } => {
                expression.lemma_local_has_no_parameters();
            },
            Expression::BinaryOperation { left, right, .. } => {
                left.lemma_local_has_no_parameters();
                right.lemma_local_has_no_parameters();
                let l = left.parameters();
                let r = right.parameters();
                if l.union(r) =~= Set::<(usize, usize)>::empty() {
                    assert forall|p: (usize, usize)| !l.contains(p) by {
                        assert(!l.union(r).contains(p));
                    }
                    assert forall|p: (usize, usize)| !r.contains(p) by {
                        assert(!l.union(r).contains(p));
                    }
                    assert(l =~= Set::<(usize, usize)>::empty());
                    assert(r =~= Set::<(usize, usize)>::empty());
                }
            },
            _ => {},
        }
    }

    /// Checks that the expression refers to no parameter.
    pub fn is_local(&self) -> (local: bool)
        ensures
            local == self.local(),
        decreases self,
    {
        match self {
            Expression::Parameter { .. } => false,
            Expression::Cast { expression, .. } => expression.is_local(),
            Expression::UnaryOperation { expression, .. } => expression.is_local(),
            Expression::BinaryOperation { left, right, .. } => left.is_local() && right.is_local(),
            _ => true,
        }
    }

    /// Adds to `found`, in ascending order and once each, the parameters that
    /// the expression refers to.
    pub fn collect_parameters(&self, found: &mut Vec<(usize, usize)>)
        requires
            params_ascending(old(found)@),
        ensures
            params_ascending(final(found)@),
            final(found)@.to_set() =~= old(found)@.to_set().union(self.parameters()),
        decreases self,
    {
        match self {
            Expression::Parameter { predicate, parameter } => {
                insert_parameter(found, (*predicate, *parameter));
            },
            Expression::Cast { expression, .. } => {
                expression.collect_parameters(found);
            },
            Expression::UnaryOperation { expression, .. } => {
                expression.collect_parameters(found);
            },
            Expression::BinaryOperation { left, right, .. } => {
                left.collect_parameters(found);
                right.collect_parameters(found);
            },
            _ => {},
        }
    }

    /// The parameters that the expression refers to, in ascending order and once each.
    pub fn get_parameters(&self) -> (params: Vec<(usize, usize)>)
        ensures
            params_ascending(params@),
            params@.to_set() =~= self.parameters(),
    {
        let mut found: Vec<(usize, usize)> = Vec::new();
        assert(found@.to_set() =~= Set::<(usize, usize)>::empty());
        self.collect_parameters(&mut found);
        found
    }

    /// The last predicate that the expression depends on.
    pub fn get_last_predicate(&self) -> (last: Option<usize>)
        ensures
            last.is_none() <==> self.local(),
            last.is_some() ==> self.depends_on(last.unwrap()),
            forall|p: (usize, usize)| self.parameters().contains(p) ==> last.is_some() && p.0
                <= last.unwrap(),
    {
        let params = self.get_parameters();
        proof {
            self.lemma_local_has_no_parameters();
        }
        if params.len() == 0 {
            assert forall|p: (usize, usize)| !self.parameters().contains(p) by {
                if self.parameters().contains(p) {
                    assert(params@.to_set().contains(p));
                    assert(params@.contains(p));
                }
            }
            assert(self.parameters() =~= Set::<(usize, usize)>::empty());
            None
        } else {
            let top = params[params.len() - 1];
            proof {
                assert(params@.contains(params@[params.len() - 1]));
                assert(params@.to_set().contains(top));
                assert(top == (top.0, top.1));
                assert(self.parameters().contains((top.0, top.1)));
                assert(self.depends_on(top.0));
                assert forall|p: (usize, usize)| self.parameters().contains(p) implies p.0
                    <= top.0 by {
                    assert(params@.to_set().contains(p));
                    assert(params@.contains(p));
                    let i = choose|i: int| 0 <= i < params@.len() && params@[i] == p;
                    if i < params@.len() - 1 {
                        assert(param_before(params@[i], params@[params@.len() - 1]));
                    }
                }
            }
            Some(top.0)
        }
    }
}

/// Puts `param` at its place in an ascending list, unless the list holds it already.
pub fn insert_parameter(found: &mut Vec<(usize, usize)>, param: (usize, usize))
    requires
        params_ascending(old(found)@),
    ensures
        params_ascending(final(found)@),
        final(found)@.to_set() =~= old(found)@.to_set().insert(param),
{
    let mut i: usize = 0;
    while i < found.len() && (found[i].0 < param.0 || (found[i].0 == param.0 && found[i].1
        < param.1))
        invariant
            i <= found.len(),
            found@ == old(found)@,
            forall|k: int| 0 <= k < i ==> param_before(#[trigger] found@[k], param),
        decreases found.len() - i,
    {
        i += 1;
    }
    if i < found.len() && found[i].0 == param.0 && found[i].1 == param.1 {
        assert(found@[i as int] == param);
        assert(found@.contains(param));
        assert(found@.to_set().insert(param) =~= found@.to_set());
    } else {
        let ghost before = found@;
        found.insert(i, param);
        assert(found@ == before.insert(i as int, param));
        assert forall|a: int, b: int| 0 <= a < b < found@.len() implies param_before(
            found@[a],
            found@[b],
        ) by {
            if a == i {
                assert(found@[b] == before[b - 1]);
                if b - 1 > i {
                    assert(param_before(before[i as int], before[b - 1]));
                }
            } else if b == i {
                assert(found@[a] == before[a]);
            } else {
                let a0 = if a < i { a } else { a - 1 };
                let b0 = if b < i { b } else { b - 1 };
                assert(found@[a] == before[a0]);
                assert(found@[b] == before[b0]);
                assert(param_before(before[a0], before[b0]));
            }
        }
        assert forall|p: (usize, usize)| found@.to_set().contains(p) <==> before.to_set().insert(
            param,
        ).contains(p) by {
            if found@.contains(p) {
                let k = choose|k: int| 0 <= k < found@.len() && found@[k] == p;
                if k < i {
                    assert(before[k] == p);
                    assert(before.contains(p));
                } else if k > i {
                    assert(before[k - 1] == p);
                    assert(before.contains(p));
                }
            }
            if before.contains(p) {
                let k = choose|k: int| 0 <= k < before.len() && before[k] == p;
                if k < i {
                    assert(found@[k] == p);
                } else {
                    assert(found@[k + 1] == p);
                }
                assert(found@.contains(p));
            }
            if p == param {
                assert(found@[i as int] == p);
                assert(found@.contains(p));
            }
        }
    }
}

} // verus!

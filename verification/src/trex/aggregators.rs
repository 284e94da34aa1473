//! The aggregate functions, computed over the events that a predicate selects.

use crate::tesla::expressions::{BasicType, Value, ValueModel};
use crate::tesla::number::{
    canonical,
    ieee_from_integer,
    ieee_quotient,
    ieee_sum,
    is_nan,
    larger,
    smaller,
    Number,
    NAN_BITS,
};
use crate::tesla::predicates::Aggregator;
use crate::tesla::{AttributeDeclaration, Event, EventModel};
use crate::trex::operations::EvalError;
use std::sync::Arc;
use vstd::prelude::*;

verus! {

/// The integers that the first `n` events hold in the attribute, or the
/// error of the first event that holds none there.
pub open spec fn integers_of(events: Seq<EventModel>, attribute: usize, n: int) -> Result<
    Seq<i64>,
    EvalError,
>
    decreases n,
{
    if n <= 0 {
        Ok(Seq::empty())
    } else {
        match integers_of(events, attribute, n - 1) {
            Err(error) => Err(error),
            Ok(values) => if attribute >= events[n - 1].tuple.data.len() {
                Err(EvalError::MissingAttribute)
            } else {
                match events[n - 1].tuple.data[attribute as int] {
                    ValueModel::Int(x) => Ok(values.push(x)),
                    _ => Err(EvalError::WrongOperands),
                }
            },
        }
    }
}

/// The floats that the first `n` events hold in the attribute, or the error
/// of the first event that holds none there.
pub open spec fn floats_of(events: Seq<EventModel>, attribute: usize, n: int) -> Result<
    Seq<u64>,
    EvalError,
>
    decreases n,
{
    if n <= 0 {
        Ok(Seq::empty())
    } else {
        match floats_of(events, attribute, n - 1) {
            Err(error) => Err(error),
            Ok(values) => if attribute >= events[n - 1].tuple.data.len() {
                Err(EvalError::MissingAttribute)
            } else {
                match events[n - 1].tuple.data[attribute as int] {
                    ValueModel::Float(x) => Ok(values.push(x)),
                    _ => Err(EvalError::WrongOperands),
                }
            },
        }
    }
}

/// The sum of the first `n` integers; `None` once a partial sum leaves the
/// range of 64 bits.
pub open spec fn integer_sum(values: Seq<i64>, n: int) -> Option<i64>
    decreases n,
{
    if n <= 0 {
        Some(0i64)
    } else {
        match integer_sum(values, n - 1) {
            Some(sum) => sum.checked_add(values[n - 1]),
            None => None,
        }
    }
}

/// The smallest of the first `n` integers.
pub open spec fn integer_min(values: Seq<i64>, n: int) -> Option<i64>
    decreases n,
{
    if n <= 0 {
        None
    } else {
        match integer_min(values, n - 1) {
            Some(min) => Some(if values[n - 1] < min { values[n - 1] } else { min }),
            None => Some(values[n - 1]),
        }
    }
}

/// The largest of the first `n` integers.
pub open spec fn integer_max(values: Seq<i64>, n: int) -> Option<i64>
    decreases n,
{
    if n <= 0 {
        None
    } else {
        match integer_max(values, n - 1) {
            Some(max) => Some(if values[n - 1] > max { values[n - 1] } else { max }),
            None => Some(values[n - 1]),
        }
    }
}

/// The sum of the first `n` floats, added one by one to zero.
pub open spec fn float_sum(values: Seq<u64>, n: int) -> u64
    decreases n,
{
    if n <= 0 {
        0u64
    } else {
        canonical(ieee_sum(float_sum(values, n - 1), values[n - 1]))
    }
}

/// The smallest of the first `n` floats; a NaN where there is none.
pub open spec fn float_min(values: Seq<u64>, n: int) -> u64
    decreases n,
{
    if n <= 0 {
        NAN_BITS
    } else {
        smaller(float_min(values, n - 1), values[n - 1])
    }
}

/// The largest of the first `n` floats; a NaN where there is none.
pub open spec fn float_max(values: Seq<u64>, n: int) -> u64
    decreases n,
{
    if n <= 0 {
        NAN_BITS
    } else {
        larger(float_max(values, n - 1), values[n - 1])
    }
}

/// A float, unless it is a NaN.
pub open spec fn unless_nan(bits: u64) -> Option<ValueModel> {
    if is_nan(bits) {
        None
    } else {
        Some(ValueModel::Float(bits))
    }
}

/// The quotient of a sum and a count, for a count above zero.
pub open spec fn average(sum: u64, count: int) -> Result<Option<ValueModel>, EvalError> {
    if count <= 0 {
        Ok(None)
    } else if count > i64::MAX {
        Err(EvalError::Overflow)
    } else {
        Ok(
            Some(
                ValueModel::Float(
                    canonical(ieee_quotient(sum, canonical(ieee_from_integer(count as i64)))),
                ),
            ),
        )
    }
}

/// The type of an attribute, where it is declared.
pub open spec fn type_of(attributes: Seq<AttributeDeclaration>, attribute: usize) -> Option<
    BasicType,
> {
    if attribute < attributes.len() {
        Some(attributes[attribute as int].ty)
    } else {
        None
    }
}

/// The average of an attribute: a float, and nothing over no events.
pub open spec fn average_model(
    events: Seq<EventModel>,
    attributes: Seq<AttributeDeclaration>,
    attribute: usize,
) -> Result<Option<ValueModel>, EvalError> {
    match type_of(attributes, attribute) {
        None => Err(EvalError::MissingAttribute),
        Some(BasicType::Int) => match integers_of(events, attribute, events.len() as int) {
            Err(error) => Err(error),
            Ok(values) => match integer_sum(values, values.len() as int) {
                None => Err(EvalError::Overflow),
                Some(sum) => average(canonical(ieee_from_integer(sum)), values.len() as int),
            },
        },
        Some(BasicType::Float) => match floats_of(events, attribute, events.len() as int) {
            Err(error) => Err(error),
            Ok(values) => average(float_sum(values, values.len() as int), values.len() as int),
        },
        Some(_) => Err(EvalError::WrongOperands),
    }
}

/// The sum of an attribute: zero over no events.
pub open spec fn sum_model(
    events: Seq<EventModel>,
    attributes: Seq<AttributeDeclaration>,
    attribute: usize,
) -> Result<Option<ValueModel>, EvalError> {
    match type_of(attributes, attribute) {
        None => Err(EvalError::MissingAttribute),
        Some(BasicType::Int) => match integers_of(events, attribute, events.len() as int) {
            Err(error) => Err(error),
            Ok(values) => match integer_sum(values, values.len() as int) {
                None => Err(EvalError::Overflow),
                Some(sum) => Ok(Some(ValueModel::Int(sum))),
            },
        },
        Some(BasicType::Float) => match floats_of(events, attribute, events.len() as int) {
            Err(error) => Err(error),
            Ok(values) => Ok(Some(ValueModel::Float(float_sum(values, values.len() as int)))),
        },
        Some(_) => Err(EvalError::WrongOperands),
    }
}

/// The minimum of an attribute: nothing over no events.
pub open spec fn min_model(
    events: Seq<EventModel>,
    attributes: Seq<AttributeDeclaration>,
    attribute: usize,
) -> Result<Option<ValueModel>, EvalError> {
    match type_of(attributes, attribute) {
        None => Err(EvalError::MissingAttribute),
        Some(BasicType::Int) => match integers_of(events, attribute, events.len() as int) {
            Err(error) => Err(error),
            Ok(values) => match integer_min(values, values.len() as int) {
                None => Ok(None),
                Some(min) => Ok(Some(ValueModel::Int(min))),
            },
        },
        Some(BasicType::Float) => match floats_of(events, attribute, events.len() as int) {
            Err(error) => Err(error),
            Ok(values) => Ok(unless_nan(float_min(values, values.len() as int))),
        },
        Some(_) => Err(EvalError::WrongOperands),
    }
}

/// The maximum of an attribute: nothing over no events.
pub open spec fn max_model(
    events: Seq<EventModel>,
    attributes: Seq<AttributeDeclaration>,
    attribute: usize,
) -> Result<Option<ValueModel>, EvalError> {
    match type_of(attributes, attribute) {
        None => Err(EvalError::MissingAttribute),
        Some(BasicType::Int) => match integers_of(events, attribute, events.len() as int) {
            Err(error) => Err(error),
            Ok(values) => match integer_max(values, values.len() as int) {
                None => Ok(None),
                Some(max) => Ok(Some(ValueModel::Int(max))),
            },
        },
        Some(BasicType::Float) => match floats_of(events, attribute, events.len() as int) {
            Err(error) => Err(error),
            Ok(values) => Ok(unless_nan(float_max(values, values.len() as int))),
        },
        Some(_) => Err(EvalError::WrongOperands),
    }
}

/// The number of events.
pub open spec fn count_model(events: Seq<EventModel>) -> Result<Option<ValueModel>, EvalError> {
    if events.len() > i64::MAX {
        Err(EvalError::Overflow)
    } else {
        Ok(Some(ValueModel::Int(events.len() as i64)))
    }
}

/// What an aggregate gives over a sequence of events: a value, nothing (the
/// average, minimum or maximum of no events), or the reason why it cannot be had.
pub open spec fn aggregate_model(
    aggregator: Aggregator,
    events: Seq<EventModel>,
    attributes: Seq<AttributeDeclaration>,
) -> Result<Option<ValueModel>, EvalError> {
    match aggregator {
        Aggregator::Avg(attribute) => average_model(events, attributes, attribute),
        Aggregator::Sum(attribute) => sum_model(events, attributes, attribute),
        Aggregator::Min(attribute) => min_model(events, attributes, attribute),
        Aggregator::Max(attribute) => max_model(events, attributes, attribute),
        Aggregator::Count => count_model(events),
    }
}

/// An aggregate was computed as its model says.
pub open spec fn aggregate_agrees(
    result: Result<Option<Value>, EvalError>,
    model: Result<Option<ValueModel>, EvalError>,
) -> bool {
    match result {
        Ok(Some(value)) => model == Ok::<Option<ValueModel>, EvalError>(Some(value.deep_view())),
        Ok(None) => model == Ok::<Option<ValueModel>, EvalError>(None),
        Err(error) => model == Err::<Option<ValueModel>, EvalError>(error),
    }
}

fn attribute_type(attributes: &Vec<AttributeDeclaration>, attribute: usize) -> (ty: Option<
    BasicType,
>)
    ensures
        ty == type_of(attributes@, attribute),
{
    if attribute < attributes.len() {
        Some(attributes[attribute].ty)
    } else {
        None
    }
}

fn extract_integers(events: &Vec<Arc<Event>>, attribute: usize) -> (result: Result<
    Vec<i64>,
    EvalError,
>)
    ensures
        match result {
            Ok(values) => integers_of(events.deep_view(), attribute, events.len() as int) == Ok::<
                Seq<i64>,
                EvalError,
            >(values@),
            Err(error) => integers_of(events.deep_view(), attribute, events.len() as int) == Err::<
                Seq<i64>,
                EvalError,
            >(error),
        },
{
    let mut values: Vec<i64> = Vec::new();
    let mut i: usize = 0;
    while i < events.len()
        invariant
            i <= events.len(),
            integers_of(events.deep_view(), attribute, i as int) == Ok::<Seq<i64>, EvalError>(
                values@,
            ),
        decreases events.len() - i,
    {
        let event = &events[i];
        assert(events.deep_view()[i as int] == event.deep_view());
        if attribute >= event.tuple.data.len() {
            proof {
                lemma_integers_error(events.deep_view(), attribute, i as int + 1, events.len() as int);
            }
            return Err(EvalError::MissingAttribute);
        }
        assert(event.deep_view().tuple.data[attribute as int]
            == event.tuple.data@[attribute as int].deep_view());
        match &event.tuple.data[attribute] {
            Value::Int(x) => {
                values.push(*x);
            },
            _ => {
                proof {
                    lemma_integers_error(
                        events.deep_view(),
                        attribute,
                        i as int + 1,
                        events.len() as int,
                    );
                }
                return Err(EvalError::WrongOperands);
            },
        }
        i += 1;
    }
    Ok(values)
}

/// An error among the first events is the error of the whole sequence.
proof fn lemma_integers_error(events: Seq<EventModel>, attribute: usize, n: int, m: int)
    requires
        0 <= n <= m,
        integers_of(events, attribute, n) is Err,
    ensures
        integers_of(events, attribute, m) == integers_of(events, attribute, n),
    decreases m - n,
{
    if n < m {
        lemma_integers_error(events, attribute, n, m - 1);
    }
}

/// An error among the first events is the error of the whole sequence.
proof fn lemma_floats_error(events: Seq<EventModel>, attribute: usize, n: int, m: int)
    requires
        0 <= n <= m,
        floats_of(events, attribute, n) is Err,
    ensures
        floats_of(events, attribute, m) == floats_of(events, attribute, n),
    decreases m - n,
{
    if n < m {
        lemma_floats_error(events, attribute, n, m - 1);
    }
}

fn extract_floats(events: &Vec<Arc<Event>>, attribute: usize) -> (result: Result<
    Vec<Number>,
    EvalError,
>)
    ensures
        match result {
            Ok(values) => floats_of(events.deep_view(), attribute, events.len() as int) == Ok::<
                Seq<u64>,
                EvalError,
            >(values.deep_view()),
            Err(error) => floats_of(events.deep_view(), attribute, events.len() as int) == Err::<
                Seq<u64>,
                EvalError,
            >(error),
        },
{
    let mut values: Vec<Number> = Vec::new();
    let mut i: usize = 0;
    assert(values.deep_view() =~= Seq::<u64>::empty());
    while i < events.len()
        invariant
            i <= events.len(),
            floats_of(events.deep_view(), attribute, i as int) == Ok::<Seq<u64>, EvalError>(
                values.deep_view(),
            ),
        decreases events.len() - i,
    {
        let event = &events[i];
        assert(events.deep_view()[i as int] == event.deep_view());
        if attribute >= event.tuple.data.len() {
            proof {
                lemma_floats_error(events.deep_view(), attribute, i as int + 1, events.len() as int);
            }
            return Err(EvalError::MissingAttribute);
        }
        assert(event.deep_view().tuple.data[attribute as int]
            == event.tuple.data@[attribute as int].deep_view());
        match &event.tuple.data[attribute] {
            Value::Float(x) => {
                let ghost before = values.deep_view();
                values.push(*x);
                assert(values.deep_view() =~= before.push(x@));
            },
            _ => {
                proof {
                    lemma_floats_error(
                        events.deep_view(),
                        attribute,
                        i as int + 1,
                        events.len() as int,
                    );
                }
                return Err(EvalError::WrongOperands);
            },
        }
        i += 1;
    }
    Ok(values)
}

fn sum_integers(values: &Vec<i64>) -> (sum: Option<i64>)
    ensures
        sum == integer_sum(values@, values.len() as int),
{
    let mut sum: i64 = 0;
    let mut i: usize = 0;
    while i < values.len()
        invariant
            i <= values.len(),
            integer_sum(values@, i as int) == Some(sum),
        decreases values.len() - i,
    {
        match sum.checked_add(values[i]) {
            Some(next) => {
                sum = next;
            },
            None => {
                proof {
                    lemma_sum_overflow(values@, i as int + 1, values.len() as int);
                }
                return None;
            },
        }
        i += 1;
    }
    Some(sum)
}

/// Once a partial sum has left the range, the sum has.
proof fn lemma_sum_overflow(values: Seq<i64>, n: int, m: int)
    requires
        0 <= n <= m,
        integer_sum(values, n) is None,
    ensures
        integer_sum(values, m) is None,
    decreases m - n,
{
    if n < m {
        lemma_sum_overflow(values, n, m - 1);
    }
}

fn sum_floats(values: &Vec<Number>) -> (sum: Number)
    ensures
        sum@ == float_sum(values.deep_view(), values.len() as int),
{
    let mut sum = Number::from_bits(0);
    let mut i: usize = 0;
    while i < values.len()
        invariant
            i <= values.len(),
            sum@ == float_sum(values.deep_view(), i as int),
        decreases values.len() - i,
    {
        assert(values.deep_view()[i as int] == values@[i as int]@);
        sum = sum.plus(&values[i]);
        i += 1;
    }
    sum
}

fn average_of(sum: Number, count: usize) -> (result: Result<Option<Value>, EvalError>)
    ensures
        aggregate_agrees(result, average(sum@, count as int)),
{
    if count == 0 {
        Ok(None)
    } else if count as u64 > 0x7fff_ffff_ffff_ffff {
        Err(EvalError::Overflow)
    } else {
        let divisor = Number::from_integer(count as i64);
        Ok(Some(Value::Float(sum.divided_by(&divisor))))
    }
}

fn compute_average(
    events: &Vec<Arc<Event>>,
    attributes: &Vec<AttributeDeclaration>,
    attribute: usize,
) -> (result: Result<Option<Value>, EvalError>)
    ensures
        aggregate_agrees(result, average_model(events.deep_view(), attributes@, attribute)),
{
    match attribute_type(attributes, attribute) {
        None => Err(EvalError::MissingAttribute),
        Some(BasicType::Int) => {
            let values = extract_integers(events, attribute)?;
            match sum_integers(&values) {
                None => Err(EvalError::Overflow),
                Some(sum) => average_of(Number::from_integer(sum), values.len()),
            }
        },
        Some(BasicType::Float) => {
            let values = extract_floats(events, attribute)?;
            average_of(sum_floats(&values), values.len())
        },
        Some(_) => Err(EvalError::WrongOperands),
    }
}

fn compute_sum(
    events: &Vec<Arc<Event>>,
    attributes: &Vec<AttributeDeclaration>,
    attribute: usize,
) -> (result: Result<Option<Value>, EvalError>)
    ensures
        aggregate_agrees(result, sum_model(events.deep_view(), attributes@, attribute)),
{
    match attribute_type(attributes, attribute) {
        None => Err(EvalError::MissingAttribute),
        Some(BasicType::Int) => {
            let values = extract_integers(events, attribute)?;
            match sum_integers(&values) {
                None => Err(EvalError::Overflow),
                Some(sum) => Ok(Some(Value::Int(sum))),
            }
        },
        Some(BasicType::Float) => {
            let values = extract_floats(events, attribute)?;
            Ok(Some(Value::Float(sum_floats(&values))))
        },
        Some(_) => Err(EvalError::WrongOperands),
    }
}

fn compute_min(
    events: &Vec<Arc<Event>>,
    attributes: &Vec<AttributeDeclaration>,
    attribute: usize,
) -> (result: Result<Option<Value>, EvalError>)
    ensures
        aggregate_agrees(result, min_model(events.deep_view(), attributes@, attribute)),
{
    match attribute_type(attributes, attribute) {
        None => Err(EvalError::MissingAttribute),
        Some(BasicType::Int) => {
            let values = extract_integers(events, attribute)?;
            let mut min: Option<i64> = None;
            let mut i: usize = 0;
            while i < values.len()
                invariant
                    i <= values.len(),
                    min == integer_min(values@, i as int),
                decreases values.len() - i,
            {
                min =
                match min {
                    Some(m) => Some(if values[i] < m { values[i] } else { m }),
                    None => Some(values[i]),
                };
                i += 1;
            }
            match min {
                Some(m) => Ok(Some(Value::Int(m))),
                None => Ok(None),
            }
        },
        Some(BasicType::Float) => {
            let values = extract_floats(events, attribute)?;
            let mut min = Number::from_bits(NAN_BITS);
            let mut i: usize = 0;
            while i < values.len()
                invariant
                    i <= values.len(),
                    min@ == float_min(values.deep_view(), i as int),
                decreases values.len() - i,
            {
                assert(values.deep_view()[i as int] == values@[i as int]@);
                min = min.min(&values[i]);
                i += 1;
            }
            if min.is_nan() {
                Ok(None)
            } else {
                Ok(Some(Value::Float(min)))
            }
        },
        Some(_) => Err(EvalError::WrongOperands),
    }
}

fn compute_max(
    events: &Vec<Arc<Event>>,
    attributes: &Vec<AttributeDeclaration>,
    attribute: usize,
) -> (result: Result<Option<Value>, EvalError>)
    ensures
        aggregate_agrees(result, max_model(events.deep_view(), attributes@, attribute)),
{
    match attribute_type(attributes, attribute) {
        None => Err(EvalError::MissingAttribute),
        Some(BasicType::Int) => {
            let values = extract_integers(events, attribute)?;
            let mut max: Option<i64> = None;
            let mut i: usize = 0;
            while i < values.len()
                invariant
                    i <= values.len(),
                    max == integer_max(values@, i as int),
                decreases values.len() - i,
            {
                max =
                match max {
                    Some(m) => Some(if values[i] > m { values[i] } else { m }),
                    None => Some(values[i]),
                };
                i += 1;
            }
            match max {
                Some(m) => Ok(Some(Value::Int(m))),
                None => Ok(None),
            }
        },
        Some(BasicType::Float) => {
            let values = extract_floats(events, attribute)?;
            let mut max = Number::from_bits(NAN_BITS);
            let mut i: usize = 0;
            while i < values.len()
                invariant
                    i <= values.len(),
                    max@ == float_max(values.deep_view(), i as int),
                decreases values.len() - i,
            {
                assert(values.deep_view()[i as int] == values@[i as int]@);
                max = max.max(&values[i]);
                i += 1;
            }
            if max.is_nan() {
                Ok(None)
            } else {
                Ok(Some(Value::Float(max)))
            }
        },
        Some(_) => Err(EvalError::WrongOperands),
    }
}

/// Computes an aggregate over events, in the order in which they are given.
///
/// The average is a float; sum, minimum and maximum have the type of the
/// attribute, which has to be an integer or a float; the count is an integer.
/// Over no events the sum and the count are zero, and there is no average,
/// minimum or maximum.
pub fn compute_aggregate(
    aggregator: &Aggregator,
    events: &Vec<Arc<Event>>,
    attributes: &Vec<AttributeDeclaration>,
) -> (result: Result<Option<Value>, EvalError>)
    ensures
        aggregate_agrees(result, aggregate_model(*aggregator, events.deep_view(), attributes@)),
{
    match aggregator {
        Aggregator::Avg(attribute) => compute_average(events, attributes, *attribute),
        Aggregator::Sum(attribute) => compute_sum(events, attributes, *attribute),
        Aggregator::Min(attribute) => compute_min(events, attributes, *attribute),
        Aggregator::Max(attribute) => compute_max(events, attributes, *attribute),
        Aggregator::Count => {
            if events.len() as u64 > 0x7fff_ffff_ffff_ffff {
                Err(EvalError::Overflow)
            } else {
                Ok(Some(Value::Int(events.len() as i64)))
            }
        },
    }
}

/// Over no events the sum and the count are zero, and there is no average,
/// no minimum and no maximum.
pub proof fn lemma_aggregate_of_nothing(
    aggregator: Aggregator,
    attributes: Seq<AttributeDeclaration>,
)
    ensures
        aggregate_model(Aggregator::Count, Seq::empty(), attributes) == Ok::<
            Option<ValueModel>,
            EvalError,
        >(Some(ValueModel::Int(0))),
        forall|a: usize|
            type_of(attributes, a) == Some(BasicType::Int) ==> #[trigger] aggregate_model(
                Aggregator::Sum(a),
                Seq::empty(),
                attributes,
            ) == Ok::<Option<ValueModel>, EvalError>(Some(ValueModel::Int(0))),
        forall|a: usize|
            type_of(attributes, a) == Some(BasicType::Float) ==> #[trigger] aggregate_model(
                Aggregator::Sum(a),
                Seq::empty(),
                attributes,
            ) == Ok::<Option<ValueModel>, EvalError>(Some(ValueModel::Float(0))),
        forall|a: usize|
            (type_of(attributes, a) == Some(BasicType::Int) || type_of(attributes, a) == Some(
                BasicType::Float,
            )) ==> {
                &&& #[trigger] aggregate_model(Aggregator::Avg(a), Seq::empty(), attributes) == Ok::<
                    Option<ValueModel>,
                    EvalError,
                >(None)
                &&& #[trigger] aggregate_model(Aggregator::Min(a), Seq::empty(), attributes) == Ok::<
                    Option<ValueModel>,
                    EvalError,
                >(None)
                &&& #[trigger] aggregate_model(Aggregator::Max(a), Seq::empty(), attributes) == Ok::<
                    Option<ValueModel>,
                    EvalError,
                >(None)
            },
{
    let none = Seq::<EventModel>::empty();
    assert forall|a: usize|
        integers_of(none, a, 0) == Ok::<Seq<i64>, EvalError>(Seq::empty()) && floats_of(
            none,
            a,
            0,
        ) == Ok::<Seq<u64>, EvalError>(Seq::empty()) by {}
    assert(integer_sum(Seq::<i64>::empty(), 0) == Some(0i64));
    assert(float_sum(Seq::<u64>::empty(), 0) == 0);
    assert(is_nan(NAN_BITS));
}

} // verus!

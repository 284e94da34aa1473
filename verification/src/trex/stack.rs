//! The trigger of a rule and the stacks of events of its event predicates.

use crate::tesla::expressions::{Expression, Value};
use crate::tesla::predicates::{
    Aggregator,
    EventSelection,
    Predicate,
    PredicateType,
    Timing,
    TimingBound,
};
use crate::tesla::{AttributeDeclaration, Event, EventModel, TupleDeclaration, TupleModel};
use crate::trex::aggregators::{aggregate_model, compute_aggregate};
use crate::trex::expressions::{
    all_hold,
    all_hold_local,
    evaluate_local,
    evaluate_model,
    lemma_local_evaluation,
    time_model,
    top_level,
    truth,
    Binding,
    BindingModel,
    CompleteContext,
    CurrentModel,
    PartialResult,
    SimpleContext,
};
use crate::trex::operations::EvalError;
use std::sync::Arc;
use vstd::prelude::*;

verus! {

/// The expressions among the first `n` that hold no parameter, in their order.
pub open spec fn locals_of(constraints: Seq<Expression>, n: int) -> Seq<Expression>
    decreases n,
{
    if n <= 0 {
        Seq::empty()
    } else if constraints[n - 1].local() {
        locals_of(constraints, n - 1).push(constraints[n - 1])
    } else {
        locals_of(constraints, n - 1)
    }
}

/// The expressions among the first `n` that hold a parameter, in their order.
pub open spec fn globals_of(constraints: Seq<Expression>, n: int) -> Seq<Expression>
    decreases n,
{
    if n <= 0 {
        Seq::empty()
    } else if constraints[n - 1].local() {
        globals_of(constraints, n - 1)
    } else {
        globals_of(constraints, n - 1).push(constraints[n - 1])
    }
}

/// Whether an event satisfies a predicate on its own: it is of the tuple
/// that the predicate asks for, and the expressions hold on it.
pub open spec fn accepts(ty_id: usize, expressions: Seq<Expression>, event: EventModel) -> Result<
    bool,
    EvalError,
> {
    if event.tuple.ty_id != ty_id {
        Ok(false)
    } else {
        all_hold_local(event.tuple, expressions, 0)
    }
}

/// The predicate that starts the evaluation of a rule.
#[derive(Debug)]
pub struct Trigger {
    ty_id: usize,
    constraints: Vec<Expression>,
}

impl Trigger {
    /// The id of the tuples that trigger the rule.
    pub closed spec fn ty_id(&self) -> usize {
        self.ty_id
    }

    /// The constraints that a triggering event satisfies.
    pub closed spec fn constraints(&self) -> Seq<Expression> {
        self.constraints@
    }

    /// The trigger of the given predicate.
    pub fn new(predicate: &Predicate) -> (trigger: Trigger)
        ensures
            trigger.ty_id() == predicate.tuple.ty_id,
            trigger.constraints() == predicate.tuple.constraints@,
    {
        Trigger {
            ty_id: predicate.tuple.ty_id,
            constraints: clone_expressions(&predicate.tuple.constraints),
        }
    }

    /// Whether the event triggers the rule: it is of the tuple of the
    /// trigger and all the constraints hold on it.
    pub fn is_satisfied(&self, event: &Arc<Event>) -> (satisfied: Result<bool, EvalError>)
        ensures
            satisfied == accepts(self.ty_id(), self.constraints(), event.deep_view()),
    {
        if event.tuple.ty_id != self.ty_id {
            Ok(false)
        } else {
            SimpleContext::new(&event.tuple).check_all(&self.constraints)
        }
    }
}

/// Copies a list of expressions.
pub fn clone_expressions(expressions: &Vec<Expression>) -> (copy: Vec<Expression>)
    ensures
        copy@ == expressions@,
{
    let mut copy: Vec<Expression> = Vec::new();
    let mut i: usize = 0;
    while i < expressions.len()
        invariant
            i <= expressions.len(),
            copy@ == expressions@.take(i as int),
        decreases expressions.len() - i,
    {
        copy.push(expressions[i].clone());
        assert(expressions@.take(i + 1) == expressions@.take(i as int).push(
            expressions@[i as int],
        ));
        i += 1;
    }
    assert(expressions@.take(expressions.len() as int) == expressions@);
    copy
}

/// What a stack does with the events that match.
#[derive(Clone, Copy, Debug, PartialEq, Eq, Structural)]
pub enum StackKind {
    /// It binds events, as the selection says.
    Select(EventSelection),
    /// It binds the aggregate of the events.
    Aggregate(Aggregator),
    /// It asks that there are none.
    Negation,
}

/// What a predicate makes a stack do; `None` for a predicate without a time window.
pub open spec fn kind_of(ty: PredicateType) -> Option<StackKind> {
    match ty {
        PredicateType::Event { selection, .. } => Some(StackKind::Select(selection)),
        PredicateType::EventAggregate { aggregator, .. } => Some(StackKind::Aggregate(aggregator)),
        PredicateType::EventNegation { .. } => Some(StackKind::Negation),
        _ => None,
    }
}

/// The stack of the predicate of index `idx` before it has taken in any
/// event: its constraints are split into those without parameters and
/// those with parameters. `None` for a predicate without a time window.
pub open spec fn stack_for(idx: usize, tuple: TupleDeclaration, predicate: Predicate) -> Option<
    StackModel,
> {
    match (kind_of(predicate.ty), predicate.ty.timing()) {
        (Some(kind), Some(timing)) => Some(
            StackModel {
                idx,
                ty_id: predicate.tuple.ty_id,
                attributes: tuple.attributes@,
                kind,
                local: locals_of(
                    predicate.tuple.constraints@,
                    predicate.tuple.constraints@.len() as int,
                ),
                global: globals_of(
                    predicate.tuple.constraints@,
                    predicate.tuple.constraints@.len() as int,
                ),
                timing,
                max_window: 0,
                buffer: Seq::empty(),
            },
        ),
        _ => None,
    }
}

/// The window of a predicate for a partial result: `lower` is the first
/// instant inside, `upper` the first one after it.
pub struct Window {
    pub lower: int,
    pub upper: int,
}

impl Window {
    /// Whether an instant lies in the window.
    pub open spec fn holds(self, time: i64) -> bool {
        self.lower <= time < self.upper
    }
}

/// The window that the time constraints give for a partial result.
///
/// A window that reaches back a fixed time from the event of its upper
/// bound holds the instants that are less than that time before the event:
/// an event whose age is the whole time is outside, and so is one at the
/// instant of the upper bound. A window between two events begins at the
/// instant of the earlier one and ends before that of the later one.
pub open spec fn window_model(bound: Seq<BindingModel>, timing: Timing) -> Result<
    Window,
    EvalError,
> {
    match time_model(bound, timing.upper as int) {
        Err(error) => Err(error),
        Ok(upper) => match timing.bound {
            TimingBound::Within { window } => Ok(
                Window { lower: upper - window + 1, upper: upper as int },
            ),
            TimingBound::Between { lower } => match time_model(bound, lower as int) {
                Err(error) => Err(error),
                Ok(lower) => Ok(Window { lower: lower as int, upper: upper as int }),
            },
        },
    }
}

/// What the events of a stack are held against.
pub struct Probe {
    pub predicates: Seq<Predicate>,
    pub bound: Seq<BindingModel>,
    pub global: Seq<Expression>,
    pub window: Window,
}

impl Probe {
    /// Whether an event matches: it lies in the window and the expressions
    /// with parameters hold for it.
    pub open spec fn matches(self, event: EventModel) -> Result<bool, EvalError> {
        if !self.window.holds(event.time) {
            Ok(false)
        } else {
            all_hold(self.predicates, self.bound, CurrentModel::Tuple(event.tuple), self.global, 0)
        }
    }

    /// The matching events among the first `n`, in their order; the first
    /// event whose evaluation fails gives the error.
    pub open spec fn matching(self, buffer: Seq<(u64, EventModel)>, n: int) -> Result<
        Seq<(u64, EventModel)>,
        EvalError,
    >
        decreases n,
    {
        if n <= 0 {
            Ok(Seq::empty())
        } else {
            match self.matching(buffer, n - 1) {
                Err(error) => Err(error),
                Ok(found) => match self.matches(buffer[n - 1].1) {
                    Err(error) => Err(error),
                    Ok(true) => Ok(found.push(buffer[n - 1])),
                    Ok(false) => Ok(found),
                },
            }
        }
    }

    /// The first matching event from index `from` on; an evaluation that
    /// fails before one is found gives the error.
    pub open spec fn first_match(self, buffer: Seq<(u64, EventModel)>, from: int) -> Result<
        Option<(u64, EventModel)>,
        EvalError,
    >
        decreases buffer.len() - from,
    {
        if from < 0 || from >= buffer.len() {
            Ok(None)
        } else {
            match self.matches(buffer[from].1) {
                Err(error) => Err(error),
                Ok(true) => Ok(Some(buffer[from])),
                Ok(false) => self.first_match(buffer, from + 1),
            }
        }
    }

    /// The last matching event among the first `n`; an evaluation that fails
    /// after it gives the error.
    pub open spec fn last_match(self, buffer: Seq<(u64, EventModel)>, n: int) -> Result<
        Option<(u64, EventModel)>,
        EvalError,
    >
        decreases n,
    {
        if n <= 0 || n > buffer.len() {
            Ok(None)
        } else {
            match self.matches(buffer[n - 1].1) {
                Err(error) => Err(error),
                Ok(true) => Ok(Some(buffer[n - 1])),
                Ok(false) => self.last_match(buffer, n - 1),
            }
        }
    }

    /// The partial result with the given event bound.
    pub open spec fn with_event(self, entry: (u64, EventModel)) -> Seq<BindingModel> {
        self.bound.push(BindingModel::Event { id: entry.0, event: entry.1 })
    }

    /// One partial result for each of the events.
    pub open spec fn with_each(self, entries: Seq<(u64, EventModel)>) -> Seq<Seq<BindingModel>> {
        Seq::new(entries.len(), |i: int| self.with_event(entries[i]))
    }

    /// What a stack gives for a partial result.
    ///
    /// `Each` gives one result for every matching event, `First` one for the
    /// earliest and `Last` one for the latest, none where no event matches.
    /// An aggregate gives one result with its value, none where it has no
    /// value. A negation gives one result exactly when no event matches.
    pub open spec fn results(
        self,
        kind: StackKind,
        buffer: Seq<(u64, EventModel)>,
        attributes: Seq<AttributeDeclaration>,
    ) -> Result<Seq<Seq<BindingModel>>, EvalError> {
        match kind {
            StackKind::Select(EventSelection::Each) => match self.matching(
                buffer,
                buffer.len() as int,
            ) {
                Err(error) => Err(error),
                Ok(found) => Ok(self.with_each(found)),
            },
            StackKind::Select(EventSelection::First) => match self.first_match(buffer, 0) {
                Err(error) => Err(error),
                Ok(Some(entry)) => Ok(seq![self.with_event(entry)]),
                Ok(None) => Ok(Seq::empty()),
            },
            StackKind::Select(EventSelection::Last) => match self.last_match(
                buffer,
                buffer.len() as int,
            ) {
                Err(error) => Err(error),
                Ok(Some(entry)) => Ok(seq![self.with_event(entry)]),
                Ok(None) => Ok(Seq::empty()),
            },
            StackKind::Aggregate(aggregator) => match self.matching(buffer, buffer.len() as int) {
                Err(error) => Err(error),
                Ok(found) => match aggregate_model(
                    aggregator,
                    Seq::new(found.len(), |i: int| found[i].1),
                    attributes,
                ) {
                    Err(error) => Err(error),
                    Ok(Some(value)) => Ok(seq![self.bound.push(BindingModel::Aggregate(value))]),
                    Ok(None) => Ok(Seq::empty()),
                },
            },
            StackKind::Negation => match self.first_match(buffer, 0) {
                Err(error) => Err(error),
                Ok(Some(_)) => Ok(Seq::empty()),
                Ok(None) => Ok(seq![self.bound.push(BindingModel::Nothing)]),
            },
        }
    }
}

/// The events among the first `n` that are not older than `threshold`.
pub open spec fn not_older(buffer: Seq<(u64, EventModel)>, threshold: i64, n: int) -> Seq<
    (u64, EventModel),
>
    decreases n,
{
    if n <= 0 {
        Seq::empty()
    } else if buffer[n - 1].1.time >= threshold {
        not_older(buffer, threshold, n - 1).push(buffer[n - 1])
    } else {
        not_older(buffer, threshold, n - 1)
    }
}

/// The events among the first `n` that were not taken in under the number `id`.
pub open spec fn without(buffer: Seq<(u64, EventModel)>, id: u64, n: int) -> Seq<
    (u64, EventModel),
>
    decreases n,
{
    if n <= 0 {
        Seq::empty()
    } else if buffer[n - 1].0 != id {
        without(buffer, id, n - 1).push(buffer[n - 1])
    } else {
        without(buffer, id, n - 1)
    }
}

/// The state of a stack.
pub struct StackModel {
    /// The index of the predicate in its rule.
    pub idx: usize,
    /// The id of the tuples that the predicate asks for.
    pub ty_id: usize,
    /// The attributes of those tuples.
    pub attributes: Seq<AttributeDeclaration>,
    /// What the stack does with the events that match.
    pub kind: StackKind,
    /// The constraints without parameters.
    pub local: Seq<Expression>,
    /// The constraints with parameters.
    pub global: Seq<Expression>,
    /// The time constraints of the predicate.
    pub timing: Timing,
    /// The longest time that the window reaches back.
    pub max_window: i64,
    /// The events of the stack, each with the number under which it was taken in.
    pub buffer: Seq<(u64, EventModel)>,
}

impl StackModel {
    /// What the stack gives for a partial result.
    pub open spec fn results(self, predicates: Seq<Predicate>, bound: Seq<BindingModel>) -> Result<
        Seq<Seq<BindingModel>>,
        EvalError,
    > {
        match window_model(bound, self.timing) {
            Err(error) => Err(error),
            Ok(window) => (Probe { predicates, bound, global: self.global, window }).results(
                self.kind,
                self.buffer,
                self.attributes,
            ),
        }
    }
}

/// The events that one event predicate of a rule may still match, in the
/// order in which they came.
#[derive(Debug)]
pub struct Stack {
    idx: usize,
    ty_id: usize,
    attributes: Vec<AttributeDeclaration>,
    kind: StackKind,
    local_exprs: Vec<Expression>,
    global_exprs: Vec<Expression>,
    timing: Timing,
    max_window: i64,
    events: Vec<(u64, Arc<Event>)>,
}

impl Stack {
    /// The index of the predicate in its rule.
    pub closed spec fn idx(&self) -> usize {
        self.idx
    }

    /// The id of the tuples that the predicate asks for.
    pub closed spec fn ty_id(&self) -> usize {
        self.ty_id
    }

    /// The attributes of those tuples.
    pub closed spec fn attributes(&self) -> Seq<AttributeDeclaration> {
        self.attributes@
    }

    /// What the stack does with the events that match.
    pub closed spec fn kind(&self) -> StackKind {
        self.kind
    }

    /// The constraints without parameters: an event is held against them when it comes.
    pub closed spec fn local(&self) -> Seq<Expression> {
        self.local_exprs@
    }

    /// The constraints with parameters: an event is held against them for each partial result.
    pub closed spec fn global(&self) -> Seq<Expression> {
        self.global_exprs@
    }

    /// The time constraints of the predicate.
    pub closed spec fn timing(&self) -> Timing {
        self.timing
    }

    /// The longest time, in nanoseconds, that the window reaches back.
    pub closed spec fn max_window(&self) -> i64 {
        self.max_window
    }

    /// The events of the stack, each with the number under which it was taken in.
    pub closed spec fn buffer(&self) -> Seq<(u64, EventModel)> {
        self.events.deep_view()
    }

    /// The state of the stack.
    pub open spec fn model(&self) -> StackModel {
        StackModel {
            idx: self.idx(),
            ty_id: self.ty_id(),
            attributes: self.attributes(),
            kind: self.kind(),
            local: self.local(),
            global: self.global(),
            timing: self.timing(),
            max_window: self.max_window(),
            buffer: self.buffer(),
        }
    }

    /// What the events are held against for a partial result with the given window.
    pub open spec fn probe(
        &self,
        predicates: Seq<Predicate>,
        bound: Seq<BindingModel>,
        window: Window,
    ) -> Probe {
        Probe { predicates, bound, global: self.global(), window }
    }

    /// What the stack gives for a partial result.
    pub open spec fn evaluate_model(
        &self,
        predicates: Seq<Predicate>,
        bound: Seq<BindingModel>,
    ) -> Result<Seq<Seq<BindingModel>>, EvalError> {
        match window_model(bound, self.timing()) {
            Err(error) => Err(error),
            Ok(window) => self.probe(predicates, bound, window).results(
                self.kind(),
                self.buffer(),
                self.attributes(),
            ),
        }
    }

    /// The stack of an event predicate, without events; `None` for a
    /// predicate of another kind.
    pub fn new(idx: usize, tuple: &TupleDeclaration, predicate: &Predicate) -> (stack: Option<
        Stack,
    >)
        ensures
            match stack {
                Some(made) => stack_for(idx, *tuple, *predicate) == Some(made.model()),
                None => stack_for(idx, *tuple, *predicate).is_none(),
            },
    {
        let (kind, timing) = match &predicate.ty {
            PredicateType::Event { selection, timing, .. } => (
                StackKind::Select(*selection),
                *timing,
            ),
            PredicateType::EventAggregate { aggregator, timing, .. } => (
                StackKind::Aggregate(*aggregator),
                *timing,
            ),
            PredicateType::EventNegation { timing } => (StackKind::Negation, *timing),
            _ => {
                return None;
            },
        };
        let constraints = &predicate.tuple.constraints;
        let mut local_exprs: Vec<Expression> = Vec::new();
        let mut global_exprs: Vec<Expression> = Vec::new();
        let mut i: usize = 0;
        while i < constraints.len()
            invariant
                i <= constraints.len(),
                local_exprs@ == locals_of(constraints@, i as int),
                global_exprs@ == globals_of(constraints@, i as int),
            decreases constraints.len() - i,
        {
            if constraints[i].is_local() {
                local_exprs.push(constraints[i].clone());
            } else {
                global_exprs.push(constraints[i].clone());
            }
            i += 1;
        }
        let mut attributes: Vec<AttributeDeclaration> = Vec::new();
        let mut j: usize = 0;
        while j < tuple.attributes.len()
            invariant
                j <= tuple.attributes.len(),
                attributes@ == tuple.attributes@.take(j as int),
            decreases tuple.attributes.len() - j,
        {
            attributes.push(tuple.attributes[j].clone());
            assert(tuple.attributes@.take(j + 1) == tuple.attributes@.take(j as int).push(
                tuple.attributes@[j as int],
            ));
            j += 1;
        }
        assert(tuple.attributes@.take(tuple.attributes.len() as int) == tuple.attributes@);
        let events: Vec<(u64, Arc<Event>)> = Vec::new();
        assert(events.deep_view() =~= Seq::<(u64, EventModel)>::empty());
        Some(
            Stack {
                idx,
                ty_id: predicate.tuple.ty_id,
                attributes,
                kind,
                local_exprs,
                global_exprs,
                timing,
                max_window: 0,
                events,
            },
        )
    }

    /// The index of the predicate in its rule.
    pub fn get_idx(&self) -> (idx: usize)
        ensures
            idx == self.idx(),
    {
        self.idx
    }

    /// The time constraints of the predicate.
    pub fn get_timing(&self) -> (timing: Timing)
        ensures
            timing == self.timing(),
    {
        self.timing
    }

    /// The longest time, in nanoseconds, that the window reaches back.
    pub fn get_max_window(&self) -> (window: i64)
        ensures
            window == self.max_window(),
    {
        self.max_window
    }

    /// Sets the longest time that the window reaches back.
    pub fn set_max_window(&mut self, window: i64)
        ensures
            final(self).max_window() == window,
            final(self).idx() == old(self).idx(),
            final(self).ty_id() == old(self).ty_id(),
            final(self).attributes() == old(self).attributes(),
            final(self).kind() == old(self).kind(),
            final(self).local() == old(self).local(),
            final(self).global() == old(self).global(),
            final(self).timing() == old(self).timing(),
            final(self).buffer() == old(self).buffer(),
    {
        self.max_window = window;
    }

    /// The number of events in the stack.
    pub fn len(&self) -> (len: usize)
        ensures
            len == self.buffer().len(),
    {
        self.events.len()
    }

    /// Whether the event is of the tuple of the predicate and satisfies the
    /// constraints without parameters.
    pub fn is_locally_satisfied(&self, event: &Arc<Event>) -> (satisfied: Result<bool, EvalError>)
        ensures
            satisfied == accepts(self.ty_id(), self.local(), event.deep_view()),
    {
        if event.tuple.ty_id != self.ty_id {
            Ok(false)
        } else {
            SimpleContext::new(&event.tuple).check_all(&self.local_exprs)
        }
    }

    /// Whether the event that the context looks at satisfies the constraints
    /// with parameters.
    pub fn is_globally_satisfied(&self, context: &CompleteContext) -> (satisfied: Result<
        bool,
        EvalError,
    >)
        ensures
            satisfied == all_hold(
                context.predicates(),
                context.bound(),
                context.current(),
                self.global(),
                0,
            ),
    {
        context.check_all(&self.global_exprs)
    }

    /// Takes the event in, under the number `id`, if it satisfies the
    /// predicate on its own. An evaluation that fails leaves the stack as it is.
    pub fn process(&mut self, id: u64, event: &Arc<Event>) -> (taken: Result<bool, EvalError>)
        ensures
            taken == accepts(old(self).ty_id(), old(self).local(), event.deep_view()),
            final(self).buffer() == if taken == Ok::<bool, EvalError>(true) {
                old(self).buffer().push((id, event.deep_view()))
            } else {
                old(self).buffer()
            },
            final(self).idx() == old(self).idx(),
            final(self).ty_id() == old(self).ty_id(),
            final(self).attributes() == old(self).attributes(),
            final(self).kind() == old(self).kind(),
            final(self).local() == old(self).local(),
            final(self).global() == old(self).global(),
            final(self).timing() == old(self).timing(),
            final(self).max_window() == old(self).max_window(),
    {
        let taken = self.is_locally_satisfied(event)?;
        if taken {
            let ghost before = self.events.deep_view();
            self.events.push((id, event.clone()));
            assert(self.events.deep_view() =~= before.push((id, event.deep_view())));
        }
        Ok(taken)
    }

    /// Removes the events that are older than `threshold` and gives the time
    /// of the first event that is left.
    pub fn remove_old_events(&mut self, threshold: i64) -> (oldest: Option<i64>)
        ensures
            final(self).buffer() == not_older(
                old(self).buffer(),
                threshold,
                old(self).buffer().len() as int,
            ),
            oldest == if final(self).buffer().len() == 0 {
                None
            } else {
                Some(final(self).buffer()[0].1.time)
            },
            final(self).idx() == old(self).idx(),
            final(self).ty_id() == old(self).ty_id(),
            final(self).attributes() == old(self).attributes(),
            final(self).kind() == old(self).kind(),
            final(self).local() == old(self).local(),
            final(self).global() == old(self).global(),
            final(self).timing() == old(self).timing(),
            final(self).max_window() == old(self).max_window(),
    {
        let mut kept: Vec<(u64, Arc<Event>)> = Vec::new();
        let mut i: usize = 0;
        assert(kept.deep_view() =~= Seq::<(u64, EventModel)>::empty());
        while i < self.events.len()
            invariant
                i <= self.events.len(),
                kept.deep_view() == not_older(self.events.deep_view(), threshold, i as int),
            decreases self.events.len() - i,
        {
            assert(self.events.deep_view()[i as int] == self.events@[i as int].deep_view());
            if self.events[i].1.time >= threshold {
                let ghost before = kept.deep_view();
                let entry = (self.events[i].0, self.events[i].1.clone());
                kept.push(entry);
                assert(kept.deep_view() =~= before.push(self.events.deep_view()[i as int]));
            }
            i += 1;
        }
        self.events = kept;
        if self.events.len() == 0 {
            None
        } else {
            assert(self.events.deep_view()[0] == self.events@[0].deep_view());
            Some(self.events[0].1.time)
        }
    }

    /// Removes the event that was taken in under the number `id`.
    pub fn consume(&mut self, id: u64)
        ensures
            final(self).buffer() == without(
                old(self).buffer(),
                id,
                old(self).buffer().len() as int,
            ),
            final(self).idx() == old(self).idx(),
            final(self).ty_id() == old(self).ty_id(),
            final(self).attributes() == old(self).attributes(),
            final(self).kind() == old(self).kind(),
            final(self).local() == old(self).local(),
            final(self).global() == old(self).global(),
            final(self).timing() == old(self).timing(),
            final(self).max_window() == old(self).max_window(),
    {
        let mut kept: Vec<(u64, Arc<Event>)> = Vec::new();
        let mut i: usize = 0;
        assert(kept.deep_view() =~= Seq::<(u64, EventModel)>::empty());
        while i < self.events.len()
            invariant
                i <= self.events.len(),
                kept.deep_view() == without(self.events.deep_view(), id, i as int),
            decreases self.events.len() - i,
        {
            assert(self.events.deep_view()[i as int] == self.events@[i as int].deep_view());
            if self.events[i].0 != id {
                let ghost before = kept.deep_view();
                let entry = (self.events[i].0, self.events[i].1.clone());
                kept.push(entry);
                assert(kept.deep_view() =~= before.push(self.events.deep_view()[i as int]));
            }
            i += 1;
        }
        self.events = kept;
    }

    fn matches(&self, context: &CompleteContext, lower: i128, upper: i64, event: &Arc<Event>) -> (
    matched: Result<bool, EvalError>)
        ensures
            matched == self.probe(
                context.predicates(),
                context.bound(),
                Window { lower: lower as int, upper: upper as int },
            ).matches(event.deep_view()),
    {
        if (event.time as i128) < lower || event.time >= upper {
            Ok(false)
        } else {
            self.is_globally_satisfied(&context.set_tuple(&event.tuple))
        }
    }

    fn select_matching(&self, context: &CompleteContext, lower: i128, upper: i64) -> (found:
        Result<Vec<(u64, Arc<Event>)>, EvalError>)
        ensures
            match found {
                Ok(entries) => self.probe(
                    context.predicates(),
                    context.bound(),
                    Window { lower: lower as int, upper: upper as int },
                ).matching(self.buffer(), self.buffer().len() as int) == Ok::<
                    Seq<(u64, EventModel)>,
                    EvalError,
                >(entries.deep_view()),
                Err(error) => self.probe(
                    context.predicates(),
                    context.bound(),
                    Window { lower: lower as int, upper: upper as int },
                ).matching(self.buffer(), self.buffer().len() as int) == Err::<
                    Seq<(u64, EventModel)>,
                    EvalError,
                >(error),
            },
    {
        let ghost probe = self.probe(
            context.predicates(),
            context.bound(),
            Window { lower: lower as int, upper: upper as int },
        );
        let mut entries: Vec<(u64, Arc<Event>)> = Vec::new();
        let mut i: usize = 0;
        assert(entries.deep_view() =~= Seq::<(u64, EventModel)>::empty());
        while i < self.events.len()
            invariant
                i <= self.events.len(),
                probe == self.probe(
                    context.predicates(),
                    context.bound(),
                    Window { lower: lower as int, upper: upper as int },
                ),
                probe.matching(self.buffer(), i as int) == Ok::<Seq<(u64, EventModel)>, EvalError>(
                    entries.deep_view(),
                ),
            decreases self.events.len() - i,
        {
            assert(self.events.deep_view()[i as int] == self.events@[i as int].deep_view());
            match self.matches(context, lower, upper, &self.events[i].1) {
                Err(error) => {
                    proof {
                        lemma_matching_error(probe, self.buffer(), i as int + 1, self.buffer().len() as int);
                    }
                    return Err(error);
                },
                Ok(true) => {
                    let ghost before = entries.deep_view();
                    let entry = (self.events[i].0, self.events[i].1.clone());
                    entries.push(entry);
                    assert(entries.deep_view() =~= before.push(self.events.deep_view()[i as int]));
                },
                Ok(false) => {},
            }
            i += 1;
        }
        Ok(entries)
    }

    fn find_first(&self, context: &CompleteContext, lower: i128, upper: i64) -> (found: Result<
        Option<usize>,
        EvalError,
    >)
        ensures
            match found {
                Ok(Some(at)) => at < self.buffer().len() && self.probe(
                    context.predicates(),
                    context.bound(),
                    Window { lower: lower as int, upper: upper as int },
                ).first_match(self.buffer(), 0) == Ok::<Option<(u64, EventModel)>, EvalError>(
                    Some(self.buffer()[at as int]),
                ),
                Ok(None) => self.probe(
                    context.predicates(),
                    context.bound(),
                    Window { lower: lower as int, upper: upper as int },
                ).first_match(self.buffer(), 0) == Ok::<Option<(u64, EventModel)>, EvalError>(None),
                Err(error) => self.probe(
                    context.predicates(),
                    context.bound(),
                    Window { lower: lower as int, upper: upper as int },
                ).first_match(self.buffer(), 0) == Err::<Option<(u64, EventModel)>, EvalError>(
                    error,
                ),
            },
    {
        let ghost probe = self.probe(
            context.predicates(),
            context.bound(),
            Window { lower: lower as int, upper: upper as int },
        );
        let mut i: usize = 0;
        while i < self.events.len()
            invariant
                i <= self.events.len(),
                probe == self.probe(
                    context.predicates(),
                    context.bound(),
                    Window { lower: lower as int, upper: upper as int },
                ),
                probe.first_match(self.buffer(), 0) == probe.first_match(self.buffer(), i as int),
            decreases self.events.len() - i,
        {
            assert(self.events.deep_view()[i as int] == self.events@[i as int].deep_view());
            match self.matches(context, lower, upper, &self.events[i].1) {
                Err(error) => {
                    return Err(error);
                },
                Ok(true) => {
                    return Ok(Some(i));
                },
                Ok(false) => {},
            }
            i += 1;
        }
        Ok(None)
    }

    fn find_last(&self, context: &CompleteContext, lower: i128, upper: i64) -> (found: Result<
        Option<usize>,
        EvalError,
    >)
        ensures
            match found {
                Ok(Some(at)) => at < self.buffer().len() && self.probe(
                    context.predicates(),
                    context.bound(),
                    Window { lower: lower as int, upper: upper as int },
                ).last_match(self.buffer(), self.buffer().len() as int) == Ok::<
                    Option<(u64, EventModel)>,
                    EvalError,
                >(Some(self.buffer()[at as int])),
                Ok(None) => self.probe(
                    context.predicates(),
                    context.bound(),
                    Window { lower: lower as int, upper: upper as int },
                ).last_match(self.buffer(), self.buffer().len() as int) == Ok::<
                    Option<(u64, EventModel)>,
                    EvalError,
                >(None),
                Err(error) => self.probe(
                    context.predicates(),
                    context.bound(),
                    Window { lower: lower as int, upper: upper as int },
                ).last_match(self.buffer(), self.buffer().len() as int) == Err::<
                    Option<(u64, EventModel)>,
                    EvalError,
                >(error),
            },
    {
        let ghost probe = self.probe(
            context.predicates(),
            context.bound(),
            Window { lower: lower as int, upper: upper as int },
        );
        let mut i: usize = self.events.len();
        while i > 0
            invariant
                i <= self.events.len(),
                probe == self.probe(
                    context.predicates(),
                    context.bound(),
                    Window { lower: lower as int, upper: upper as int },
                ),
                probe.last_match(self.buffer(), self.buffer().len() as int) == probe.last_match(
                    self.buffer(),
                    i as int,
                ),
            decreases i,
        {
            i -= 1;
            assert(self.events.deep_view()[i as int] == self.events@[i as int].deep_view());
            match self.matches(context, lower, upper, &self.events[i].1) {
                Err(error) => {
                    return Err(error);
                },
                Ok(true) => {
                    return Ok(Some(i));
                },
                Ok(false) => {},
            }
        }
        Ok(None)
    }

    fn bind(&self, result: &PartialResult, at: usize) -> (extended: PartialResult)
        requires
            at < self.buffer().len(),
        ensures
            extended.deep_view() == result.deep_view().push(
                BindingModel::Event { id: self.buffer()[at as int].0, event: self.buffer()[at as int].1 },
            ),
    {
        assert(self.events.deep_view()[at as int] == self.events@[at as int].deep_view());
        result.extended(Binding::Event { id: self.events[at].0, event: self.events[at].1.clone() })
    }

    /// The partial results that the predicate makes of the one of the context.
    ///
    /// The events are held against the window that the time constraints give
    /// for the partial result, and against the constraints with parameters.
    pub fn evaluate(&self, context: &CompleteContext) -> (results: Result<
        Vec<PartialResult>,
        EvalError,
    >)
        ensures
            match results {
                Ok(list) => self.evaluate_model(context.predicates(), context.bound()) == Ok::<
                    Seq<Seq<BindingModel>>,
                    EvalError,
                >(list.deep_view()),
                Err(error) => self.evaluate_model(context.predicates(), context.bound()) == Err::<
                    Seq<Seq<BindingModel>>,
                    EvalError,
                >(error),
            },
    {
        let result = context.get_result();
        let upper = result.get_time(self.timing.upper)?;
        let lower: i128 = match self.timing.bound {
            TimingBound::Within { window } => upper as i128 - window as i128 + 1,
            TimingBound::Between { lower } => result.get_time(lower)? as i128,
        };
        let ghost probe = self.probe(
            context.predicates(),
            context.bound(),
            Window { lower: lower as int, upper: upper as int },
        );
        let mut list: Vec<PartialResult> = Vec::new();
        assert(list.deep_view() =~= Seq::<Seq<BindingModel>>::empty());
        match self.kind {
            StackKind::Select(EventSelection::Each) => {
                let found = self.select_matching(context, lower, upper)?;
                let mut i: usize = 0;
                while i < found.len()
                    invariant
                        i <= found.len(),
                        result.deep_view() == probe.bound,
                        list.deep_view() == probe.with_each(found.deep_view()).take(i as int),
                    decreases found.len() - i,
                {
                    assert(found.deep_view()[i as int] == found@[i as int].deep_view());
                    let ghost before = list.deep_view();
                    let extended = result.extended(
                        Binding::Event { id: found[i].0, event: found[i].1.clone() },
                    );
                    list.push(extended);
                    assert(list.deep_view() =~= before.push(
                        probe.with_event(found.deep_view()[i as int]),
                    ));
                    assert(list.deep_view() =~= probe.with_each(found.deep_view()).take(i + 1));
                    i += 1;
                }
                assert(probe.with_each(found.deep_view()).take(found.len() as int)
                    =~= probe.with_each(found.deep_view()));
            },
            StackKind::Select(EventSelection::First) => {
                if let Some(at) = self.find_first(context, lower, upper)? {
                    let extended = self.bind(result, at);
                    list.push(extended);
                    assert(list.deep_view() =~= seq![probe.with_event(self.buffer()[at as int])]);
                }
            },
            StackKind::Select(EventSelection::Last) => {
                if let Some(at) = self.find_last(context, lower, upper)? {
                    let extended = self.bind(result, at);
                    list.push(extended);
                    assert(list.deep_view() =~= seq![probe.with_event(self.buffer()[at as int])]);
                }
            },
            StackKind::Aggregate(aggregator) => {
                let found = self.select_matching(context, lower, upper)?;
                let mut events: Vec<Arc<Event>> = Vec::new();
                let mut i: usize = 0;
                let ghost chosen = Seq::new(
                    found.deep_view().len(),
                    |k: int| found.deep_view()[k].1,
                );
                assert(events.deep_view() =~= chosen.take(0));
                while i < found.len()
                    invariant
                        i <= found.len(),
                        chosen == Seq::new(found.deep_view().len(), |k: int| found.deep_view()[k].1),
                        events.deep_view() == chosen.take(i as int),
                    decreases found.len() - i,
                {
                    assert(found.deep_view()[i as int] == found@[i as int].deep_view());
                    let ghost before = events.deep_view();
                    events.push(found[i].1.clone());
                    assert(events.deep_view() =~= before.push(chosen[i as int]));
                    assert(events.deep_view() =~= chosen.take(i + 1));
                    i += 1;
                }
                assert(chosen.take(found.len() as int) =~= chosen);
                if let Some(value) = compute_aggregate(&aggregator, &events, &self.attributes)? {
                    let extended = result.extended(Binding::Aggregate(value));
                    list.push(extended);
                    assert(list.deep_view() =~= seq![
                        probe.bound.push(BindingModel::Aggregate(value.deep_view())),
                    ]);
                }
            },
            StackKind::Negation => {
                if self.find_first(context, lower, upper)?.is_none() {
                    let extended = result.extended(Binding::Nothing);
                    list.push(extended);
                    assert(list.deep_view() =~= seq![probe.bound.push(BindingModel::Nothing)]);
                }
            },
        }
        Ok(list)
    }
}

/// An error among the first events is the error of the whole scan.
pub proof fn lemma_matching_error(probe: Probe, buffer: Seq<(u64, EventModel)>, n: int, m: int)
    requires
        0 <= n <= m,
        probe.matching(buffer, n) is Err,
    ensures
        probe.matching(buffer, m) == probe.matching(buffer, n),
    decreases m - n,
{
    if n < m {
        lemma_matching_error(probe, buffer, n, m - 1);
    }
}

/// The expressions all hold exactly when each of them evaluates to true.
pub proof fn lemma_all_hold(
    predicates: Seq<Predicate>,
    bound: Seq<BindingModel>,
    current: CurrentModel,
    expressions: Seq<Expression>,
    from: int,
)
    requires
        0 <= from,
    ensures
        all_hold(predicates, bound, current, expressions, from) == Ok::<bool, EvalError>(true)
            <==> forall|i: int|
            from <= i < expressions.len() ==> truth(
                #[trigger] evaluate_model(
                    predicates,
                    bound,
                    current,
                    top_level(bound),
                    expressions[i],
                ),
            ) == Ok::<bool, EvalError>(true),
    decreases expressions.len() - from,
{
    if from < expressions.len() {
        lemma_all_hold(predicates, bound, current, expressions, from + 1);
    }
}

/// The expressions all hold on a tuple exactly when each of them evaluates to true.
pub proof fn lemma_all_hold_local(tuple: TupleModel, expressions: Seq<Expression>, from: int)
    requires
        0 <= from,
    ensures
        all_hold_local(tuple, expressions, from) == Ok::<bool, EvalError>(true) <==> forall|i: int|
            from <= i < expressions.len() ==> truth(
                #[trigger] evaluate_local(tuple, expressions[i]),
            ) == Ok::<bool, EvalError>(true),
    decreases expressions.len() - from,
{
    if from < expressions.len() {
        lemma_all_hold_local(tuple, expressions, from + 1);
    }
}

/// The expressions without parameters and those with parameters are, taken
/// together, the expressions: each list holds expressions of its kind only,
/// and every expression is in the list of its kind.
pub proof fn lemma_split(constraints: Seq<Expression>, n: int)
    requires
        0 <= n <= constraints.len(),
    ensures
        forall|k: int|
            0 <= k < locals_of(constraints, n).len() ==> (#[trigger] locals_of(
                constraints,
                n,
            )[k]).local() && exists|i: int|
                0 <= i < n && constraints[i] == locals_of(constraints, n)[k],
        forall|k: int|
            0 <= k < globals_of(constraints, n).len() ==> !(#[trigger] globals_of(
                constraints,
                n,
            )[k]).local() && exists|i: int|
                0 <= i < n && constraints[i] == globals_of(constraints, n)[k],
        forall|i: int|
            0 <= i < n && (#[trigger] constraints[i]).local() ==> exists|k: int|
                0 <= k < locals_of(constraints, n).len() && locals_of(constraints, n)[k]
                    == constraints[i],
        forall|i: int|
            0 <= i < n && !(#[trigger] constraints[i]).local() ==> exists|k: int|
                0 <= k < globals_of(constraints, n).len() && globals_of(constraints, n)[k]
                    == constraints[i],
    decreases n,
{
    if n > 0 {
        lemma_split(constraints, n - 1);
        let locals = locals_of(constraints, n);
        let globals = globals_of(constraints, n);
        let locals0 = locals_of(constraints, n - 1);
        let globals0 = globals_of(constraints, n - 1);
        assert forall|k: int| 0 <= k < locals.len() implies (#[trigger] locals[k]).local()
            && exists|i: int| 0 <= i < n && constraints[i] == locals[k] by {
            if k < locals0.len() {
                assert(locals[k] == locals0[k]);
                let i = choose|i: int| 0 <= i < n - 1 && constraints[i] == locals0[k];
                assert(constraints[i] == locals[k]);
            } else {
                assert(constraints[n - 1] == locals[k]);
            }
        }
        assert forall|k: int| 0 <= k < globals.len() implies !(#[trigger] globals[k]).local()
            && exists|i: int| 0 <= i < n && constraints[i] == globals[k] by {
            if k < globals0.len() {
                assert(globals[k] == globals0[k]);
                let i = choose|i: int| 0 <= i < n - 1 && constraints[i] == globals0[k];
                assert(constraints[i] == globals[k]);
            } else {
                assert(constraints[n - 1] == globals[k]);
            }
        }
        assert forall|i: int| 0 <= i < n && (#[trigger] constraints[i]).local() implies exists|
            k: int,
        | 0 <= k < locals.len() && locals[k] == constraints[i] by {
            if i < n - 1 {
                let k = choose|k: int| 0 <= k < locals0.len() && locals0[k] == constraints[i];
                assert(locals[k] == constraints[i]);
            } else {
                assert(locals[locals.len() - 1] == constraints[i]);
            }
        }
        assert forall|i: int| 0 <= i < n && !(#[trigger] constraints[i]).local() implies exists|
            k: int,
        | 0 <= k < globals.len() && globals[k] == constraints[i] by {
            if i < n - 1 {
                let k = choose|k: int| 0 <= k < globals0.len() && globals0[k] == constraints[i];
                assert(globals[k] == constraints[i]);
            } else {
                assert(globals[globals.len() - 1] == constraints[i]);
            }
        }
    }
}

/// Splitting the constraints changes nothing: all the constraints of a
/// predicate hold for a candidate event exactly when those without
/// parameters hold on the event alone, as they are checked when the event
/// comes, and those with parameters hold for the partial result, as they are
/// checked when the rule is evaluated.
pub proof fn lemma_locality_split(
    constraints: Seq<Expression>,
    predicates: Seq<Predicate>,
    bound: Seq<BindingModel>,
    tuple: TupleModel,
)
    ensures
        all_hold(predicates, bound, CurrentModel::Tuple(tuple), constraints, 0) == Ok::<
            bool,
            EvalError,
        >(true) <==> all_hold_local(
            tuple,
            locals_of(constraints, constraints.len() as int),
            0,
        ) == Ok::<bool, EvalError>(true) && all_hold(
            predicates,
            bound,
            CurrentModel::Tuple(tuple),
            globals_of(constraints, constraints.len() as int),
            0,
        ) == Ok::<bool, EvalError>(true),
{
    let current = CurrentModel::Tuple(tuple);
    let locals = locals_of(constraints, constraints.len() as int);
    let globals = globals_of(constraints, constraints.len() as int);
    let level = top_level(bound);
    lemma_all_hold(predicates, bound, current, constraints, 0);
    lemma_all_hold(predicates, bound, current, globals, 0);
    lemma_all_hold_local(tuple, locals, 0);
    lemma_split(constraints, constraints.len() as int);
    let whole = all_hold(predicates, bound, current, constraints, 0) == Ok::<bool, EvalError>(
        true,
    );
    let early = all_hold_local(tuple, locals, 0) == Ok::<bool, EvalError>(true);
    let late = all_hold(predicates, bound, current, globals, 0) == Ok::<bool, EvalError>(true);
    if whole {
        assert forall|k: int| 0 <= k < locals.len() implies truth(
            #[trigger] evaluate_local(tuple, locals[k]),
        ) == Ok::<bool, EvalError>(true) by {
            let i = choose|i: int| 0 <= i < constraints.len() && constraints[i] == locals[k];
            lemma_local_evaluation(predicates, bound, tuple, level, locals[k]);
            assert(truth(evaluate_model(predicates, bound, current, level, constraints[i]))
                == Ok::<bool, EvalError>(true));
        }
        assert forall|k: int| 0 <= k < globals.len() implies truth(
            #[trigger] evaluate_model(predicates, bound, current, level, globals[k]),
        ) == Ok::<bool, EvalError>(true) by {
            let i = choose|i: int| 0 <= i < constraints.len() && constraints[i] == globals[k];
            assert(truth(evaluate_model(predicates, bound, current, level, constraints[i]))
                == Ok::<bool, EvalError>(true));
        }
    }
    if early && late {
        assert forall|i: int| 0 <= i < constraints.len() implies truth(
            #[trigger] evaluate_model(predicates, bound, current, level, constraints[i]),
        ) == Ok::<bool, EvalError>(true) by {
            if constraints[i].local() {
                let k = choose|k: int| 0 <= k < locals.len() && locals[k] == constraints[i];
                lemma_local_evaluation(predicates, bound, tuple, level, constraints[i]);
                assert(truth(evaluate_local(tuple, locals[k])) == Ok::<bool, EvalError>(true));
            } else {
                let k = choose|k: int| 0 <= k < globals.len() && globals[k] == constraints[i];
                assert(truth(evaluate_model(predicates, bound, current, level, globals[k]))
                    == Ok::<bool, EvalError>(true));
            }
        }
    }
}

/// The bounds of the windows. Whatever the window, an event at the
/// instant of its upper bound, or after it, never matches. For a window
/// that reaches back a fixed time, an event matches only if it is less than
/// that time older than the upper bound: an event whose age equals the
/// window is excluded. For a window between two events, an event matches
/// only if it is no earlier than the first and earlier than the second.
pub proof fn lemma_window_half_open(
    predicates: Seq<Predicate>,
    bound: Seq<BindingModel>,
    global: Seq<Expression>,
    timing: Timing,
    event: EventModel,
)
    requires
        window_model(bound, timing) is Ok,
    ensures
        ({
            let probe = Probe {
                predicates,
                bound,
                global,
                window: window_model(bound, timing).unwrap(),
            };
            let upper = time_model(bound, timing.upper as int).unwrap();
            &&& event.time >= upper ==> probe.matches(event) == Ok::<bool, EvalError>(false)
            &&& match timing.bound {
                TimingBound::Within { window } => {
                    &&& event.time == upper - window ==> probe.matches(event) == Ok::<
                        bool,
                        EvalError,
                    >(false)
                    &&& event.time < upper - window ==> probe.matches(event) == Ok::<
                        bool,
                        EvalError,
                    >(false)
                    &&& probe.matches(event) == Ok::<bool, EvalError>(true) ==> upper - window
                        < event.time < upper
                },
                TimingBound::Between { lower } => {
                    &&& event.time < time_model(bound, lower as int).unwrap() ==> probe.matches(
                        event,
                    ) == Ok::<bool, EvalError>(false)
                    &&& probe.matches(event) == Ok::<bool, EvalError>(true) ==> time_model(
                        bound,
                        lower as int,
                    ).unwrap() <= event.time < upper
                },
            }
        }),
{
}

/// The number of events among the first `n` that match.
pub open spec fn match_count(probe: Probe, buffer: Seq<(u64, EventModel)>, n: int) -> nat
    decreases n,
{
    if n <= 0 {
        0
    } else if probe.matches(buffer[n - 1].1) == Ok::<bool, EvalError>(true) {
        match_count(probe, buffer, n - 1) + 1
    } else {
        match_count(probe, buffer, n - 1)
    }
}

/// The events that a scan finds are events of the stack that match, as many as there are.
pub proof fn lemma_matching(probe: Probe, buffer: Seq<(u64, EventModel)>, n: int)
    requires
        0 <= n <= buffer.len(),
        probe.matching(buffer, n) is Ok,
    ensures
        probe.matching(buffer, n).unwrap().len() == match_count(probe, buffer, n),
        forall|k: int|
            0 <= k < probe.matching(buffer, n).unwrap().len() ==> probe.matches(
                (#[trigger] probe.matching(buffer, n).unwrap()[k]).1,
            ) == Ok::<bool, EvalError>(true) && exists|i: int|
                0 <= i < n && buffer[i] == probe.matching(buffer, n).unwrap()[k],
    decreases n,
{
    if n > 0 {
        lemma_matching(probe, buffer, n - 1);
        let found = probe.matching(buffer, n).unwrap();
        let found0 = probe.matching(buffer, n - 1).unwrap();
        assert forall|k: int| 0 <= k < found.len() implies probe.matches((#[trigger] found[k]).1)
            == Ok::<bool, EvalError>(true) && exists|i: int| 0 <= i < n && buffer[i] == found[k] by {
            if k < found0.len() {
                assert(found[k] == found0[k]);
                let i = choose|i: int| 0 <= i < n - 1 && buffer[i] == found0[k];
                assert(buffer[i] == found[k]);
            } else {
                assert(buffer[n - 1] == found[k]);
            }
        }
    }
}

/// The first match, where there is one, is an event of the stack that
/// matches; where there is none, no event from `from` on matches.
pub proof fn lemma_first_match(probe: Probe, buffer: Seq<(u64, EventModel)>, from: int)
    requires
        0 <= from,
    ensures
        match probe.first_match(buffer, from) {
            Ok(Some(entry)) => probe.matches(entry.1) == Ok::<bool, EvalError>(true) && exists|
                i: int,
            |
                from <= i < buffer.len() && buffer[i] == entry,
            Ok(None) => forall|i: int|
                from <= i < buffer.len() ==> probe.matches((#[trigger] buffer[i]).1) == Ok::<
                    bool,
                    EvalError,
                >(false),
            Err(_) => true,
        },
    decreases buffer.len() - from,
{
    if from < buffer.len() {
        lemma_first_match(probe, buffer, from + 1);
        match probe.first_match(buffer, from) {
            Ok(Some(entry)) => {
                if probe.matches(buffer[from].1) == Ok::<bool, EvalError>(true) {
                    assert(buffer[from] == entry);
                } else {
                    let i = choose|i: int| from + 1 <= i < buffer.len() && buffer[i] == entry;
                    assert(buffer[i] == entry);
                }
            },
            _ => {},
        }
    }
}

/// The last match, where there is one, is an event of the stack that
/// matches; where there is none, none of the first `n` events matches.
pub proof fn lemma_last_match(probe: Probe, buffer: Seq<(u64, EventModel)>, n: int)
    requires
        0 <= n <= buffer.len(),
    ensures
        match probe.last_match(buffer, n) {
            Ok(Some(entry)) => probe.matches(entry.1) == Ok::<bool, EvalError>(true) && exists|
                i: int,
            |
                0 <= i < n && buffer[i] == entry,
            Ok(None) => forall|i: int|
                0 <= i < n ==> probe.matches((#[trigger] buffer[i]).1) == Ok::<bool, EvalError>(
                    false,
                ),
            Err(_) => true,
        },
    decreases n,
{
    if n > 0 {
        lemma_last_match(probe, buffer, n - 1);
        match probe.last_match(buffer, n) {
            Ok(Some(entry)) => {
                if probe.matches(buffer[n - 1].1) == Ok::<bool, EvalError>(true) {
                    assert(buffer[n - 1] == entry);
                } else {
                    let i = choose|i: int| 0 <= i < n - 1 && buffer[i] == entry;
                    assert(buffer[i] == entry);
                }
            },
            _ => {},
        }
    }
}

/// Every event that a selection binds lies in the window of its predicate,
/// is an event of the stack, and satisfies the constraints with parameters.
pub proof fn lemma_window_sound(
    probe: Probe,
    selection: EventSelection,
    buffer: Seq<(u64, EventModel)>,
    attributes: Seq<AttributeDeclaration>,
)
    requires
        probe.results(StackKind::Select(selection), buffer, attributes) is Ok,
    ensures
        forall|r: int|
            0 <= r < probe.results(StackKind::Select(selection), buffer, attributes).unwrap().len()
                ==> exists|i: int|
                0 <= i < buffer.len() && (#[trigger] probe.results(
                    StackKind::Select(selection),
                    buffer,
                    attributes,
                ).unwrap()[r]) == probe.with_event(buffer[i]) && probe.window.lower
                    <= buffer[i].1.time < probe.window.upper && probe.matches(buffer[i].1) == Ok::<
                    bool,
                    EvalError,
                >(true),
{
    let results = probe.results(StackKind::Select(selection), buffer, attributes).unwrap();
    match selection {
        EventSelection::Each => {
            lemma_matching(probe, buffer, buffer.len() as int);
            let found = probe.matching(buffer, buffer.len() as int).unwrap();
            assert forall|r: int| 0 <= r < results.len() implies exists|i: int|
                0 <= i < buffer.len() && (#[trigger] results[r]) == probe.with_event(buffer[i])
                    && probe.window.lower <= buffer[i].1.time < probe.window.upper
                    && probe.matches(buffer[i].1) == Ok::<bool, EvalError>(true) by {
                assert(results[r] == probe.with_event(found[r]));
                let i = choose|i: int| 0 <= i < buffer.len() && buffer[i] == found[r];
                assert(results[r] == probe.with_event(buffer[i]));
            }
        },
        EventSelection::First => {
            lemma_first_match(probe, buffer, 0);
            if results.len() > 0 {
                let entry = probe.first_match(buffer, 0).unwrap().unwrap();
                let i = choose|i: int| 0 <= i < buffer.len() && buffer[i] == entry;
                assert(results[0] == probe.with_event(buffer[i]));
            }
        },
        EventSelection::Last => {
            lemma_last_match(probe, buffer, buffer.len() as int);
            if results.len() > 0 {
                let entry = probe.last_match(buffer, buffer.len() as int).unwrap().unwrap();
                let i = choose|i: int| 0 <= i < buffer.len() && buffer[i] == entry;
                assert(results[0] == probe.with_event(buffer[i]));
            }
        },
    }
}

/// `Each` gives as many partial results as there are matching events: none
/// for none, one for one, `n` for `n`.
pub proof fn lemma_each_counts(
    probe: Probe,
    buffer: Seq<(u64, EventModel)>,
    attributes: Seq<AttributeDeclaration>,
)
    requires
        probe.results(StackKind::Select(EventSelection::Each), buffer, attributes) is Ok,
    ensures
        probe.results(StackKind::Select(EventSelection::Each), buffer, attributes).unwrap().len()
            == match_count(probe, buffer, buffer.len() as int),
{
    lemma_matching(probe, buffer, buffer.len() as int);
}

/// A negation gives exactly one partial result where no event matches, and
/// none where one does.
pub proof fn lemma_negation(
    probe: Probe,
    buffer: Seq<(u64, EventModel)>,
    attributes: Seq<AttributeDeclaration>,
)
    requires
        probe.results(StackKind::Negation, buffer, attributes) is Ok,
    ensures
        probe.results(StackKind::Negation, buffer, attributes).unwrap().len() == if forall|i: int|
            0 <= i < buffer.len() ==> probe.matches((#[trigger] buffer[i]).1) == Ok::<
                bool,
                EvalError,
            >(false) {
            1nat
        } else {
            0nat
        },
{
    lemma_first_match(probe, buffer, 0);
}

/// The events that are kept among the first `n` are the first of those
/// that are kept among the first `m`.
pub proof fn lemma_not_older_prefix(
    buffer: Seq<(u64, EventModel)>,
    threshold: i64,
    n: int,
    m: int,
)
    requires
        0 <= n <= m,
    ensures
        not_older(buffer, threshold, n).len() <= not_older(buffer, threshold, m).len(),
        forall|i: int|
            0 <= i < not_older(buffer, threshold, n).len() ==> not_older(buffer, threshold, m)[i]
                == #[trigger] not_older(buffer, threshold, n)[i],
    decreases m - n,
{
    if n < m {
        lemma_not_older_prefix(buffer, threshold, n, m - 1);
    }
}

/// Which of the first events match depends on these events alone.
pub proof fn lemma_matching_prefix(
    probe: Probe,
    a: Seq<(u64, EventModel)>,
    b: Seq<(u64, EventModel)>,
    n: int,
)
    requires
        0 <= n <= a.len(),
        n <= b.len(),
        forall|i: int| 0 <= i < n ==> a[i] == b[i],
    ensures
        probe.matching(a, n) == probe.matching(b, n),
    decreases n,
{
    if n > 0 {
        lemma_matching_prefix(probe, a, b, n - 1);
    }
}

/// Which of the first events is the last to match depends on these events alone.
pub proof fn lemma_last_match_prefix(
    probe: Probe,
    a: Seq<(u64, EventModel)>,
    b: Seq<(u64, EventModel)>,
    n: int,
)
    requires
        0 <= n <= a.len(),
        n <= b.len(),
        forall|i: int| 0 <= i < n ==> a[i] == b[i],
    ensures
        probe.last_match(a, n) == probe.last_match(b, n),
    decreases n,
{
    if n > 0 {
        lemma_last_match_prefix(probe, a, b, n - 1);
    }
}

/// The events that match among those that are kept are those that match
/// among all, where the window begins no earlier than the threshold.
pub proof fn lemma_matching_not_older(
    probe: Probe,
    buffer: Seq<(u64, EventModel)>,
    threshold: i64,
    n: int,
)
    requires
        probe.window.lower >= threshold,
        0 <= n <= buffer.len(),
    ensures
        probe.matching(
            not_older(buffer, threshold, n),
            not_older(buffer, threshold, n).len() as int,
        ) == probe.matching(buffer, n),
    decreases n,
{
    if n > 0 {
        lemma_matching_not_older(probe, buffer, threshold, n - 1);
        let before = not_older(buffer, threshold, n - 1);
        let kept = not_older(buffer, threshold, n);
        if buffer[n - 1].1.time >= threshold {
            assert(kept == before.push(buffer[n - 1]));
            lemma_matching_prefix(probe, kept, before, before.len() as int);
        }
    }
}

/// The last event that matches among those that are kept is the last that
/// matches among all, where the window begins no earlier than the threshold.
pub proof fn lemma_last_match_not_older(
    probe: Probe,
    buffer: Seq<(u64, EventModel)>,
    threshold: i64,
    n: int,
)
    requires
        probe.window.lower >= threshold,
        0 <= n <= buffer.len(),
    ensures
        probe.last_match(
            not_older(buffer, threshold, n),
            not_older(buffer, threshold, n).len() as int,
        ) == probe.last_match(buffer, n),
    decreases n,
{
    if n > 0 {
        lemma_last_match_not_older(probe, buffer, threshold, n - 1);
        let before = not_older(buffer, threshold, n - 1);
        let kept = not_older(buffer, threshold, n);
        if buffer[n - 1].1.time >= threshold {
            assert(kept == before.push(buffer[n - 1]));
            lemma_last_match_prefix(probe, kept, before, before.len() as int);
        }
    }
}

/// The first event that matches among those that are kept is the first
/// that matches among all, where the window begins no earlier than the
/// threshold.
pub proof fn lemma_first_match_not_older(
    probe: Probe,
    buffer: Seq<(u64, EventModel)>,
    threshold: i64,
    from: int,
)
    requires
        probe.window.lower >= threshold,
        0 <= from <= buffer.len(),
    ensures
        probe.first_match(
            not_older(buffer, threshold, buffer.len() as int),
            not_older(buffer, threshold, from).len() as int,
        ) == probe.first_match(buffer, from),
    decreases buffer.len() - from,
{
    let kept = not_older(buffer, threshold, buffer.len() as int);
    if from < buffer.len() {
        lemma_first_match_not_older(probe, buffer, threshold, from + 1);
        lemma_not_older_prefix(buffer, threshold, from + 1, buffer.len() as int);
        let before = not_older(buffer, threshold, from);
        let next = not_older(buffer, threshold, from + 1);
        if buffer[from].1.time >= threshold {
            assert(next == before.push(buffer[from]));
            assert(kept[before.len() as int] == next[before.len() as int]);
        }
    }
}

/// Eviction soundness. A stack that has dropped the events that are older
/// than a threshold gives for a partial result what it gave before, where
/// the window of the partial result begins no earlier than the threshold:
/// no event that is dropped could have matched.
pub proof fn lemma_eviction_sound(
    stack: StackModel,
    predicates: Seq<Predicate>,
    bound: Seq<BindingModel>,
    threshold: i64,
)
    requires
        window_model(bound, stack.timing) is Ok ==> window_model(
            bound,
            stack.timing,
        ).unwrap().lower >= threshold,
    ensures
        (StackModel {
            buffer: not_older(stack.buffer, threshold, stack.buffer.len() as int),
            ..stack
        }).results(predicates, bound) == stack.results(predicates, bound),
{
    if window_model(bound, stack.timing) is Ok {
        let window = window_model(bound, stack.timing).unwrap();
        let probe = Probe { predicates, bound, global: stack.global, window };
        let n = stack.buffer.len() as int;
        lemma_matching_not_older(probe, stack.buffer, threshold, n);
        lemma_last_match_not_older(probe, stack.buffer, threshold, n);
        lemma_first_match_not_older(probe, stack.buffer, threshold, 0);
    }
}

/// With a threshold that no time is older than, every event is kept.
pub proof fn lemma_not_older_all(buffer: Seq<(u64, EventModel)>, n: int)
    requires
        0 <= n <= buffer.len(),
    ensures
        not_older(buffer, i64::MIN, n) == buffer.take(n),
    decreases n,
{
    if n > 0 {
        lemma_not_older_all(buffer, n - 1);
        assert(buffer.take(n) =~= buffer.take(n - 1).push(buffer[n - 1]));
    } else {
        assert(buffer.take(0) =~= Seq::<(u64, EventModel)>::empty());
    }
}

} // verus!

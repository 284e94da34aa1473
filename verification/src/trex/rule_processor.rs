//! The evaluation of a rule: its trigger and the nodes of its predicates.

use crate::tesla::expressions::{Expression, Value, ValueModel};
use crate::tesla::predicates::{Predicate, Timing, TimingBound};
use crate::tesla::{Event, EventModel, EventTemplate, Rule, Tuple, TupleModel};
use crate::trex::cache::{stored_as, Cache, Fetcher};
use crate::trex::expressions::{
    all_hold,
    evaluate_model,
    time_model,
    top_level,
    Binding,
    BindingModel,
    CompleteContext,
    CurrentModel,
    CurrentValue,
    PartialResult,
};
use crate::trex::operations::{agrees, EvalError};
use crate::trex::sqlite::driver::{asked, key_model, materialize_model, SQLiteDriver};
use crate::trex::sqlite::{CacheEntry, CacheEntryModel, CacheKey, CacheKeyModel};
use crate::trex::stack::{
    accepts,
    lemma_eviction_sound,
    lemma_not_older_all,
    lemma_window_sound,
    not_older,
    window_model,
    without,
    Probe,
    Stack,
    StackKind,
    StackModel,
    Trigger,
};
use std::sync::Arc;
use vstd::prelude::*;

verus! {

/// The state of a node, but for what its cache holds.
pub enum NodeShape {
    /// A stack of events.
    Stack(StackModel),
    /// A predicate on static data: its statement, the parameters whose
    /// values the statement takes, and what the static data may answer.
    Static {
        idx: usize,
        statement: Seq<char>,
        input_params: Seq<(usize, usize)>,
        source: spec_fn(CacheKeyModel, CacheEntryModel) -> bool,
    },
}

/// Partial results, or the reason why there are none.
pub type Outcomes = Result<Seq<Seq<BindingModel>>, EvalError>;

impl NodeShape {
    /// What the node gives for a partial result, where `answer` is the
    /// answer of the static data.
    pub open spec fn results(
        self,
        predicates: Seq<Predicate>,
        bound: Seq<BindingModel>,
        answer: CacheEntryModel,
    ) -> Outcomes {
        match self {
            NodeShape::Stack(stack) => stack.results(predicates, bound),
            NodeShape::Static { statement, input_params, .. } => match key_model(
                statement,
                input_params,
                predicates,
                bound,
                CurrentModel::Empty,
            ) {
                Err(error) => Err(error),
                Ok(_) => Ok(materialize_model(bound, answer.value)),
            },
        }
    }

    /// Whether `answer` may be the answer of the static data for a partial
    /// result: it is one that the static data may give for the key of the
    /// partial result. A stack asks no static data.
    pub open spec fn may_answer(
        self,
        predicates: Seq<Predicate>,
        bound: Seq<BindingModel>,
        answer: CacheEntryModel,
    ) -> bool {
        match self {
            NodeShape::Stack(_) => true,
            NodeShape::Static { statement, input_params, source, .. } => match key_model(
                statement,
                input_params,
                predicates,
                bound,
                CurrentModel::Empty,
            ) {
                Err(_) => true,
                Ok(key) => source(key, answer),
            },
        }
    }

    /// Whether the node takes an event in.
    pub open spec fn accepts(self, event: EventModel) -> Result<bool, EvalError> {
        match self {
            NodeShape::Stack(stack) => accepts(stack.ty_id, stack.local, event),
            NodeShape::Static { .. } => Ok(false),
        }
    }

    /// The node with one more event.
    pub open spec fn with_event(self, id: u64, event: EventModel) -> NodeShape {
        match self {
            NodeShape::Stack(stack) => NodeShape::Stack(
                StackModel { buffer: stack.buffer.push((id, event)), ..stack },
            ),
            other => other,
        }
    }

    /// The node without the event that was taken in under the number `id`.
    pub open spec fn consumed(self, id: u64) -> NodeShape {
        match self {
            NodeShape::Stack(stack) => NodeShape::Stack(
                StackModel { buffer: without(stack.buffer, id, stack.buffer.len() as int), ..stack },
            ),
            other => other,
        }
    }
}

/// A node of a rule: it evaluates one predicate.
pub enum Node<C: Cache<K = CacheKey, V = CacheEntry>, F: Fetcher<CacheKey, CacheEntry>> {
    /// The node of an event predicate.
    Stack(Stack),
    /// The node of a predicate on static data.
    Static(SQLiteDriver<C, F>),
}

/// The partial results that were made are those of the model.
pub open spec fn made(results: Result<Vec<PartialResult>, EvalError>, model: Outcomes) -> bool {
    match results {
        Ok(list) => model == Ok::<Seq<Seq<BindingModel>>, EvalError>(list.deep_view()),
        Err(error) => model == Err::<Seq<Seq<BindingModel>>, EvalError>(error),
    }
}

impl<C: Cache<K = CacheKey, V = CacheEntry>, F: Fetcher<CacheKey, CacheEntry>> Node<C, F> {
    /// The state of the node.
    pub open spec fn shape(&self) -> NodeShape {
        match self {
            Node::Stack(stack) => NodeShape::Stack(stack.model()),
            Node::Static(driver) => NodeShape::Static {
                idx: driver.idx(),
                statement: driver.statement(),
                input_params: driver.input_params(),
                source: driver.source(),
            },
        }
    }

    /// Whether the node is in order.
    pub open spec fn wf(&self) -> bool {
        match self {
            Node::Stack(_) => true,
            Node::Static(driver) => driver.wf(),
        }
    }

    /// What the cache of the node holds; a stack has no cache.
    pub open spec fn cached(&self) -> Map<CacheKeyModel, CacheEntryModel> {
        match self {
            Node::Stack(_) => Map::empty(),
            Node::Static(driver) => driver.cached(),
        }
    }

    /// Whether `after` is the node once it was evaluated for a partial
    /// result with the answer `answer`: the cache of a node on static data
    /// was asked for the key of the partial result (see `asked`), and is
    /// as it was where the partial result has no key.
    pub open spec fn answered(
        &self,
        predicates: Seq<Predicate>,
        bound: Seq<BindingModel>,
        answer: CacheEntryModel,
        after: Self,
    ) -> bool {
        match (*self, after) {
            (Node::Stack(_), Node::Stack(_)) => true,
            (Node::Static(before), Node::Static(after)) => match key_model(
                before.statement(),
                before.input_params(),
                predicates,
                bound,
                CurrentModel::Empty,
            ) {
                Err(_) => after.cache() == before.cache(),
                Ok(key) => asked(before.cache(), key, answer, after.cache()),
            },
            _ => false,
        }
    }

    /// Offers the node an event: a stack takes it in, under the number
    /// `id`, if the event satisfies its predicate.
    pub fn process(&mut self, id: u64, event: &Arc<Event>) -> (taken: Result<bool, EvalError>)
        requires
            old(self).wf(),
        ensures
            final(self).wf(),
            taken == old(self).shape().accepts(event.deep_view()),
            final(self).shape() == if taken == Ok::<bool, EvalError>(true) {
                old(self).shape().with_event(id, event.deep_view())
            } else {
                old(self).shape()
            },
    {
        match self {
            Node::Stack(stack) => stack.process(id, event),
            Node::Static(_) => Ok(false),
        }
    }

    /// Drops the events that are too old, and gives the time of the oldest
    /// event that is left; see `NodeShape::evicted`.
    pub fn remove_old_events(&mut self, trigger_time: i64, oldest: &Vec<i64>) -> (first: i64)
        requires
            old(self).wf(),
        ensures
            final(self).wf(),
            (final(self).shape(), first) == old(self).shape().evicted(trigger_time, oldest@),
    {
        match self {
            Node::Stack(stack) => {
                let timing = stack.get_timing();
                let base = if timing.upper < oldest.len() {
                    oldest[timing.upper]
                } else {
                    trigger_time
                };
                let wide: i128 = base as i128 - stack.get_max_window() as i128;
                let threshold: i64 = if wide < i64::MIN as i128 {
                    i64::MIN
                } else if wide > i64::MAX as i128 {
                    i64::MAX
                } else {
                    wide as i64
                };
                match stack.remove_old_events(threshold) {
                    Some(time) => time,
                    None => trigger_time,
                }
            },
            Node::Static(_) => trigger_time,
        }
    }

    /// Sets the longest time that the window of a stack reaches back; see
    /// `NodeShape::windowed`.
    pub fn set_max_window(&mut self, window: i64)
        requires
            old(self).wf(),
        ensures
            final(self).wf(),
            final(self).shape() == old(self).shape().windowed(window),
    {
        match self {
            Node::Stack(stack) => stack.set_max_window(window),
            Node::Static(_) => {},
        }
    }

    /// The longest time that the window of the node reaches back, given
    /// those of the nodes before it; see `NodeShape::window`.
    pub fn max_window(&self, before: &Vec<i64>) -> (window: i64)
        ensures
            window == self.shape().window(before@),
    {
        match self {
            Node::Stack(stack) => match stack.get_timing().bound {
                TimingBound::Within { window } => window,
                TimingBound::Between { lower } => {
                    if 1 <= lower && lower <= before.len() {
                        before[lower - 1]
                    } else {
                        0
                    }
                },
            },
            Node::Static(_) => 0,
        }
    }

    /// Removes from a stack the event that was taken in under the number `id`.
    pub fn consume(&mut self, id: u64)
        requires
            old(self).wf(),
        ensures
            final(self).wf(),
            final(self).shape() == old(self).shape().consumed(id),
    {
        match self {
            Node::Stack(stack) => stack.consume(id),
            Node::Static(_) => {},
        }
    }

    /// The partial results that the node makes of one. A node on static
    /// data makes them of the answer that its cache gives, which is one
    /// that the static data may give.
    pub fn evaluate(&mut self, predicates: &Vec<Predicate>, result: &PartialResult) -> (results:
        Result<Vec<PartialResult>, EvalError>)
        requires
            old(self).wf(),
        ensures
            final(self).wf(),
            final(self).shape() == old(self).shape(),
            exists|answer: CacheEntryModel|
                {
                    &&& made(
                        results,
                        #[trigger] old(self).shape().results(predicates@, result.deep_view(), answer),
                    )
                    &&& old(self).shape().may_answer(predicates@, result.deep_view(), answer)
                    &&& old(self).answered(predicates@, result.deep_view(), answer, *final(self))
                },
    {
        let context = CompleteContext::new(predicates, result, CurrentValue::Empty);
        let results = match self {
            Node::Stack(stack) => stack.evaluate(&context),
            Node::Static(driver) => driver.evaluate(&context),
        };
        proof {
            let shape = old(self).shape();
            match *old(self) {
                Node::Stack(stack) => {
                    let answer: CacheEntryModel = arbitrary();
                    assert(self.shape() is Stack);
                    assert(made(results, stack.model().results(predicates@, result.deep_view())));
                    assert(made(results, shape.results(predicates@, result.deep_view(), answer)));
                },
                Node::Static(before) => {
                    match key_model(
                        before.statement(),
                        before.input_params(),
                        predicates@,
                        result.deep_view(),
                        CurrentModel::Empty,
                    ) {
                        Err(error) => {
                            let answer: CacheEntryModel = arbitrary();
                            assert(made(
                                results,
                                shape.results(predicates@, result.deep_view(), answer),
                            ));
                            assert(old(self).answered(
                                predicates@,
                                result.deep_view(),
                                answer,
                                *self,
                            ));
                        },
                        Ok(key) => {
                            let after = self->Static_0;
                            let answer = choose|answer: CacheEntryModel|
                                {
                                    &&& #[trigger] materialize_model(
                                        result.deep_view(),
                                        answer.value,
                                    ) == results.unwrap().deep_view()
                                    &&& before.answers(key, answer)
                                    &&& asked(before.cache(), key, answer, after.cache())
                                };
                            assert(made(
                                results,
                                shape.results(predicates@, result.deep_view(), answer),
                            ));
                            assert(shape.may_answer(predicates@, result.deep_view(), answer));
                            assert(old(self).answered(
                                predicates@,
                                result.deep_view(),
                                answer,
                                *self,
                            ));
                        },
                    }
                },
            }
        }
        results
    }
}

/// The nodes once an event is offered to those from index `from` on, and
/// the error of the first node whose evaluation fails, after which no node
/// is offered the event.
pub open spec fn offer_model(nodes: Seq<NodeShape>, id: u64, event: EventModel, from: int) -> (
    Seq<NodeShape>,
    Result<(), EvalError>,
)
    decreases nodes.len() - from,
{
    if from < 0 || from >= nodes.len() {
        (nodes, Ok(()))
    } else {
        match nodes[from].accepts(event) {
            Err(error) => (nodes, Err(error)),
            Ok(true) => offer_model(
                nodes.update(from, nodes[from].with_event(id, event)),
                id,
                event,
                from + 1,
            ),
            Ok(false) => offer_model(nodes, id, event, from + 1),
        }
    }
}

/// The time before which the events of a stack are too old: the base
/// less the window, within the range of times.
pub open spec fn threshold_model(base: i64, window: i64) -> i64 {
    if base - window < i64::MIN {
        i64::MIN
    } else if base - window > i64::MAX {
        i64::MAX
    } else {
        (base - window) as i64
    }
}

impl NodeShape {
    /// The longest time that the window of the node reaches back: the
    /// window itself where it is a fixed time, and the longest time of the
    /// node of its lower bound where it starts at the event of another
    /// predicate. `before` holds the longest times of the nodes before this one.
    pub open spec fn window(self, before: Seq<i64>) -> i64 {
        match self {
            NodeShape::Stack(stack) => match stack.timing.bound {
                TimingBound::Within { window } => window,
                TimingBound::Between { lower } => if 1 <= lower <= before.len() {
                    before[lower - 1]
                } else {
                    0
                },
            },
            _ => 0,
        }
    }

    /// The node with the given longest time of its window.
    pub open spec fn windowed(self, window: i64) -> NodeShape {
        match self {
            NodeShape::Stack(stack) => NodeShape::Stack(StackModel { max_window: window, ..stack }),
            other => other,
        }
    }

    /// The node once the events that are too old have left it, and the
    /// time of the oldest event that is left, or the time of the trigger
    /// where there is none. `oldest` holds these times for the trigger and
    /// for the nodes before this one. A stack keeps the events that are not
    /// older than the oldest time of the upper bound of its window, less
    /// the longest time that its window reaches back.
    pub open spec fn evicted(self, trigger_time: i64, oldest: Seq<i64>) -> (NodeShape, i64) {
        match self {
            NodeShape::Stack(stack) => {
                let base = if stack.timing.upper < oldest.len() {
                    oldest[stack.timing.upper as int]
                } else {
                    trigger_time
                };
                let kept = not_older(
                    stack.buffer,
                    threshold_model(base, stack.max_window),
                    stack.buffer.len() as int,
                );
                let first = if kept.len() == 0 {
                    trigger_time
                } else {
                    kept[0].1.time
                };
                (NodeShape::Stack(StackModel { buffer: kept, ..stack }), first)
            },
            other => (other, trigger_time),
        }
    }
}

/// The nodes once the events that are too old have left the stacks from
/// index `from` on. `oldest` holds, for the trigger and for every node
/// before `from`, the time of the oldest event that is left.
pub open spec fn evict_model(
    nodes: Seq<NodeShape>,
    trigger_time: i64,
    from: int,
    oldest: Seq<i64>,
) -> Seq<NodeShape>
    decreases nodes.len() - from,
{
    if from < 0 || from >= nodes.len() {
        nodes
    } else {
        let (node, first) = nodes[from].evicted(trigger_time, oldest);
        evict_model(nodes.update(from, node), trigger_time, from + 1, oldest.push(first))
    }
}

/// The partial results that a node makes of the first `n` of a list, in
/// their order, where `answers` holds the answer of the static data for
/// each of them; the first evaluation that fails gives the error.
pub open spec fn level_model(
    node: NodeShape,
    predicates: Seq<Predicate>,
    inputs: Seq<Seq<BindingModel>>,
    answers: Seq<CacheEntryModel>,
    n: int,
) -> Outcomes
    decreases n,
{
    if n <= 0 {
        Ok(Seq::empty())
    } else {
        match level_model(node, predicates, inputs, answers, n - 1) {
            Err(error) => Err(error),
            Ok(made) => match node.results(predicates, inputs[n - 1], answers[n - 1]) {
                Err(error) => Err(error),
                Ok(more) => Ok(made + more),
            },
        }
    }
}

/// `outcome` is what a node makes of a list of partial results, for some
/// answers that the static data may give.
pub open spec fn level_related(
    node: NodeShape,
    predicates: Seq<Predicate>,
    inputs: Seq<Seq<BindingModel>>,
    outcome: Outcomes,
) -> bool {
    exists|answers: Seq<CacheEntryModel>|
        answers.len() == inputs.len() && outcome == #[trigger] level_model(
            node,
            predicates,
            inputs,
            answers,
            inputs.len() as int,
        ) && sourced(node, predicates, inputs, answers)
}

/// Every answer is one that the static data may give for its partial
/// result, as far as the partial results are evaluated: up to the first one
/// whose evaluation fails.
pub open spec fn sourced(
    node: NodeShape,
    predicates: Seq<Predicate>,
    inputs: Seq<Seq<BindingModel>>,
    answers: Seq<CacheEntryModel>,
) -> bool {
    forall|i: int|
        0 <= i < inputs.len() && i < answers.len() && level_model(node, predicates, inputs, answers, i)
            is Ok ==> node.may_answer(predicates, #[trigger] inputs[i], answers[i])
}

/// `outcome` is what the first `k` nodes make of a list of partial results:
/// each node is given what the one before it has made, and an error ends it.
pub open spec fn reach(
    nodes: Seq<NodeShape>,
    predicates: Seq<Predicate>,
    start: Seq<Seq<BindingModel>>,
    k: int,
    outcome: Outcomes,
) -> bool
    decreases k,
{
    if k <= 0 {
        outcome == Ok::<Seq<Seq<BindingModel>>, EvalError>(start)
    } else {
        exists|previous: Outcomes|
            reach(nodes, predicates, start, k - 1, previous) && #[trigger] follows(
                nodes[k - 1],
                predicates,
                previous,
                outcome,
            )
    }
}

/// `outcome` is what a node makes of what the nodes before it have made:
/// their error, or its partial results for some answers of the static data.
pub open spec fn follows(
    node: NodeShape,
    predicates: Seq<Predicate>,
    previous: Outcomes,
    outcome: Outcomes,
) -> bool {
    match previous {
        Err(error) => outcome == Err::<Seq<Seq<BindingModel>>, EvalError>(error),
        Ok(inputs) => level_related(node, predicates, inputs, outcome),
    }
}

/// The partial results among the first `n` for which the filters hold; the
/// first evaluation that fails gives the error.
pub open spec fn filter_model(
    predicates: Seq<Predicate>,
    filters: Seq<Expression>,
    results: Seq<Seq<BindingModel>>,
    n: int,
) -> Outcomes
    decreases n,
{
    if n <= 0 {
        Ok(Seq::empty())
    } else {
        match filter_model(predicates, filters, results, n - 1) {
            Err(error) => Err(error),
            Ok(kept) => match all_hold(
                predicates,
                results[n - 1],
                CurrentModel::Empty,
                filters,
                0,
            ) {
                Err(error) => Err(error),
                Ok(true) => Ok(kept.push(results[n - 1])),
                Ok(false) => Ok(kept),
            },
        }
    }
}

/// The values of the first `n` attributes of the template for a partial result.
pub open spec fn values_model(
    predicates: Seq<Predicate>,
    bound: Seq<BindingModel>,
    attributes: Seq<Expression>,
    n: int,
) -> Result<Seq<ValueModel>, EvalError>
    decreases n,
{
    if n <= 0 {
        Ok(Seq::empty())
    } else {
        match values_model(predicates, bound, attributes, n - 1) {
            Err(error) => Err(error),
            Ok(values) => match evaluate_model(
                predicates,
                bound,
                CurrentModel::Empty,
                top_level(bound),
                attributes[n - 1],
            ) {
                Err(error) => Err(error),
                Ok(value) => Ok(values.push(value)),
            },
        }
    }
}

/// The events that the template makes of the first `n` partial results,
/// each at the given time.
pub open spec fn render_model(
    predicates: Seq<Predicate>,
    template: EventTemplate,
    results: Seq<Seq<BindingModel>>,
    time: i64,
    n: int,
) -> Result<Seq<EventModel>, EvalError>
    decreases n,
{
    if n <= 0 {
        Ok(Seq::empty())
    } else {
        match render_model(predicates, template, results, time, n - 1) {
            Err(error) => Err(error),
            Ok(events) => match values_model(
                predicates,
                results[n - 1],
                template.attributes@,
                template.attributes@.len() as int,
            ) {
                Err(error) => Err(error),
                Ok(data) => Ok(
                    events.push(
                        EventModel { tuple: TupleModel { ty_id: template.ty_id, data }, time },
                    ),
                ),
            },
        }
    }
}

/// The nodes once the events that a partial result has bound at the first
/// `c` of the consumed predicates have left their stacks.
pub open spec fn consume_one(
    nodes: Seq<NodeShape>,
    consuming: Seq<usize>,
    bound: Seq<BindingModel>,
    c: int,
) -> Seq<NodeShape>
    decreases c,
{
    if c <= 0 {
        nodes
    } else {
        let before = consume_one(nodes, consuming, bound, c - 1);
        let idx = consuming[c - 1];
        if 1 <= idx <= before.len() && idx < bound.len() {
            match bound[idx as int] {
                BindingModel::Event { id, .. } => before.update(
                    idx - 1,
                    before[idx - 1].consumed(id),
                ),
                _ => before,
            }
        } else {
            before
        }
    }
}

/// The nodes once the events that the first `n` partial results have bound
/// at the consumed predicates have left their stacks.
pub open spec fn consume_model(
    nodes: Seq<NodeShape>,
    consuming: Seq<usize>,
    results: Seq<Seq<BindingModel>>,
    n: int,
) -> Seq<NodeShape>
    decreases n,
{
    if n <= 0 {
        nodes
    } else {
        consume_one(
            consume_model(nodes, consuming, results, n - 1),
            consuming,
            results[n - 1],
            consuming.len() as int,
        )
    }
}

/// The nodes and the emitted events once the nodes have made their partial
/// results: those for which the filters hold give an event each, and the
/// events that they have bound at the consumed predicates leave their stacks.
pub open spec fn finish_model(
    rule: Rule,
    nodes: Seq<NodeShape>,
    chained: Outcomes,
    time: i64,
) -> (Seq<NodeShape>, Result<Seq<EventModel>, EvalError>) {
    match chained {
        Err(error) => (nodes, Err(error)),
        Ok(results) => match filter_model(
            rule.predicates@,
            rule.filters@,
            results,
            results.len() as int,
        ) {
            Err(error) => (nodes, Err(error)),
            Ok(survivors) => match render_model(
                rule.predicates@,
                rule.event_template,
                survivors,
                time,
                survivors.len() as int,
            ) {
                Err(error) => (nodes, Err(error)),
                Ok(events) => (
                    consume_model(nodes, rule.consuming@, survivors, survivors.len() as int),
                    Ok(events),
                ),
            },
        },
    }
}

/// The nodes once those from index `from` on have the longest times of
/// their windows; `before` holds those of the nodes before `from`.
pub open spec fn windows_model(nodes: Seq<NodeShape>, from: int, before: Seq<i64>) -> Seq<NodeShape>
    decreases nodes.len() - from,
{
    if from < 0 || from >= nodes.len() {
        nodes
    } else {
        let window = nodes[from].window(before);
        windows_model(nodes.update(from, nodes[from].windowed(window)), from + 1, before.push(window))
    }
}

/// The events that were emitted are those of the model.
pub open spec fn emitted(
    events: Result<Vec<Arc<Event>>, EvalError>,
) -> Result<Seq<EventModel>, EvalError> {
    match events {
        Ok(list) => Ok(list.deep_view()),
        Err(error) => Err(error),
    }
}

/// The state of the evaluation of a rule.
pub struct RuleModel {
    /// The nodes of the predicates after the trigger, in their order.
    pub nodes: Seq<NodeShape>,
    /// The number under which the next event is taken in.
    pub next_id: u64,
}

/// The partial result that holds the event of the trigger.
pub open spec fn seed(id: u64, event: EventModel) -> Seq<Seq<BindingModel>> {
    seq![seq![BindingModel::Event { id, event }]]
}

/// What the evaluation of a rule may do with an event.
///
/// The event is offered to every stack. If it satisfies the trigger, the
/// stacks drop the events that are too old, the nodes make their partial
/// results one after the other, starting from the event of the trigger, and
/// every partial result for which the filters hold emits an event at the
/// time of the trigger. Which events are emitted depends on nothing but the
/// rule, the state and the event, and on what the static data answers.
pub open spec fn process_related(
    rule: Rule,
    trigger_ty: usize,
    trigger_constraints: Seq<Expression>,
    before: RuleModel,
    event: EventModel,
    after: RuleModel,
    outcome: Result<Seq<EventModel>, EvalError>,
) -> bool {
    let id = before.next_id;
    if id == u64::MAX {
        after == before && outcome == Err::<Seq<EventModel>, EvalError>(EvalError::Overflow)
    } else {
        let (offered, admitted) = offer_model(before.nodes, id, event, 0);
        let next = RuleModel { nodes: offered, next_id: (id + 1) as u64 };
        match admitted {
            Err(error) => after == next && outcome == Err::<Seq<EventModel>, EvalError>(error),
            Ok(_) => match accepts(trigger_ty, trigger_constraints, event) {
                Err(error) => after == next && outcome == Err::<Seq<EventModel>, EvalError>(error),
                Ok(false) => after == next && outcome == Ok::<Seq<EventModel>, EvalError>(
                    Seq::empty(),
                ),
                Ok(true) => {
                    let evicted = evict_model(offered, event.time, 0, seq![event.time]);
                    exists|chained: Outcomes| #[trigger]
                        reach(
                            evicted,
                            rule.predicates@,
                            seed(id, event),
                            evicted.len() as int,
                            chained,
                        ) && after == (RuleModel {
                            nodes: finish_model(rule, evicted, chained, event.time).0,
                            next_id: (id + 1) as u64,
                        }) && outcome == finish_model(rule, evicted, chained, event.time).1
                },
            },
        }
    }
}

/// Where no node fails on an event that is offered to the nodes from
/// index `from` on, every one of them that accepts the event holds it
/// afterwards as its last event, and every other node stays as it is.
pub proof fn lemma_offer_members(nodes: Seq<NodeShape>, id: u64, event: EventModel, from: int)
    requires
        0 <= from,
        offer_model(nodes, id, event, from).1 is Ok,
    ensures
        offer_model(nodes, id, event, from).0.len() == nodes.len(),
        forall|k: int|
            0 <= k < nodes.len() ==> #[trigger] offer_model(nodes, id, event, from).0[k] == if k
                >= from && nodes[k].accepts(event) == Ok::<bool, EvalError>(true) {
                nodes[k].with_event(id, event)
            } else {
                nodes[k]
            },
    decreases nodes.len() - from,
{
    if from < nodes.len() {
        match nodes[from].accepts(event) {
            Err(_) => {},
            Ok(true) => {
                let next = nodes.update(from, nodes[from].with_event(id, event));
                lemma_offer_members(next, id, event, from + 1);
                assert forall|k: int| 0 <= k < nodes.len() implies #[trigger] offer_model(
                    nodes,
                    id,
                    event,
                    from,
                ).0[k] == if k >= from && nodes[k].accepts(event) == Ok::<bool, EvalError>(true) {
                    nodes[k].with_event(id, event)
                } else {
                    nodes[k]
                } by {
                    assert(offer_model(next, id, event, from + 1).0[k] == if k >= from + 1
                        && next[k].accepts(event) == Ok::<bool, EvalError>(true) {
                        next[k].with_event(id, event)
                    } else {
                        next[k]
                    });
                }
            },
            Ok(false) => {
                lemma_offer_members(nodes, id, event, from + 1);
            },
        }
    }
}

/// Trigger exclusivity. An event that does not satisfy the trigger starts
/// no match: no event is emitted. The event is still offered to the stacks:
/// where the evaluation does not fail, every stack that accepts the event
/// holds it afterwards as its last event, under the number of the event,
/// and every other node stays as it is.
pub proof fn lemma_trigger_exclusive(
    rule: Rule,
    trigger_ty: usize,
    trigger_constraints: Seq<Expression>,
    before: RuleModel,
    event: EventModel,
    after: RuleModel,
    outcome: Result<Seq<EventModel>, EvalError>,
)
    requires
        process_related(rule, trigger_ty, trigger_constraints, before, event, after, outcome),
        accepts(trigger_ty, trigger_constraints, event) == Ok::<bool, EvalError>(false),
    ensures
        outcome is Ok ==> outcome.unwrap().len() == 0,
        outcome is Ok ==> after.nodes.len() == before.nodes.len() && forall|k: int|
            0 <= k < before.nodes.len() ==> #[trigger] after.nodes[k] == if before.nodes[k].accepts(
                event,
            ) == Ok::<bool, EvalError>(true) {
                before.nodes[k].with_event(before.next_id, event)
            } else {
                before.nodes[k]
            },
        outcome is Err ==> before.next_id == u64::MAX || offer_model(
            before.nodes,
            before.next_id,
            event,
            0,
        ).1 is Err,
{
    if outcome is Ok {
        lemma_offer_members(before.nodes, before.next_id, event, 0);
    }
}

/// A partial result carries on another: it holds one more binding.
pub open spec fn carries_on(result: Seq<BindingModel>, bound: Seq<BindingModel>) -> bool {
    result.len() == bound.len() + 1 && result.take(bound.len() as int) == bound
}

/// Whether the event that the node of index `j` has bound in a partial
/// result lies in the window of the node: the window is that of the time
/// constraints of the node, for the bindings before its own.
pub open spec fn bound_in_window(nodes: Seq<NodeShape>, bound: Seq<BindingModel>, j: int) -> bool {
    match nodes[j] {
        NodeShape::Stack(stack) => match stack.kind {
            StackKind::Select(_) => match (
                window_model(bound.take(j + 1), stack.timing),
                bound[j + 1],
            ) {
                (Ok(window), BindingModel::Event { event, .. }) => window.holds(event.time),
                _ => false,
            },
            _ => true,
        },
        _ => true,
    }
}

/// Whether a partial result that the first `k` nodes have made holds a
/// binding for the trigger and for each of them, and every event that a
/// node has bound lies in the window of the node.
pub open spec fn windows_hold(nodes: Seq<NodeShape>, bound: Seq<BindingModel>, k: int) -> bool {
    bound.len() == k + 1 && forall|j: int| 0 <= j < k ==> bound_in_window(nodes, bound, j)
}

/// Every partial result that a node makes carries on the one that it was
/// given, and the event that a selecting stack binds lies in its window.
pub proof fn lemma_results_carry_on(
    node: NodeShape,
    predicates: Seq<Predicate>,
    bound: Seq<BindingModel>,
    answer: CacheEntryModel,
)
    requires
        node.results(predicates, bound, answer) is Ok,
    ensures
        forall|r: int|
            0 <= r < node.results(predicates, bound, answer).unwrap().len() ==> carries_on(
                #[trigger] node.results(predicates, bound, answer).unwrap()[r],
                bound,
            ),
        forall|r: int|
            0 <= r < node.results(predicates, bound, answer).unwrap().len() ==> match node {
                NodeShape::Stack(stack) => match stack.kind {
                    StackKind::Select(_) => match (
                        window_model(bound, stack.timing),
                        (#[trigger] node.results(predicates, bound, answer).unwrap()[r]).last(),
                    ) {
                        (Ok(window), BindingModel::Event { event, .. }) => window.holds(event.time),
                        _ => false,
                    },
                    _ => true,
                },
                _ => true,
            },
{
    let results = node.results(predicates, bound, answer).unwrap();
    match node {
        NodeShape::Stack(stack) => {
            let window = window_model(bound, stack.timing).unwrap();
            let probe = Probe { predicates, bound, global: stack.global, window };
            match stack.kind {
                StackKind::Select(selection) => {
                    lemma_window_sound(probe, selection, stack.buffer, stack.attributes);
                    assert forall|r: int| 0 <= r < results.len() implies carries_on(
                        #[trigger] results[r],
                        bound,
                    ) && match (window_model(bound, stack.timing), results[r].last()) {
                        (Ok(window), BindingModel::Event { event, .. }) => window.holds(event.time),
                        _ => false,
                    } by {
                        let i = choose|i: int|
                            0 <= i < stack.buffer.len() && results[r] == probe.with_event(
                                stack.buffer[i],
                            ) && probe.window.lower <= stack.buffer[i].1.time < probe.window.upper;
                        assert(results[r].take(bound.len() as int) =~= bound);
                    }
                },
                _ => {
                    assert forall|r: int| 0 <= r < results.len() implies carries_on(
                        #[trigger] results[r],
                        bound,
                    ) by {
                        assert(results[r].take(bound.len() as int) =~= bound);
                    }
                },
            }
        },
        NodeShape::Static { .. } => {
            assert forall|r: int| 0 <= r < results.len() implies carries_on(
                #[trigger] results[r],
                bound,
            ) by {
                assert(results[r].take(bound.len() as int) =~= bound);
            }
        },
    }
}

/// Whether a node makes a partial result of another.
pub open spec fn makes(
    node: NodeShape,
    predicates: Seq<Predicate>,
    bound: Seq<BindingModel>,
    answer: CacheEntryModel,
    result: Seq<BindingModel>,
) -> bool {
    node.results(predicates, bound, answer) is Ok && node.results(
        predicates,
        bound,
        answer,
    ).unwrap().contains(result)
}

/// Whether a node makes a partial result of one of the first `n` of a list.
pub open spec fn makes_of(
    node: NodeShape,
    predicates: Seq<Predicate>,
    inputs: Seq<Seq<BindingModel>>,
    answers: Seq<CacheEntryModel>,
    n: int,
    result: Seq<BindingModel>,
) -> bool {
    exists|i: int| 0 <= i < n && #[trigger] makes(node, predicates, inputs[i], answers[i], result)
}

/// Every partial result that a node makes of a list is one that it makes
/// of a partial result of the list.
pub proof fn lemma_level_members(
    node: NodeShape,
    predicates: Seq<Predicate>,
    inputs: Seq<Seq<BindingModel>>,
    answers: Seq<CacheEntryModel>,
    n: int,
)
    requires
        0 <= n <= inputs.len(),
        n <= answers.len(),
        level_model(node, predicates, inputs, answers, n) is Ok,
    ensures
        forall|r: int|
            0 <= r < level_model(node, predicates, inputs, answers, n).unwrap().len() ==> makes_of(
                node,
                predicates,
                inputs,
                answers,
                n,
                #[trigger] level_model(node, predicates, inputs, answers, n).unwrap()[r],
            ),
    decreases n,
{
    if n > 0 {
        lemma_level_members(node, predicates, inputs, answers, n - 1);
        let all = level_model(node, predicates, inputs, answers, n).unwrap();
        let before = level_model(node, predicates, inputs, answers, n - 1).unwrap();
        let more = node.results(predicates, inputs[n - 1], answers[n - 1]).unwrap();
        assert(all == before + more);
        assert forall|r: int| 0 <= r < all.len() implies makes_of(
            node,
            predicates,
            inputs,
            answers,
            n,
            #[trigger] all[r],
        ) by {
            if r < before.len() {
                assert(all[r] == before[r]);
                assert(makes_of(node, predicates, inputs, answers, n - 1, before[r]));
                let i = choose|i: int|
                    0 <= i < n - 1 && #[trigger] makes(
                        node,
                        predicates,
                        inputs[i],
                        answers[i],
                        before[r],
                    );
                assert(makes(node, predicates, inputs[i], answers[i], all[r]));
            } else {
                assert(more[r - before.len()] == all[r]);
                assert(makes(node, predicates, inputs[n - 1], answers[n - 1], all[r]));
            }
        }
    }
}

/// Time window soundness. Every partial result that the nodes of a rule
/// make holds a binding for the trigger and for every node, and every
/// event that a selecting stack has bound in it lies in the window of the
/// stack: within the bounds that the time constraints give for the
/// bindings before it.
pub proof fn lemma_chain_windows(
    nodes: Seq<NodeShape>,
    predicates: Seq<Predicate>,
    id: u64,
    event: EventModel,
    k: int,
    outcome: Outcomes,
)
    requires
        0 <= k <= nodes.len(),
        reach(nodes, predicates, seed(id, event), k, outcome),
        outcome is Ok,
    ensures
        forall|r: int|
            0 <= r < outcome.unwrap().len() ==> windows_hold(
                nodes,
                #[trigger] outcome.unwrap()[r],
                k,
            ),
    decreases k,
{
    let results = outcome.unwrap();
    if k > 0 {
        let previous = choose|previous: Outcomes|
            reach(nodes, predicates, seed(id, event), k - 1, previous) && #[trigger] follows(
                nodes[k - 1],
                predicates,
                previous,
                outcome,
            );
        let inputs = previous.unwrap();
        lemma_chain_windows(nodes, predicates, id, event, k - 1, previous);
        let node = nodes[k - 1];
        let answers = choose|answers: Seq<CacheEntryModel>|
            answers.len() == inputs.len() && outcome == #[trigger] level_model(
                node,
                predicates,
                inputs,
                answers,
                inputs.len() as int,
            );
        lemma_level_members(node, predicates, inputs, answers, inputs.len() as int);
        assert forall|r: int| 0 <= r < results.len() implies windows_hold(
            nodes,
            #[trigger] results[r],
            k,
        ) by {
            assert(makes_of(node, predicates, inputs, answers, inputs.len() as int, results[r]));
            let i = choose|i: int|
                0 <= i < inputs.len() && #[trigger] makes(
                    node,
                    predicates,
                    inputs[i],
                    answers[i],
                    results[r],
                );
            let bound = inputs[i];
            let result = results[r];
            lemma_results_carry_on(node, predicates, bound, answers[i]);
            let made = node.results(predicates, bound, answers[i]).unwrap();
            let q = choose|q: int| 0 <= q < made.len() && made[q] == result;
            assert(made[q] == result);
            assert(windows_hold(nodes, bound, k - 1));
            assert(carries_on(result, bound));
            assert forall|j: int| 0 <= j < k implies bound_in_window(nodes, result, j) by {
                if j < k - 1 {
                    assert(bound_in_window(nodes, bound, j));
                    assert(result.take(j + 1) =~= bound.take(j + 1));
                    assert(result[j + 1] == result.take(bound.len() as int)[j + 1]);
                } else {
                    assert(result.take(k) == bound);
                    assert(result.last() == result[k]);
                }
            }
        }
    } else {
        assert forall|r: int| 0 <= r < results.len() implies windows_hold(
            nodes,
            #[trigger] results[r],
            k,
        ) by {
            assert(results[r] == seed(id, event)[0]);
        }
    }
}

/// Every partial result for which an event is emitted is one that the
/// nodes have made, and the filters hold for it.
pub proof fn lemma_filter_members(
    predicates: Seq<Predicate>,
    filters: Seq<Expression>,
    results: Seq<Seq<BindingModel>>,
    n: int,
)
    requires
        0 <= n <= results.len(),
        filter_model(predicates, filters, results, n) is Ok,
    ensures
        forall|s: int|
            0 <= s < filter_model(predicates, filters, results, n).unwrap().len() ==> results.take(
                n,
            ).contains(#[trigger] filter_model(predicates, filters, results, n).unwrap()[s])
                && all_hold(
                predicates,
                filter_model(predicates, filters, results, n).unwrap()[s],
                CurrentModel::Empty,
                filters,
                0,
            ) == Ok::<bool, EvalError>(true),
    decreases n,
{
    if n > 0 {
        lemma_filter_members(predicates, filters, results, n - 1);
        let kept = filter_model(predicates, filters, results, n).unwrap();
        let before = filter_model(predicates, filters, results, n - 1).unwrap();
        assert forall|s: int| 0 <= s < kept.len() implies results.take(n).contains(
            #[trigger] kept[s],
        ) && all_hold(predicates, kept[s], CurrentModel::Empty, filters, 0) == Ok::<
            bool,
            EvalError,
        >(true) by {
            if s < before.len() {
                assert(kept[s] == before[s]);
                let shorter = results.take(n - 1);
                let i = choose|i: int| 0 <= i < shorter.len() && #[trigger] shorter[i] == before[s];
                assert(results.take(n)[i] == kept[s]);
            } else {
                assert(results.take(n)[n - 1] == kept[s]);
            }
        }
    }
}

/// Eviction soundness at the trigger. A stack whose window reaches back
/// from the trigger by the longest time that it was given drops, when the
/// trigger comes, no event that could match: it gives for every partial
/// result of the trigger what it would give with all its events.
pub proof fn lemma_eviction_at_trigger(
    stack: StackModel,
    predicates: Seq<Predicate>,
    bound: Seq<BindingModel>,
    answer: CacheEntryModel,
    trigger_time: i64,
    oldest: Seq<i64>,
)
    requires
        stack.timing == (Timing {
            upper: 0,
            bound: TimingBound::Within { window: stack.max_window },
        }),
        oldest.len() > 0,
        oldest[0] == trigger_time,
        time_model(bound, 0) == Ok::<i64, EvalError>(trigger_time),
    ensures
        NodeShape::Stack(stack).evicted(trigger_time, oldest).0.results(predicates, bound, answer)
            == NodeShape::Stack(stack).results(predicates, bound, answer),
{
    let threshold = threshold_model(trigger_time, stack.max_window);
    if trigger_time - stack.max_window < i64::MIN {
        lemma_not_older_all(stack.buffer, stack.buffer.len() as int);
        assert(stack.buffer.take(stack.buffer.len() as int) =~= stack.buffer);
    } else {
        lemma_eviction_sound(stack, predicates, bound, threshold);
    }
}

/// Whether all the nodes are stacks of events.
pub open spec fn event_only(nodes: Seq<NodeShape>) -> bool {
    forall|i: int| 0 <= i < nodes.len() ==> (#[trigger] nodes[i]) is Stack
}

/// What a stack makes of partial results does not depend on the answers of
/// the static data.
pub proof fn lemma_level_stack(
    node: NodeShape,
    predicates: Seq<Predicate>,
    inputs: Seq<Seq<BindingModel>>,
    a: Seq<CacheEntryModel>,
    b: Seq<CacheEntryModel>,
    n: int,
)
    requires
        node is Stack,
    ensures
        level_model(node, predicates, inputs, a, n) == level_model(node, predicates, inputs, b, n),
    decreases n,
{
    if n > 0 {
        lemma_level_stack(node, predicates, inputs, a, b, n - 1);
    }
}

/// Stacks of events make one thing only of a list of partial results.
pub proof fn lemma_reach_functional(
    nodes: Seq<NodeShape>,
    predicates: Seq<Predicate>,
    start: Seq<Seq<BindingModel>>,
    k: int,
    a: Outcomes,
    b: Outcomes,
)
    requires
        event_only(nodes),
        0 <= k <= nodes.len(),
        reach(nodes, predicates, start, k, a),
        reach(nodes, predicates, start, k, b),
    ensures
        a == b,
    decreases k,
{
    if k > 0 {
        let pa = choose|previous: Outcomes|
            reach(nodes, predicates, start, k - 1, previous) && #[trigger] follows(
                nodes[k - 1],
                predicates,
                previous,
                a,
            );
        let pb = choose|previous: Outcomes|
            reach(nodes, predicates, start, k - 1, previous) && #[trigger] follows(
                nodes[k - 1],
                predicates,
                previous,
                b,
            );
        lemma_reach_functional(nodes, predicates, start, k - 1, pa, pb);
        match pa {
            Err(_) => {},
            Ok(inputs) => {
                let xa = choose|answers: Seq<CacheEntryModel>|
                    answers.len() == inputs.len() && a == #[trigger] level_model(
                        nodes[k - 1],
                        predicates,
                        inputs,
                        answers,
                        inputs.len() as int,
                    );
                let xb = choose|answers: Seq<CacheEntryModel>|
                    answers.len() == inputs.len() && b == #[trigger] level_model(
                        nodes[k - 1],
                        predicates,
                        inputs,
                        answers,
                        inputs.len() as int,
                    );
                lemma_level_stack(nodes[k - 1], predicates, inputs, xa, xb, inputs.len() as int);
            },
        }
    }
}

/// Offering an event to stacks leaves stacks.
pub proof fn lemma_offer_event_only(nodes: Seq<NodeShape>, id: u64, event: EventModel, from: int)
    requires
        event_only(nodes),
        0 <= from,
    ensures
        event_only(offer_model(nodes, id, event, from).0),
        offer_model(nodes, id, event, from).0.len() == nodes.len(),
    decreases nodes.len() - from,
{
    if from < nodes.len() {
        match nodes[from].accepts(event) {
            Err(_) => {},
            Ok(true) => {
                let next = nodes.update(from, nodes[from].with_event(id, event));
                assert forall|i: int| 0 <= i < next.len() implies (#[trigger] next[i]) is Stack by {
                    assert(nodes[i] is Stack);
                }
                lemma_offer_event_only(next, id, event, from + 1);
            },
            Ok(false) => {
                lemma_offer_event_only(nodes, id, event, from + 1);
            },
        }
    }
}

/// Dropping the old events of stacks leaves stacks.
pub proof fn lemma_evict_event_only(
    nodes: Seq<NodeShape>,
    trigger_time: i64,
    from: int,
    oldest: Seq<i64>,
)
    requires
        event_only(nodes),
        0 <= from,
    ensures
        event_only(evict_model(nodes, trigger_time, from, oldest)),
        evict_model(nodes, trigger_time, from, oldest).len() == nodes.len(),
    decreases nodes.len() - from,
{
    if from < nodes.len() {
        let (node, first) = nodes[from].evicted(trigger_time, oldest);
        let next = nodes.update(from, node);
        assert forall|i: int| 0 <= i < next.len() implies (#[trigger] next[i]) is Stack by {
            assert(nodes[i] is Stack);
        }
        lemma_evict_event_only(next, trigger_time, from + 1, oldest.push(first));
    }
}

/// The evaluation of a rule without predicates on static data is
/// determined: the events that it emits for an event, and the state that
/// it is left in, depend on nothing but the rule, the state and the event.
pub proof fn lemma_deterministic(
    rule: Rule,
    trigger_ty: usize,
    trigger_constraints: Seq<Expression>,
    before: RuleModel,
    event: EventModel,
    after1: RuleModel,
    outcome1: Result<Seq<EventModel>, EvalError>,
    after2: RuleModel,
    outcome2: Result<Seq<EventModel>, EvalError>,
)
    requires
        event_only(before.nodes),
        process_related(rule, trigger_ty, trigger_constraints, before, event, after1, outcome1),
        process_related(rule, trigger_ty, trigger_constraints, before, event, after2, outcome2),
    ensures
        after1 == after2,
        outcome1 == outcome2,
{
    let id = before.next_id;
    if id != u64::MAX {
        let (offered, admitted) = offer_model(before.nodes, id, event, 0);
        lemma_offer_event_only(before.nodes, id, event, 0);
        if admitted is Ok && accepts(trigger_ty, trigger_constraints, event) == Ok::<
            bool,
            EvalError,
        >(true) {
            let evicted = evict_model(offered, event.time, 0, seq![event.time]);
            lemma_evict_event_only(offered, event.time, 0, seq![event.time]);
            let c1 = choose|chained: Outcomes| #[trigger]
                reach(evicted, rule.predicates@, seed(id, event), evicted.len() as int, chained)
                    && after1 == (RuleModel {
                    nodes: finish_model(rule, evicted, chained, event.time).0,
                    next_id: (id + 1) as u64,
                }) && outcome1 == finish_model(rule, evicted, chained, event.time).1;
            let c2 = choose|chained: Outcomes| #[trigger]
                reach(evicted, rule.predicates@, seed(id, event), evicted.len() as int, chained)
                    && after2 == (RuleModel {
                    nodes: finish_model(rule, evicted, chained, event.time).0,
                    next_id: (id + 1) as u64,
                }) && outcome2 == finish_model(rule, evicted, chained, event.time).1;
            lemma_reach_functional(
                evicted,
                rule.predicates@,
                seed(id, event),
                evicted.len() as int,
                c1,
                c2,
            );
        }
    }
}

/// Taking out of stacks the events that a partial result has bound leaves stacks.
pub proof fn lemma_consume_one_event_only(
    nodes: Seq<NodeShape>,
    consuming: Seq<usize>,
    bound: Seq<BindingModel>,
    c: int,
)
    requires
        event_only(nodes),
    ensures
        event_only(consume_one(nodes, consuming, bound, c)),
        consume_one(nodes, consuming, bound, c).len() == nodes.len(),
    decreases c,
{
    if c > 0 {
        lemma_consume_one_event_only(nodes, consuming, bound, c - 1);
        let before = consume_one(nodes, consuming, bound, c - 1);
        let after = consume_one(nodes, consuming, bound, c);
        assert forall|i: int| 0 <= i < after.len() implies (#[trigger] after[i]) is Stack by {
            assert(before[i] is Stack);
        }
    }
}

/// Taking out of stacks the events that partial results have bound leaves stacks.
pub proof fn lemma_consume_event_only(
    nodes: Seq<NodeShape>,
    consuming: Seq<usize>,
    results: Seq<Seq<BindingModel>>,
    n: int,
)
    requires
        event_only(nodes),
    ensures
        event_only(consume_model(nodes, consuming, results, n)),
        consume_model(nodes, consuming, results, n).len() == nodes.len(),
    decreases n,
{
    if n > 0 {
        lemma_consume_event_only(nodes, consuming, results, n - 1);
        lemma_consume_one_event_only(
            consume_model(nodes, consuming, results, n - 1),
            consuming,
            results[n - 1],
            consuming.len() as int,
        );
    }
}

/// The evaluation of a rule without predicates on static data leaves the
/// rule without such predicates, and with as many nodes as it had.
pub proof fn lemma_process_event_only(
    rule: Rule,
    trigger_ty: usize,
    trigger_constraints: Seq<Expression>,
    before: RuleModel,
    event: EventModel,
    after: RuleModel,
    outcome: Result<Seq<EventModel>, EvalError>,
)
    requires
        event_only(before.nodes),
        process_related(rule, trigger_ty, trigger_constraints, before, event, after, outcome),
    ensures
        event_only(after.nodes),
        after.nodes.len() == before.nodes.len(),
{
    let id = before.next_id;
    if id != u64::MAX {
        let (offered, admitted) = offer_model(before.nodes, id, event, 0);
        lemma_offer_event_only(before.nodes, id, event, 0);
        if admitted is Ok && accepts(trigger_ty, trigger_constraints, event) == Ok::<
            bool,
            EvalError,
        >(true) {
            let evicted = evict_model(offered, event.time, 0, seq![event.time]);
            lemma_evict_event_only(offered, event.time, 0, seq![event.time]);
            let chained = choose|chained: Outcomes| #[trigger]
                reach(evicted, rule.predicates@, seed(id, event), evicted.len() as int, chained)
                    && after == (RuleModel {
                    nodes: finish_model(rule, evicted, chained, event.time).0,
                    next_id: (id + 1) as u64,
                }) && outcome == finish_model(rule, evicted, chained, event.time).1;
            if finish_model(rule, evicted, chained, event.time).1 is Ok {
                let survivors = filter_model(
                    rule.predicates@,
                    rule.filters@,
                    chained.unwrap(),
                    chained.unwrap().len() as int,
                ).unwrap();
                lemma_consume_event_only(
                    evicted,
                    rule.consuming@,
                    survivors,
                    survivors.len() as int,
                );
            }
        }
    }
}

/// The states of nodes.
pub open spec fn shapes<C: Cache<K = CacheKey, V = CacheEntry>, F: Fetcher<CacheKey, CacheEntry>>(
    nodes: Seq<Node<C, F>>,
) -> Seq<NodeShape> {
    Seq::new(nodes.len(), |i: int| nodes[i].shape())
}

/// Whether all the nodes are in order.
pub open spec fn all_wf<C: Cache<K = CacheKey, V = CacheEntry>, F: Fetcher<CacheKey, CacheEntry>>(
    nodes: Seq<Node<C, F>>,
) -> bool {
    forall|i: int| 0 <= i < nodes.len() ==> (#[trigger] nodes[i]).wf()
}

/// An error among the first partial results is the error of the level.
pub proof fn lemma_level_error(
    node: NodeShape,
    predicates: Seq<Predicate>,
    inputs: Seq<Seq<BindingModel>>,
    answers: Seq<CacheEntryModel>,
    n: int,
    m: int,
)
    requires
        0 <= n <= m,
        level_model(node, predicates, inputs, answers, n) is Err,
    ensures
        level_model(node, predicates, inputs, answers, m) == level_model(
            node,
            predicates,
            inputs,
            answers,
            n,
        ),
    decreases m - n,
{
    if n < m {
        lemma_level_error(node, predicates, inputs, answers, n, m - 1);
    }
}

/// What a node makes of the first `n` partial results depends on the
/// answers for these only.
pub proof fn lemma_level_answers(
    node: NodeShape,
    predicates: Seq<Predicate>,
    inputs: Seq<Seq<BindingModel>>,
    a: Seq<CacheEntryModel>,
    b: Seq<CacheEntryModel>,
    n: int,
)
    requires
        forall|i: int| 0 <= i < n ==> a[i] == b[i],
    ensures
        level_model(node, predicates, inputs, a, n) == level_model(node, predicates, inputs, b, n),
    decreases n,
{
    if n > 0 {
        lemma_level_answers(node, predicates, inputs, a, b, n - 1);
    }
}

/// An error that the first nodes have reached is the error of the chain.
pub proof fn lemma_reach_error(
    nodes: Seq<NodeShape>,
    predicates: Seq<Predicate>,
    start: Seq<Seq<BindingModel>>,
    k: int,
    m: int,
    error: EvalError,
)
    requires
        0 <= k <= m,
        reach(nodes, predicates, start, k, Err(error)),
    ensures
        reach(nodes, predicates, start, m, Err(error)),
    decreases m - k,
{
    if k < m {
        lemma_reach_error(nodes, predicates, start, k, m - 1, error);
        let previous: Outcomes = Err(error);
        assert(follows(nodes[m - 1], predicates, previous, Err(error)));
    }
}

/// An error among the first partial results is the error of the filtering.
pub proof fn lemma_filter_error(
    predicates: Seq<Predicate>,
    filters: Seq<Expression>,
    results: Seq<Seq<BindingModel>>,
    n: int,
    m: int,
)
    requires
        0 <= n <= m,
        filter_model(predicates, filters, results, n) is Err,
    ensures
        filter_model(predicates, filters, results, m) == filter_model(
            predicates,
            filters,
            results,
            n,
        ),
    decreases m - n,
{
    if n < m {
        lemma_filter_error(predicates, filters, results, n, m - 1);
    }
}

/// An error among the first attributes is the error of the values.
pub proof fn lemma_values_error(
    predicates: Seq<Predicate>,
    bound: Seq<BindingModel>,
    attributes: Seq<Expression>,
    n: int,
    m: int,
)
    requires
        0 <= n <= m,
        values_model(predicates, bound, attributes, n) is Err,
    ensures
        values_model(predicates, bound, attributes, m) == values_model(
            predicates,
            bound,
            attributes,
            n,
        ),
    decreases m - n,
{
    if n < m {
        lemma_values_error(predicates, bound, attributes, n, m - 1);
    }
}

/// An error among the first partial results is the error of the rendering.
pub proof fn lemma_render_error(
    predicates: Seq<Predicate>,
    template: EventTemplate,
    results: Seq<Seq<BindingModel>>,
    time: i64,
    n: int,
    m: int,
)
    requires
        0 <= n <= m,
        render_model(predicates, template, results, time, n) is Err,
    ensures
        render_model(predicates, template, results, time, m) == render_model(
            predicates,
            template,
            results,
            time,
            n,
        ),
    decreases m - n,
{
    if n < m {
        lemma_render_error(predicates, template, results, time, n, m - 1);
    }
}

/// The evaluation of one rule: the trigger and, for every predicate after
/// it, the node that evaluates it.
pub struct RuleStacks<C: Cache<K = CacheKey, V = CacheEntry>, F: Fetcher<CacheKey, CacheEntry>> {
    rule: Rule,
    trigger: Trigger,
    nodes: Vec<Node<C, F>>,
    next_id: u64,
}

impl<C: Cache<K = CacheKey, V = CacheEntry>, F: Fetcher<CacheKey, CacheEntry>> RuleStacks<C, F> {
    /// The rule.
    pub closed spec fn rule(&self) -> Rule {
        self.rule
    }

    /// The trigger of the rule.
    pub closed spec fn trigger(&self) -> Trigger {
        self.trigger
    }

    /// The state of the evaluation.
    pub closed spec fn model(&self) -> RuleModel {
        RuleModel { nodes: shapes(self.nodes@), next_id: self.next_id }
    }

    /// Whether the nodes are in order.
    pub closed spec fn wf(&self) -> bool {
        all_wf(self.nodes@)
    }

    /// The evaluation of a rule with the given trigger and the given nodes
    /// for the predicates after it. The longest times that the windows of
    /// the stacks reach back are set in one sweep over the nodes.
    pub fn new(trigger: Trigger, nodes: Vec<Node<C, F>>, rule: Rule) -> (stacks: RuleStacks<C, F>)
        requires
            all_wf(nodes@),
        ensures
            stacks.wf(),
            stacks.rule() == rule,
            stacks.trigger() == trigger,
            stacks.model() == (RuleModel {
                nodes: windows_model(shapes(nodes@), 0, Seq::empty()),
                next_id: 0,
            }),
    {
        let ghost start = shapes(nodes@);
        let mut nodes = nodes;
        let mut windows: Vec<i64> = Vec::new();
        let mut k: usize = 0;
        while k < nodes.len()
            invariant
                k <= nodes.len(),
                all_wf(nodes@),
                windows_model(start, 0, Seq::empty()) == windows_model(
                    shapes(nodes@),
                    k as int,
                    windows@,
                ),
            decreases nodes.len() - k,
        {
            let ghost before = nodes@;
            assert(shapes(before)[k as int] == before[k as int].shape());
            let window = nodes[k].max_window(&windows);
            nodes[k].set_max_window(window);
            proof {
                let after = nodes@;
                assert forall|i: int| 0 <= i < after.len() && i != k implies after[i]
                    == before[i] by {}
                assert(shapes(after) =~= shapes(before).update(
                    k as int,
                    shapes(before)[k as int].windowed(window),
                ));
            }
            windows.push(window);
            k += 1;
        }
        RuleStacks { rule, trigger, nodes, next_id: 0 }
    }

    /// The rule.
    pub fn get_rule(&self) -> (rule: &Rule)
        ensures
            *rule == self.rule(),
    {
        &self.rule
    }

    /// Evaluates the rule for an event, and gives the events that it emits;
    /// see `process_related`.
    pub fn process(&mut self, event: &Arc<Event>) -> (events: Result<Vec<Arc<Event>>, EvalError>)
        requires
            old(self).wf(),
        ensures
            final(self).wf(),
            final(self).rule() == old(self).rule(),
            final(self).trigger() == old(self).trigger(),
            process_related(
                old(self).rule(),
                old(self).trigger().ty_id(),
                old(self).trigger().constraints(),
                old(self).model(),
                event.deep_view(),
                final(self).model(),
                emitted(events),
            ),
    {
        let id = self.next_id;
        if id == u64::MAX {
            return Err(EvalError::Overflow);
        }
        let ghost before = self.model();
        let admitted = self.offer(id, event);
        self.next_id = id + 1;
        match admitted {
            Err(error) => {
                return Err(error);
            },
            Ok(_) => {},
        }
        match self.trigger.is_satisfied(event) {
            Err(error) => {
                return Err(error);
            },
            Ok(false) => {
                let none: Vec<Arc<Event>> = Vec::new();
                assert(none.deep_view() =~= Seq::<EventModel>::empty());
                return Ok(none);
            },
            Ok(true) => {},
        }
        self.remove_old_events(event.time);
        let ghost evicted = shapes(self.nodes@);
        let mut start: Vec<PartialResult> = Vec::new();
        start.push(PartialResult::with_trigger(id, event));
        assert(start.deep_view() =~= seed(id, event.deep_view()));
        let chained = self.chain(start);
        let ghost outcome = choose|outcome: Outcomes|
            made(chained, outcome) && #[trigger] reach(
                evicted,
                self.rule.predicates@,
                seed(id, event.deep_view()),
                evicted.len() as int,
                outcome,
            );
        assert(shapes(self.nodes@).len() == self.nodes@.len());
        let results = match chained {
            Err(error) => {
                return Err(error);
            },
            Ok(results) => results,
        };
        let survivors = match self.filter(results) {
            Err(error) => {
                return Err(error);
            },
            Ok(survivors) => survivors,
        };
        let events = match self.render(&survivors, event.time) {
            Err(error) => {
                return Err(error);
            },
            Ok(events) => events,
        };
        self.consume(&survivors);
        Ok(events)
    }

    fn offer(&mut self, id: u64, event: &Arc<Event>) -> (admitted: Result<(), EvalError>)
        requires
            old(self).wf(),
        ensures
            final(self).wf(),
            final(self).rule == old(self).rule,
            final(self).trigger == old(self).trigger,
            final(self).next_id == old(self).next_id,
            (shapes(final(self).nodes@), admitted) == offer_model(
                shapes(old(self).nodes@),
                id,
                event.deep_view(),
                0,
            ),
    {
        let ghost start = shapes(self.nodes@);
        let mut k: usize = 0;
        while k < self.nodes.len()
            invariant
                k <= self.nodes.len(),
                all_wf(self.nodes@),
                self.rule == old(self).rule,
                self.trigger == old(self).trigger,
                self.next_id == old(self).next_id,
                start == shapes(old(self).nodes@),
                offer_model(start, id, event.deep_view(), 0) == offer_model(
                    shapes(self.nodes@),
                    id,
                    event.deep_view(),
                    k as int,
                ),
            decreases self.nodes.len() - k,
        {
            let ghost before = self.nodes@;
            assert(shapes(before)[k as int] == before[k as int].shape());
            let taken = self.nodes[k].process(id, event);
            proof {
                let after = self.nodes@;
                assert(after.len() == before.len());
                assert forall|i: int| 0 <= i < after.len() && i != k implies after[i]
                    == before[i] by {}
                if taken == Ok::<bool, EvalError>(true) {
                    assert(shapes(after) =~= shapes(before).update(
                        k as int,
                        shapes(before)[k as int].with_event(id, event.deep_view()),
                    ));
                } else {
                    assert(shapes(after) =~= shapes(before));
                }
            }
            match taken {
                Err(error) => {
                    return Err(error);
                },
                Ok(_) => {},
            }
            k += 1;
        }
        Ok(())
    }

    fn remove_old_events(&mut self, trigger_time: i64)
        requires
            old(self).wf(),
        ensures
            final(self).wf(),
            final(self).rule == old(self).rule,
            final(self).trigger == old(self).trigger,
            final(self).next_id == old(self).next_id,
            shapes(final(self).nodes@) == evict_model(
                shapes(old(self).nodes@),
                trigger_time,
                0,
                seq![trigger_time],
            ),
    {
        let ghost start = shapes(self.nodes@);
        let mut oldest: Vec<i64> = Vec::new();
        oldest.push(trigger_time);
        assert(oldest@ =~= seq![trigger_time]);
        let mut k: usize = 0;
        while k < self.nodes.len()
            invariant
                k <= self.nodes.len(),
                all_wf(self.nodes@),
                self.rule == old(self).rule,
                self.trigger == old(self).trigger,
                self.next_id == old(self).next_id,
                evict_model(start, trigger_time, 0, seq![trigger_time]) == evict_model(
                    shapes(self.nodes@),
                    trigger_time,
                    k as int,
                    oldest@,
                ),
            decreases self.nodes.len() - k,
        {
            let ghost before = self.nodes@;
            assert(shapes(before)[k as int] == before[k as int].shape());
            let first = self.nodes[k].remove_old_events(trigger_time, &oldest);
            proof {
                let after = self.nodes@;
                assert forall|i: int| 0 <= i < after.len() && i != k implies after[i]
                    == before[i] by {}
                assert(shapes(after) =~= shapes(before).update(
                    k as int,
                    shapes(before)[k as int].evicted(trigger_time, oldest@).0,
                ));
            }
            oldest.push(first);
            k += 1;
        }
    }

    fn consume(&mut self, survivors: &Vec<PartialResult>)
        requires
            old(self).wf(),
        ensures
            final(self).wf(),
            final(self).rule == old(self).rule,
            final(self).trigger == old(self).trigger,
            final(self).next_id == old(self).next_id,
            shapes(final(self).nodes@) == consume_model(
                shapes(old(self).nodes@),
                old(self).rule.consuming@,
                survivors.deep_view(),
                survivors.len() as int,
            ),
    {
        let ghost start = shapes(self.nodes@);
        let ghost consuming = self.rule.consuming@;
        let mut r: usize = 0;
        while r < survivors.len()
            invariant
                r <= survivors.len(),
                all_wf(self.nodes@),
                self.rule == old(self).rule,
                self.trigger == old(self).trigger,
                self.next_id == old(self).next_id,
                consuming == self.rule.consuming@,
                shapes(self.nodes@) == consume_model(
                    start,
                    consuming,
                    survivors.deep_view(),
                    r as int,
                ),
            decreases survivors.len() - r,
        {
            let ghost level = shapes(self.nodes@);
            let ghost bound = survivors.deep_view()[r as int];
            assert(bound == survivors@[r as int].deep_view());
            let mut c: usize = 0;
            while c < self.rule.consuming.len()
                invariant
                    c <= self.rule.consuming.len(),
                    r < survivors.len(),
                    all_wf(self.nodes@),
                    self.rule == old(self).rule,
                    self.trigger == old(self).trigger,
                    self.next_id == old(self).next_id,
                    consuming == self.rule.consuming@,
                    bound == survivors@[r as int].deep_view(),
                    shapes(self.nodes@) == consume_one(level, consuming, bound, c as int),
                decreases self.rule.consuming.len() - c,
            {
                let idx = self.rule.consuming[c];
                if 1 <= idx && idx <= self.nodes.len() {
                    let found = match survivors[r].get(idx) {
                        Some(Binding::Event { id, .. }) => Some(*id),
                        _ => None,
                    };
                    if let Some(id) = found {
                        let ghost before = self.nodes@;
                        assert(shapes(before)[idx - 1] == before[idx - 1].shape());
                        self.nodes[idx - 1].consume(id);
                        proof {
                            let after = self.nodes@;
                            assert forall|i: int|
                                0 <= i < after.len() && i != idx - 1 implies after[i]
                                == before[i] by {}
                            assert(shapes(after) =~= shapes(before).update(
                                idx - 1,
                                shapes(before)[idx - 1].consumed(id),
                            ));
                        }
                    }
                }
                c += 1;
            }
            r += 1;
        }
    }

    fn level(&mut self, k: usize, inputs: &Vec<PartialResult>) -> (results: Result<
        Vec<PartialResult>,
        EvalError,
    >)
        requires
            old(self).wf(),
            k < old(self).nodes@.len(),
        ensures
            final(self).wf(),
            final(self).rule == old(self).rule,
            final(self).trigger == old(self).trigger,
            final(self).next_id == old(self).next_id,
            shapes(final(self).nodes@) == shapes(old(self).nodes@),
            exists|outcome: Outcomes|
                made(results, outcome) && #[trigger] level_related(
                    shapes(old(self).nodes@)[k as int],
                    old(self).rule.predicates@,
                    inputs.deep_view(),
                    outcome,
                ),
    {
        let ghost node = shapes(self.nodes@)[k as int];
        let ghost predicates = self.rule.predicates@;
        let ghost all = shapes(self.nodes@);
        let ghost mut answers: Seq<CacheEntryModel> = Seq::empty();
        let mut list: Vec<PartialResult> = Vec::new();
        let mut i: usize = 0;
        assert(list.deep_view() =~= Seq::<Seq<BindingModel>>::empty());
        while i < inputs.len()
            invariant
                i <= inputs.len(),
                k < self.nodes@.len(),
                all_wf(self.nodes@),
                self.rule == old(self).rule,
                self.trigger == old(self).trigger,
                self.next_id == old(self).next_id,
                predicates == self.rule.predicates@,
                all == shapes(old(self).nodes@),
                shapes(self.nodes@) == all,
                node == all[k as int],
                answers.len() == i,
                forall|j: int|
                    0 <= j < i ==> node.may_answer(
                        predicates,
                        #[trigger] inputs.deep_view()[j],
                        answers[j],
                    ),
                level_model(node, predicates, inputs.deep_view(), answers, i as int) == Ok::<
                    Seq<Seq<BindingModel>>,
                    EvalError,
                >(list.deep_view()),
            decreases inputs.len() - i,
        {
            let ghost before = self.nodes@;
            assert(shapes(before)[k as int] == before[k as int].shape());
            assert(inputs.deep_view()[i as int] == inputs@[i as int].deep_view());
            let part = self.nodes[k].evaluate(&self.rule.predicates, &inputs[i]);
            let ghost answer = choose|answer: CacheEntryModel|
                made(
                    part,
                    #[trigger] node.results(predicates, inputs@[i as int].deep_view(), answer),
                ) && node.may_answer(predicates, inputs@[i as int].deep_view(), answer);
            proof {
                let after = self.nodes@;
                assert forall|j: int| 0 <= j < after.len() && j != k implies after[j]
                    == before[j] by {}
                assert(shapes(after) =~= shapes(before));
                let grown = answers.push(answer);
                lemma_level_answers(node, predicates, inputs.deep_view(), answers, grown, i as int);
                answers = grown;
            }
            match part {
                Err(error) => {
                    proof {
                        let padded = answers + Seq::new(
                            (inputs.len() - i - 1) as nat,
                            |j: int| answer,
                        );
                        lemma_level_answers(
                            node,
                            predicates,
                            inputs.deep_view(),
                            answers,
                            padded,
                            i as int + 1,
                        );
                        lemma_level_error(
                            node,
                            predicates,
                            inputs.deep_view(),
                            padded,
                            i as int + 1,
                            inputs.len() as int,
                        );
                        let outcome: Outcomes = Err(error);
                        assert(outcome == level_model(
                            node,
                            predicates,
                            inputs.deep_view(),
                            padded,
                            inputs.len() as int,
                        ));
                        assert forall|j: int|
                            0 <= j < inputs.deep_view().len() && j < padded.len() && level_model(
                                node,
                                predicates,
                                inputs.deep_view(),
                                padded,
                                j,
                            ) is Ok implies node.may_answer(
                            predicates,
                            #[trigger] inputs.deep_view()[j],
                            padded[j],
                        ) by {
                            if j <= i {
                                assert(padded[j] == answers[j]);
                            } else {
                                lemma_level_error(
                                    node,
                                    predicates,
                                    inputs.deep_view(),
                                    padded,
                                    i as int + 1,
                                    j,
                                );
                            }
                        }
                        assert(sourced(node, predicates, inputs.deep_view(), padded));
                        assert(level_related(node, predicates, inputs.deep_view(), outcome));
                    }
                    return Err(error);
                },
                Ok(more) => {
                    let ghost sofar = list.deep_view();
                    let ghost added = more.deep_view();
                    let mut more = more;
                    list.append(&mut more);
                    assert(list.deep_view() =~= sofar + added);
                },
            }
            i += 1;
        }
        proof {
            let outcome: Outcomes = Ok(list.deep_view());
            assert(outcome == level_model(
                node,
                predicates,
                inputs.deep_view(),
                answers,
                inputs.len() as int,
            ));
            assert(sourced(node, predicates, inputs.deep_view(), answers));
            assert(level_related(node, predicates, inputs.deep_view(), outcome));
        }
        Ok(list)
    }

    fn chain(&mut self, start: Vec<PartialResult>) -> (results: Result<
        Vec<PartialResult>,
        EvalError,
    >)
        requires
            old(self).wf(),
        ensures
            final(self).wf(),
            final(self).rule == old(self).rule,
            final(self).trigger == old(self).trigger,
            final(self).next_id == old(self).next_id,
            shapes(final(self).nodes@) == shapes(old(self).nodes@),
            exists|outcome: Outcomes|
                made(results, outcome) && #[trigger] reach(
                    shapes(old(self).nodes@),
                    old(self).rule.predicates@,
                    start.deep_view(),
                    old(self).nodes@.len() as int,
                    outcome,
                ),
    {
        let ghost all = shapes(self.nodes@);
        let ghost predicates = self.rule.predicates@;
        let ghost seed = start.deep_view();
        let mut current = start;
        let mut k: usize = 0;
        while k < self.nodes.len()
            invariant
                k <= self.nodes.len(),
                all_wf(self.nodes@),
                self.rule == old(self).rule,
                self.trigger == old(self).trigger,
                self.next_id == old(self).next_id,
                predicates == self.rule.predicates@,
                all == shapes(old(self).nodes@),
                shapes(self.nodes@) == all,
                self.nodes@.len() == old(self).nodes@.len(),
                seed == start.deep_view(),
                reach(all, predicates, seed, k as int, Ok(current.deep_view())),
            decreases self.nodes.len() - k,
        {
            let ghost inputs = current.deep_view();
            let next = self.level(k, &current);
            proof {
                let outcome = choose|outcome: Outcomes|
                    made(next, outcome) && #[trigger] level_related(
                        all[k as int],
                        predicates,
                        inputs,
                        outcome,
                    );
                let previous: Outcomes = Ok(inputs);
                let after = k as int + 1;
                assert(all[after - 1] == all[k as int]);
                assert(reach(all, predicates, seed, after - 1, previous));
                assert(follows(all[after - 1], predicates, previous, outcome));
                assert(reach(all, predicates, seed, after, outcome));
                assert(shapes(self.nodes@).len() == self.nodes@.len());
                if let Err(error) = next {
                    lemma_reach_error(
                        all,
                        predicates,
                        seed,
                        k as int + 1,
                        self.nodes@.len() as int,
                        error,
                    );
                    let failed: Outcomes = Err(error);
                    assert(made(next, failed) && reach(
                        all,
                        predicates,
                        seed,
                        old(self).nodes@.len() as int,
                        failed,
                    ));
                }
            }
            match next {
                Err(error) => {
                    return Err(error);
                },
                Ok(made) => {
                    current = made;
                },
            }
            k += 1;
        }
        Ok(current)
    }

    fn filter(&self, results: Vec<PartialResult>) -> (survivors: Result<
        Vec<PartialResult>,
        EvalError,
    >)
        ensures
            made(
                survivors,
                filter_model(
                    self.rule.predicates@,
                    self.rule.filters@,
                    results.deep_view(),
                    results.len() as int,
                ),
            ),
    {
        let ghost all = results.deep_view();
        let mut kept: Vec<PartialResult> = Vec::new();
        let mut rest = results;
        let mut taken: Vec<PartialResult> = Vec::new();
        let mut i: usize = 0;
        assert(kept.deep_view() =~= Seq::<Seq<BindingModel>>::empty());
        while i < rest.len()
            invariant
                i <= rest.len(),
                all == rest.deep_view(),
                all == results.deep_view(),
                rest.len() == results.len(),
                filter_model(self.rule.predicates@, self.rule.filters@, all, i as int) == Ok::<
                    Seq<Seq<BindingModel>>,
                    EvalError,
                >(kept.deep_view()),
            decreases rest.len() - i,
        {
            assert(all[i as int] == rest@[i as int].deep_view());
            let context = CompleteContext::new(
                &self.rule.predicates,
                &rest[i],
                CurrentValue::Empty,
            );
            match context.check_all(&self.rule.filters) {
                Err(error) => {
                    proof {
                        lemma_filter_error(
                            self.rule.predicates@,
                            self.rule.filters@,
                            all,
                            i as int + 1,
                            rest.len() as int,
                        );
                    }
                    return Err(error);
                },
                Ok(true) => {
                    let ghost before = kept.deep_view();
                    kept.push(rest[i].clone());
                    assert(kept.deep_view() =~= before.push(all[i as int]));
                },
                Ok(false) => {},
            }
            i += 1;
        }
        Ok(kept)
    }

    fn render_one(&self, result: &PartialResult, time: i64) -> (event: Result<Arc<Event>, EvalError>)
        ensures
            match event {
                Ok(e) => values_model(
                    self.rule.predicates@,
                    result.deep_view(),
                    self.rule.event_template.attributes@,
                    self.rule.event_template.attributes@.len() as int,
                ) == Ok::<Seq<ValueModel>, EvalError>(e.deep_view().tuple.data) && e.deep_view().time
                    == time && e.deep_view().tuple.ty_id == self.rule.event_template.ty_id,
                Err(error) => values_model(
                    self.rule.predicates@,
                    result.deep_view(),
                    self.rule.event_template.attributes@,
                    self.rule.event_template.attributes@.len() as int,
                ) == Err::<Seq<ValueModel>, EvalError>(error),
            },
    {
        let attributes = &self.rule.event_template.attributes;
        let context = CompleteContext::new(&self.rule.predicates, result, CurrentValue::Empty);
        let mut data: Vec<Value> = Vec::new();
        let mut i: usize = 0;
        assert(data.deep_view() =~= Seq::<ValueModel>::empty());
        while i < attributes.len()
            invariant
                i <= attributes.len(),
                attributes@ == self.rule.event_template.attributes@,
                context.predicates() == self.rule.predicates@,
                context.bound() == result.deep_view(),
                context.current() == CurrentModel::Empty,
                values_model(self.rule.predicates@, result.deep_view(), attributes@, i as int)
                    == Ok::<Seq<ValueModel>, EvalError>(data.deep_view()),
            decreases attributes.len() - i,
        {
            match context.evaluate_expression(&attributes[i]) {
                Err(error) => {
                    proof {
                        lemma_values_error(
                            self.rule.predicates@,
                            result.deep_view(),
                            attributes@,
                            i as int + 1,
                            attributes.len() as int,
                        );
                    }
                    return Err(error);
                },
                Ok(value) => {
                    let ghost before = data.deep_view();
                    data.push(value);
                    assert(data.deep_view() =~= before.push(value.deep_view()));
                },
            }
            i += 1;
        }
        Ok(Arc::new(Event { tuple: Tuple { ty_id: self.rule.event_template.ty_id, data }, time }))
    }

    fn render(&self, survivors: &Vec<PartialResult>, time: i64) -> (events: Result<
        Vec<Arc<Event>>,
        EvalError,
    >)
        ensures
            match events {
                Ok(list) => render_model(
                    self.rule.predicates@,
                    self.rule.event_template,
                    survivors.deep_view(),
                    time,
                    survivors.len() as int,
                ) == Ok::<Seq<EventModel>, EvalError>(list.deep_view()),
                Err(error) => render_model(
                    self.rule.predicates@,
                    self.rule.event_template,
                    survivors.deep_view(),
                    time,
                    survivors.len() as int,
                ) == Err::<Seq<EventModel>, EvalError>(error),
            },
    {
        let mut list: Vec<Arc<Event>> = Vec::new();
        let mut i: usize = 0;
        assert(list.deep_view() =~= Seq::<EventModel>::empty());
        while i < survivors.len()
            invariant
                i <= survivors.len(),
                render_model(
                    self.rule.predicates@,
                    self.rule.event_template,
                    survivors.deep_view(),
                    time,
                    i as int,
                ) == Ok::<Seq<EventModel>, EvalError>(list.deep_view()),
            decreases survivors.len() - i,
        {
            assert(survivors.deep_view()[i as int] == survivors@[i as int].deep_view());
            match self.render_one(&survivors[i], time) {
                Err(error) => {
                    proof {
                        lemma_render_error(
                            self.rule.predicates@,
                            self.rule.event_template,
                            survivors.deep_view(),
                            time,
                            i as int + 1,
                            survivors.len() as int,
                        );
                    }
                    return Err(error);
                },
                Ok(event) => {
                    let ghost before = list.deep_view();
                    list.push(event);
                    assert(list.deep_view() =~= before.push(event.deep_view()));
                },
            }
            i += 1;
        }
        Ok(list)
    }
}

} // verus!

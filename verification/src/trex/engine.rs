//! The engine: it keeps the declared tuples, the rules and the
//! subscriptions, and it hands every event to the listeners that are
//! interested in it and to the rules that refer to its tuple.

use crate::tesla::expressions::Expression;
use crate::tesla::{Event, EventModel, Rule, SubscrFilter, TupleDeclaration};
use crate::trex::expressions::{all_hold_local, SimpleContext};
use crate::trex::operations::EvalError;
use crate::trex::providers::{provided, GeneralProvider, NodeProvider};
use crate::trex::rule_checks::{check_model, check_rule};
use crate::trex::rule_processor::{
    emitted,
    event_only,
    lemma_deterministic,
    lemma_process_event_only,
    process_related,
    RuleModel,
    RuleStacks,
};
use crate::trex::types::TypeError;
use std::collections::HashMap;
use std::sync::Arc;
use vstd::prelude::*;

verus! {

/// Why the engine refuses a declaration or a rule.
#[derive(Clone, Copy, Debug, PartialEq, Eq, Structural)]
pub enum EngineError {
    /// A tuple with the id is declared already.
    AlreadyDeclared,
    /// The rule is not well typed.
    Refused(TypeError),
    /// The rule has no predicates, or a predicate that no provider offers
    /// a node for, or the engine can hold no more rules.
    NoNode,
}

/// An event that a listener is to receive.
#[derive(Debug)]
pub struct Delivery {
    /// The id of the subscription.
    pub listener: usize,
    /// The event.
    pub event: Arc<Event>,
}

impl DeepView for Delivery {
    type V = (usize, EventModel);

    open spec fn deep_view(&self) -> (usize, EventModel) {
        (self.listener, self.event.deep_view())
    }
}

/// The failure of the evaluation of a rule.
#[derive(Clone, Copy, Debug, PartialEq, Eq, Structural)]
pub struct Failure {
    /// The index of the rule.
    pub rule: usize,
    /// The reason.
    pub error: EvalError,
}

/// What the engine did with one event.
#[derive(Debug)]
pub struct Dispatch {
    /// The ids of the subscriptions that are to receive the event, in the
    /// order in which they were made.
    pub deliveries: Vec<usize>,
    /// The events that the rules have emitted, in the order of the rules.
    pub produced: Vec<Arc<Event>>,
    /// The rules whose evaluation has failed.
    pub failures: Vec<Failure>,
}

/// What the engine did with an event and with the events that followed from it.
#[derive(Debug)]
pub struct Report {
    /// The events that listeners are to receive, in their order.
    pub deliveries: Vec<Delivery>,
    /// The rules whose evaluation has failed.
    pub failures: Vec<Failure>,
    /// The number of emitted events that were not published, because they
    /// followed from too long a chain of emitted events.
    pub dropped: usize,
}

/// Whether a subscription is interested in an event.
pub open spec fn interested(filter: SubscrFilter, event: EventModel) -> bool {
    match filter {
        SubscrFilter::Any => true,
        SubscrFilter::Topic { ty } => ty == event.tuple.ty_id,
        SubscrFilter::Content { ty, filters } => ty == event.tuple.ty_id && all_hold_local(
            event.tuple,
            filters@,
            0,
        ) == Ok::<bool, EvalError>(true),
    }
}

/// Whether a subscription is interested in an event: in every event, in
/// the events of one tuple, or in those of them for which its filters hold.
/// Filters that cannot be evaluated for the event do not hold.
pub fn is_interested(filter: &SubscrFilter, event: &Arc<Event>) -> (accepted: bool)
    ensures
        accepted == interested(*filter, event.deep_view()),
{
    match filter {
        SubscrFilter::Any => true,
        SubscrFilter::Topic { ty } => *ty == event.tuple.ty_id,
        SubscrFilter::Content { ty, filters } => {
            if *ty != event.tuple.ty_id {
                false
            } else {
                match SimpleContext::new(&event.tuple).check_all(filters) {
                    Ok(true) => true,
                    _ => false,
                }
            }
        },
    }
}

/// The ids of the first `n` subscriptions that are interested in an event,
/// in their order.
pub open spec fn notified(listeners: Seq<(usize, SubscrFilter)>, event: EventModel, n: int) -> Seq<
    usize,
>
    decreases n,
{
    if n <= 0 {
        Seq::empty()
    } else if interested(listeners[n - 1].1, event) {
        notified(listeners, event, n - 1).push(listeners[n - 1].0)
    } else {
        notified(listeners, event, n - 1)
    }
}

/// The subscriptions but the one with the given id.
pub open spec fn unsubscribed(listeners: Seq<(usize, SubscrFilter)>, id: usize, n: int) -> Seq<
    (usize, SubscrFilter),
>
    decreases n,
{
    if n <= 0 {
        Seq::empty()
    } else if listeners[n - 1].0 != id {
        unsubscribed(listeners, id, n - 1).push(listeners[n - 1])
    } else {
        unsubscribed(listeners, id, n - 1)
    }
}

/// The declared tuples once one more is declared, and whether it is
/// taken: a tuple whose id is declared already is refused.
pub open spec fn declare_model(tuples: Map<usize, TupleDeclaration>, tuple: TupleDeclaration) -> (
    Map<usize, TupleDeclaration>,
    Result<(), EngineError>,
) {
    if tuples.contains_key(tuple.id) {
        (tuples, Err(EngineError::AlreadyDeclared))
    } else {
        (tuples.insert(tuple.id, tuple), Ok(()))
    }
}

/// A tuple that is declared twice is refused the second time, and the
/// declared tuples stay as they are after the first time; so is any other
/// tuple with the same id.
pub proof fn lemma_declare_twice(
    tuples: Map<usize, TupleDeclaration>,
    tuple: TupleDeclaration,
    again: TupleDeclaration,
)
    requires
        again.id == tuple.id,
    ensures
        declare_model(declare_model(tuples, tuple).0, again) == (
            declare_model(tuples, tuple).0,
            Err::<(), EngineError>(EngineError::AlreadyDeclared),
        ),
{
}

/// The state of a rule in the engine.
pub struct RuleState {
    /// The rule.
    pub rule: Rule,
    /// The id of the tuples that trigger it.
    pub trigger_ty: usize,
    /// The constraints of its trigger.
    pub trigger_constraints: Seq<Expression>,
    /// The state of its evaluation.
    pub state: RuleModel,
}

/// The state of an engine.
pub struct EngineModel {
    /// The declared tuples, by their ids.
    pub tuples: Map<usize, TupleDeclaration>,
    /// The rules, in the order in which they were defined.
    pub rules: Seq<RuleState>,
    /// For the id of a tuple, the indices of the rules that refer to it.
    pub index: Map<usize, Seq<usize>>,
    /// The subscriptions, in the order in which they were made.
    pub listeners: Seq<(usize, SubscrFilter)>,
    /// The id of the last subscription.
    pub last_id: usize,
}

impl EngineModel {
    /// The indices of the rules that refer to the tuple with the given id.
    pub open spec fn affected(self, ty_id: usize) -> Seq<usize> {
        if self.index.contains_key(ty_id) {
            self.index[ty_id]
        } else {
            Seq::empty()
        }
    }

    /// Whether there is a subscription with the given id.
    pub open spec fn subscribed(self, id: usize) -> bool {
        exists|i: int| 0 <= i < self.listeners.len() && (#[trigger] self.listeners[i]).0 == id
    }
}

/// The events that the first `n` evaluations have emitted, one after the
/// other, and the failures of those that have failed.
pub open spec fn collected(
    affected: Seq<usize>,
    outcomes: Seq<Result<Seq<EventModel>, EvalError>>,
    n: int,
) -> (Seq<EventModel>, Seq<Failure>)
    decreases n,
{
    if n <= 0 {
        (Seq::empty(), Seq::empty())
    } else {
        let (events, failures) = collected(affected, outcomes, n - 1);
        match outcomes[n - 1] {
            Ok(more) => (events + more, failures),
            Err(error) => (events, failures.push(Failure { rule: affected[n - 1], error })),
        }
    }
}

/// What the engine may do with one event: every rule that refers to the
/// tuple of the event is evaluated for it, in the order of the index, and
/// no other rule changes; `outcomes` holds what the evaluations give.
pub open spec fn fanned_out(
    before: Seq<RuleState>,
    affected: Seq<usize>,
    event: EventModel,
    after: Seq<RuleState>,
    outcomes: Seq<Result<Seq<EventModel>, EvalError>>,
) -> bool {
    &&& after.len() == before.len()
    &&& outcomes.len() == affected.len()
    &&& forall|j: int|
        0 <= j < affected.len() ==> {
            let r = #[trigger] affected[j] as int;
            &&& 0 <= r < before.len()
            &&& after[r].rule == before[r].rule
            &&& after[r].trigger_ty == before[r].trigger_ty
            &&& after[r].trigger_constraints == before[r].trigger_constraints
            &&& process_related(
                before[r].rule,
                before[r].trigger_ty,
                before[r].trigger_constraints,
                before[r].state,
                event,
                after[r].state,
                outcomes[j],
            )
        }
    &&& forall|r: int|
        0 <= r < before.len() && !touches(affected, r) ==> #[trigger] after[r] == before[r]
}

/// Whether the rule of index `r` is among the given ones.
pub open spec fn touches(affected: Seq<usize>, r: int) -> bool {
    exists|j: int| 0 <= j < affected.len() && #[trigger] affected[j] == r
}

/// No index occurs twice, and every index is below `bound`.
pub open spec fn valid_indices(indices: Seq<usize>, bound: int) -> bool {
    &&& forall|j: int| 0 <= j < indices.len() ==> (#[trigger] indices[j]) < bound
    &&& forall|j: int, k: int|
        0 <= j < indices.len() && 0 <= k < indices.len() && j != k ==> indices[j] != indices[k]
}

/// Whether a rule is taken into an engine that has `count` rules: a rule
/// that is not well typed is refused for that reason, and one that does not
/// get all its nodes from the providers, or comes when the engine can hold
/// no more rules, is refused for want of a node.
pub open spec fn define_model<P: NodeProvider>(
    providers: Seq<P>,
    count: nat,
    rule: Rule,
    tuples: Map<usize, TupleDeclaration>,
) -> Result<(), EngineError> {
    match check_model(rule, tuples) {
        Err(error) => Err(EngineError::Refused(error)),
        Ok(types) => if count >= usize::MAX || provided(providers, rule, tuples, types).is_none() {
            Err(EngineError::NoNode)
        } else {
            Ok(())
        },
    }
}

/// The state in which a rule that is taken into an engine starts.
pub open spec fn defined_state<P: NodeProvider>(
    providers: Seq<P>,
    rule: Rule,
    tuples: Map<usize, TupleDeclaration>,
) -> RuleState {
    RuleState {
        rule,
        trigger_ty: rule.predicates@[0].tuple.ty_id,
        trigger_constraints: rule.predicates@[0].tuple.constraints@,
        state: provided(providers, rule, tuples, check_model(rule, tuples).unwrap()).unwrap(),
    }
}

/// The engine.
pub struct TRex<P: NodeProvider> {
    tuples: HashMap<usize, TupleDeclaration>,
    provider: GeneralProvider<P>,
    rules: Vec<RuleStacks<P::C, P::F>>,
    reverse_index: HashMap<usize, Vec<usize>>,
    listeners: Vec<(usize, SubscrFilter)>,
    last_id: usize,
    max_depth: usize,
}

/// The state of an evaluation of a rule, as the engine sees it.
pub open spec fn state_of<P: NodeProvider>(stacks: RuleStacks<P::C, P::F>) -> RuleState {
    RuleState {
        rule: stacks.rule(),
        trigger_ty: stacks.trigger().ty_id(),
        trigger_constraints: stacks.trigger().constraints(),
        state: stacks.model(),
    }
}

impl<P: NodeProvider> TRex<P> {
    /// The state of the engine.
    pub closed spec fn model(&self) -> EngineModel {
        EngineModel {
            tuples: self.tuples@,
            rules: Seq::new(self.rules@.len(), |i: int| state_of::<P>(self.rules@[i])),
            index: Map::new(
                |id: usize| self.reverse_index@.contains_key(id),
                |id: usize| self.reverse_index@[id]@,
            ),
            listeners: self.listeners@,
            last_id: self.last_id,
        }
    }

    /// The length of the longest chain of emitted events that is published.
    pub closed spec fn max_depth(&self) -> usize {
        self.max_depth
    }

    /// The providers of the nodes of the rules, in the order in which they are asked.
    pub closed spec fn providers(&self) -> Seq<P> {
        self.provider.providers()
    }

    /// The engine is in order: its rules are, and the index refers to rules
    /// that there are, to none of them twice for one tuple.
    pub closed spec fn wf(&self) -> bool {
        &&& forall|i: int| 0 <= i < self.rules@.len() ==> (#[trigger] self.rules@[i]).wf()
        &&& forall|id: usize| #[trigger]
            self.reverse_index@.contains_key(id) ==> valid_indices(
                self.reverse_index@[id]@,
                self.rules@.len() as int,
            )
    }

    /// An engine without tuples, rules and subscriptions, that asks the
    /// given providers for the nodes of its rules and publishes chains of
    /// emitted events up to the given length.
    pub fn new(max_depth: usize, providers: Vec<P>) -> (engine: TRex<P>)
        ensures
            engine.wf(),
            engine.max_depth() == max_depth,
            engine.providers() == providers@,
            engine.model().tuples == Map::<usize, TupleDeclaration>::empty(),
            engine.model().rules == Seq::<RuleState>::empty(),
            engine.model().listeners == Seq::<(usize, SubscrFilter)>::empty(),
            engine.model().last_id == 0,
            forall|id: usize| !engine.model().index.contains_key(id),
    {
        let engine = TRex {
            tuples: HashMap::new(),
            provider: GeneralProvider::with_providers(providers),
            rules: Vec::new(),
            reverse_index: HashMap::new(),
            listeners: Vec::new(),
            last_id: 0,
            max_depth,
        };
        assert(engine.model().rules =~= Seq::<RuleState>::empty());
        engine
    }

    /// Declares a tuple, unless a tuple with its id is declared already:
    /// then the engine stays as it is.
    pub fn declare(&mut self, tuple: TupleDeclaration) -> (declared: Result<(), EngineError>)
        requires
            old(self).wf(),
        ensures
            final(self).wf(),
            final(self).max_depth() == old(self).max_depth(),
            final(self).providers() == old(self).providers(),
            declared == declare_model(old(self).model().tuples, tuple).1,
            final(self).model() == (EngineModel {
                tuples: declare_model(old(self).model().tuples, tuple).0,
                ..old(self).model()
            }),
    {
        broadcast use vstd::std_specs::hash::group_hash_axioms;

        if self.tuples.contains_key(&tuple.id) {
            Err(EngineError::AlreadyDeclared)
        } else {
            let ghost before = self.model();
            self.tuples.insert(tuple.id, tuple);
            assert(self.model().rules =~= before.rules);
            assert(self.model().index =~= before.index);
            Ok(())
        }
    }

    /// Whether one more subscription can be made.
    pub fn can_subscribe(&self) -> (can: bool)
        ensures
            can == (self.model().last_id < usize::MAX),
    {
        self.last_id < usize::MAX
    }

    /// Subscribes a listener with the given interests, and gives the id of
    /// the subscription: one more than that of the subscription before.
    pub fn subscribe(&mut self, condition: SubscrFilter) -> (id: usize)
        requires
            old(self).wf(),
            old(self).model().last_id < usize::MAX,
        ensures
            final(self).wf(),
            final(self).max_depth() == old(self).max_depth(),
            final(self).providers() == old(self).providers(),
            id == old(self).model().last_id + 1,
            final(self).model() == (EngineModel {
                listeners: old(self).model().listeners.push((id, condition)),
                last_id: id,
                ..old(self).model()
            }),
    {
        let ghost before = self.model();
        self.last_id = self.last_id + 1;
        self.listeners.push((self.last_id, condition));
        assert(self.model().rules =~= before.rules);
        assert(self.model().index =~= before.index);
        self.last_id
    }

    /// Removes the subscription with the given id.
    pub fn unsubscribe(&mut self, listener_id: usize)
        requires
            old(self).wf(),
        ensures
            final(self).wf(),
            final(self).max_depth() == old(self).max_depth(),
            final(self).providers() == old(self).providers(),
            final(self).model() == (EngineModel {
                listeners: unsubscribed(
                    old(self).model().listeners,
                    listener_id,
                    old(self).model().listeners.len() as int,
                ),
                ..old(self).model()
            }),
            !final(self).model().subscribed(listener_id),
    {
        let ghost before = self.model();
        let ghost all = self.listeners@;
        let ghost mut done: int = 0;
        let mut i: usize = 0;
        assert(unsubscribed(all, listener_id, 0) + all.subrange(0, all.len() as int) =~= all);
        while i < self.listeners.len()
            invariant
                0 <= done <= all.len(),
                i <= self.listeners.len(),
                i == unsubscribed(all, listener_id, done).len(),
                self.listeners@ == unsubscribed(all, listener_id, done) + all.subrange(
                    done,
                    all.len() as int,
                ),
                self.tuples == old(self).tuples,
                self.rules == old(self).rules,
                self.reverse_index == old(self).reverse_index,
                self.last_id == old(self).last_id,
                self.max_depth == old(self).max_depth,
                self.provider == old(self).provider,
            decreases all.len() - done,
        {
            let ghost kept = unsubscribed(all, listener_id, done);
            assert(self.listeners@[i as int] == all[done]);
            if self.listeners[i].0 == listener_id {
                self.listeners.remove(i);
                assert(self.listeners@ =~= kept + all.subrange(done + 1, all.len() as int));
            } else {
                assert(self.listeners@ =~= kept.push(all[done]) + all.subrange(
                    done + 1,
                    all.len() as int,
                ));
                i += 1;
            }
            proof {
                done = done + 1;
            }
        }
        proof {
            assert(done == all.len()) by {
                if done < all.len() {
                    assert(self.listeners@.len() == i + (all.len() - done));
                }
            }
            assert(self.listeners@ =~= unsubscribed(all, listener_id, all.len() as int));
            lemma_unsubscribed(self.listeners@, all, listener_id);
        }
        assert(self.model().rules =~= before.rules);
        assert(self.model().index =~= before.index);
    }

    fn link(&mut self, id: usize, rule: usize)
        requires
            old(self).wf(),
            rule + 1 == old(self).rules@.len(),
        ensures
            final(self).wf(),
            final(self).tuples == old(self).tuples,
            final(self).rules == old(self).rules,
            final(self).listeners == old(self).listeners,
            final(self).last_id == old(self).last_id,
            final(self).max_depth == old(self).max_depth,
            final(self).provider == old(self).provider,
            forall|other: usize|
                other != id ==> #[trigger] final(self).model().affected(other) == old(self).model().affected(other),
            final(self).model().affected(id) == if old(self).model().affected(id).contains(rule) {
                old(self).model().affected(id)
            } else {
                old(self).model().affected(id).push(rule)
            },
    {
        broadcast use vstd::std_specs::hash::group_hash_axioms;

        let ghost before = self.model();
        let ghost index = self.reverse_index@;
        let mut list: Vec<usize> = match self.reverse_index.remove(&id) {
            Some(list) => list,
            None => Vec::new(),
        };
        assert(list@ =~= before.affected(id));
        let mut linked = false;
        let mut i: usize = 0;
        while i < list.len()
            invariant
                i <= list.len(),
                linked == list@.take(i as int).contains(rule),
            decreases list.len() - i,
        {
            let ghost seen = list@.take(i as int);
            let ghost next = list@.take(i + 1);
            proof {
                assert(next =~= seen.push(list@[i as int]));
                if seen.contains(rule) {
                    let k = choose|k: int| 0 <= k < seen.len() && seen[k] == rule;
                    assert(next[k] == rule);
                }
                if next.contains(rule) && list@[i as int] != rule {
                    let k = choose|k: int| 0 <= k < next.len() && next[k] == rule;
                    assert(seen[k] == rule);
                }
                if list@[i as int] == rule {
                    assert(next[i as int] == rule);
                }
            }
            if list[i] == rule {
                linked = true;
            }
            i += 1;
        }
        assert(list@.take(list.len() as int) =~= list@);
        if !linked {
            list.push(rule);
        }
        let ghost listed = list@;
        assert(valid_indices(listed, self.rules@.len() as int)) by {
            if index.contains_key(id) {
                assert(valid_indices(index[id]@, self.rules@.len() as int));
            }
            if !linked {
                assert forall|j: int, k: int|
                    0 <= j < listed.len() && 0 <= k < listed.len() && j != k implies listed[j]
                    != listed[k] by {
                    if j == listed.len() - 1 {
                        assert(listed[k] == before.affected(id)[k]);
                        assert(before.affected(id).contains(listed[k]));
                    }
                    if k == listed.len() - 1 {
                        assert(listed[j] == before.affected(id)[j]);
                        assert(before.affected(id).contains(listed[j]));
                    }
                }
            }
        }
        self.reverse_index.insert(id, list);
        assert forall|other: usize| other != id implies #[trigger] self.model().affected(other)
            == before.affected(other) by {}
        assert(self.model().affected(id) == listed);
    }

    /// Defines a rule: the rule is checked against the declared tuples,
    /// gets its nodes from the providers, and is from then on evaluated for
    /// every event of a tuple that one of its predicates refers to. A rule
    /// that is refused leaves the engine as it is.
    pub fn define(&mut self, rule: Rule) -> (defined: Result<(), EngineError>)
        requires
            old(self).wf(),
        ensures
            final(self).wf(),
            final(self).max_depth() == old(self).max_depth(),
            final(self).providers() == old(self).providers(),
            final(self).model().tuples == old(self).model().tuples,
            final(self).model().listeners == old(self).model().listeners,
            final(self).model().last_id == old(self).model().last_id,
            defined == define_model(
                old(self).providers(),
                old(self).model().rules.len(),
                rule,
                old(self).model().tuples,
            ),
            match defined {
                Ok(_) => {
                    &&& final(self).model().rules == old(self).model().rules.push(
                        defined_state(old(self).providers(), rule, old(self).model().tuples),
                    )
                    &&& forall|id: usize| #[trigger]
                        final(self).model().affected(id) == if refers(
                            rule,
                            id,
                            rule.predicates@.len() as int,
                        ) {
                            old(self).model().affected(id).push(
                                old(self).model().rules.len() as usize,
                            )
                        } else {
                            old(self).model().affected(id)
                        }
                },
                Err(_) => final(self).model() == old(self).model(),
            },
    {
        let ghost before = self.model();
        let types = match check_rule(&rule, &self.tuples) {
            Ok(types) => types,
            Err(error) => {
                return Err(EngineError::Refused(error));
            },
        };
        if self.rules.len() == usize::MAX {
            return Err(EngineError::NoNode);
        }
        let stacks = match self.provider.provide(rule, &self.tuples, &types) {
            Some(stacks) => stacks,
            None => {
                return Err(EngineError::NoNode);
            },
        };
        let index = self.rules.len();
        self.rules.push(stacks);
        proof {
            assert(self.model().rules =~= before.rules.push(
                defined_state(old(self).providers(), rule, before.tuples),
            ));
            assert forall|id: usize| #[trigger] self.model().affected(id) == before.affected(id) by {}
            assert forall|id: usize| #[trigger]
                self.reverse_index@.contains_key(id) implies valid_indices(
                self.reverse_index@[id]@,
                self.rules@.len() as int,
            ) by {
                assert(valid_indices(self.reverse_index@[id]@, index as int));
            }
        }
        let ghost pushed = self.model().rules;
        let mut i: usize = 0;
        while i < self.rules[index].get_rule().predicates.len()
            invariant
                self.wf(),
                index + 1 == self.rules@.len(),
                self.rules@[index as int].rule() == rule,
                i <= rule.predicates@.len(),
                self.model().rules == pushed,
                self.model().tuples == before.tuples,
                self.model().listeners == before.listeners,
                self.model().last_id == before.last_id,
                self.max_depth == old(self).max_depth,
                self.provider == old(self).provider,
                forall|id: usize| #[trigger]
                    self.model().affected(id) == if refers(rule, id, i as int) {
                        before.affected(id).push(index)
                    } else {
                        before.affected(id)
                    },
                forall|id: usize| !(#[trigger] before.affected(id)).contains(index),
            decreases rule.predicates@.len() - i,
        {
            let id = self.rules[index].get_rule().predicates[i].tuple.ty_id;
            let ghost now = self.model();
            self.link(id, index);
            proof {
                assert(self.model().rules =~= pushed);
                assert forall|other: usize| #[trigger]
                    self.model().affected(other) == if refers(rule, other, i + 1) {
                        before.affected(other).push(index)
                    } else {
                        before.affected(other)
                    } by {
                    if other == id {
                        if refers(rule, id, i as int) {
                            assert(now.affected(id).last() == index);
                            assert(now.affected(id).contains(index));
                        } else {
                            assert(!before.affected(id).contains(index));
                        }
                    } else {
                        assert(self.model().affected(other) == now.affected(other));
                    }
                }
            }
            i += 1;
        }
        Ok(())
    }

    /// The ids of the subscriptions that are interested in an event, in
    /// the order in which they were made.
    pub fn notify(&self, event: &Arc<Event>) -> (ids: Vec<usize>)
        ensures
            ids@ == notified(
                self.model().listeners,
                event.deep_view(),
                self.model().listeners.len() as int,
            ),
    {
        let mut ids: Vec<usize> = Vec::new();
        let mut i: usize = 0;
        while i < self.listeners.len()
            invariant
                i <= self.listeners.len(),
                ids@ == notified(self.listeners@, event.deep_view(), i as int),
            decreases self.listeners.len() - i,
        {
            if is_interested(&self.listeners[i].1, event) {
                ids.push(self.listeners[i].0);
            }
            i += 1;
        }
        ids
    }

    /// The indices of the rules that refer to the tuple of an event, in the
    /// order in which the rules are evaluated for it.
    pub fn affected(&self, event: &Arc<Event>) -> (rules: Vec<usize>)
        requires
            self.wf(),
        ensures
            rules@ == self.model().affected(event.tuple.ty_id),
            valid_indices(rules@, self.model().rules.len() as int),
    {
        broadcast use vstd::std_specs::hash::group_hash_axioms;

        let mut rules: Vec<usize> = Vec::new();
        match self.reverse_index.get(&event.tuple.ty_id) {
            Some(list) => {
                let mut j: usize = 0;
                while j < list.len()
                    invariant
                        j <= list.len(),
                        rules@ == list@.take(j as int),
                    decreases list.len() - j,
                {
                    rules.push(list[j]);
                    assert(list@.take(j + 1) =~= list@.take(j as int).push(list@[j as int]));
                    j += 1;
                }
                assert(list@.take(list.len() as int) =~= list@);
            },
            None => {},
        }
        assert(rules@ =~= self.model().affected(event.tuple.ty_id));
        rules
    }

    /// Whether an event that a rule emits for an event at the given depth of
    /// a chain of emitted events is published in its turn.
    pub fn follows(&self, depth: usize) -> (published: bool)
        ensures
            published == (depth < self.max_depth()),
    {
        depth < self.max_depth
    }

    /// Evaluates the rule of the given index for an event, and gives the
    /// events that it emits, or why its evaluation fails; `None` where
    /// there is no such rule. The other rules stay as they are.
    pub fn evaluate(&mut self, rule: usize, event: &Arc<Event>) -> (events: Option<
        Result<Vec<Arc<Event>>, EvalError>,
    >)
        requires
            old(self).wf(),
        ensures
            final(self).wf(),
            final(self).max_depth() == old(self).max_depth(),
            final(self).providers() == old(self).providers(),
            final(self).model().tuples == old(self).model().tuples,
            final(self).model().index == old(self).model().index,
            final(self).model().listeners == old(self).model().listeners,
            final(self).model().last_id == old(self).model().last_id,
            final(self).model().rules.len() == old(self).model().rules.len(),
            forall|q: int|
                0 <= q < old(self).model().rules.len() && q != rule ==> #[trigger] final(self).model().rules[q] == old(self).model().rules[q],
            match events {
                None => rule >= old(self).model().rules.len() && final(self).model() == old(self).model(),
                Some(outcome) => {
                    let before = old(self).model().rules[rule as int];
                    let after = final(self).model().rules[rule as int];
                    &&& rule < old(self).model().rules.len()
                    &&& after.rule == before.rule
                    &&& after.trigger_ty == before.trigger_ty
                    &&& after.trigger_constraints == before.trigger_constraints
                    &&& process_related(
                        before.rule,
                        before.trigger_ty,
                        before.trigger_constraints,
                        before.state,
                        event.deep_view(),
                        after.state,
                        emitted(outcome),
                    )
                },
            },
    {
        if rule >= self.rules.len() {
            return None;
        }
        let ghost rules = self.rules@;
        let ghost before = self.model();
        let outcome = self.rules[rule].process(event);
        proof {
            let after = self.rules@;
            assert forall|i: int| 0 <= i < after.len() && i != rule implies after[i]
                == rules[i] by {}
            assert(self.model().index =~= before.index);
        }
        Some(outcome)
    }

    /// Hands one event to the engine: the subscriptions that are
    /// interested in it are named, and every rule that refers to its tuple
    /// is evaluated for it, in the order in which the rules were defined.
    /// The events that the rules emit are handed out, not published.
    pub fn dispatch(&mut self, event: &Arc<Event>) -> (done: Dispatch)
        requires
            old(self).wf(),
        ensures
            final(self).wf(),
            final(self).max_depth() == old(self).max_depth(),
            final(self).providers() == old(self).providers(),
            final(self).model().tuples == old(self).model().tuples,
            final(self).model().index == old(self).model().index,
            final(self).model().listeners == old(self).model().listeners,
            final(self).model().last_id == old(self).model().last_id,
            done.deliveries@ == notified(
                old(self).model().listeners,
                event.deep_view(),
                old(self).model().listeners.len() as int,
            ),
            exists|outcomes: Seq<Result<Seq<EventModel>, EvalError>>|
                {
                    &&& #[trigger] fanned_out(
                        old(self).model().rules,
                        old(self).model().affected(event.tuple.ty_id),
                        event.deep_view(),
                        final(self).model().rules,
                        outcomes,
                    )
                    &&& (done.produced.deep_view(), done.failures@) == collected(
                        old(self).model().affected(event.tuple.ty_id),
                        outcomes,
                        outcomes.len() as int,
                    )
                },
    {
        broadcast use vstd::std_specs::hash::group_hash_axioms;

        let ghost before = self.model();
        let deliveries = self.notify(event);
        let mut produced: Vec<Arc<Event>> = Vec::new();
        let mut failures: Vec<Failure> = Vec::new();
        let ghost mut outcomes: Seq<Result<Seq<EventModel>, EvalError>> = Seq::empty();
        let ghost affected = before.affected(event.tuple.ty_id);
        assert(produced.deep_view() =~= Seq::<EventModel>::empty());
        let count = match self.reverse_index.get(&event.tuple.ty_id) {
            Some(list) => list.len(),
            None => 0,
        };
        assert(count == affected.len());
        assert(self.model().rules =~= before.rules);
        assert(fanned_out(before.rules, affected.take(0), event.deep_view(), before.rules, outcomes));
        let mut j: usize = 0;
        while j < count
            invariant
                j <= count,
                count == affected.len(),
                self.wf(),
                self.max_depth == old(self).max_depth,
                self.providers() == old(self).providers(),
                before == old(self).model(),
                affected == before.affected(event.tuple.ty_id),
                self.model().tuples == before.tuples,
                self.model().index == before.index,
                self.model().listeners == before.listeners,
                self.model().last_id == before.last_id,
                valid_indices(affected, before.rules.len() as int),
                fanned_out(
                    before.rules,
                    affected.take(j as int),
                    event.deep_view(),
                    self.model().rules,
                    outcomes,
                ),
                (produced.deep_view(), failures@) == collected(affected, outcomes, j as int),
            decreases count - j,
        {
            let r = match self.reverse_index.get(&event.tuple.ty_id) {
                Some(list) => list[j],
                None => 0,
            };
            assert(r == affected[j as int]);
            let ghost now = self.model().rules;
            assert(now[r as int] == before.rules[r as int]) by {
                if touches(affected.take(j as int), r as int) {
                    let k = choose|k: int|
                        0 <= k < affected.take(j as int).len() && #[trigger] affected.take(
                            j as int,
                        )[k] == r as int;
                    assert(affected[k] == affected[j as int]);
                }
            }
            let outcome = match self.evaluate(r, event) {
                Some(outcome) => outcome,
                None => vstd::pervasive::unreached(),
            };
            proof {
                let then = self.model().rules;
                let grown = outcomes.push(emitted(outcome));
                let taken = affected.take(j + 1);
                assert(taken =~= affected.take(j as int).push(r));
                assert forall|k: int| 0 <= k < taken.len() implies {
                    let q = #[trigger] taken[k] as int;
                    &&& 0 <= q < before.rules.len()
                    &&& then[q].rule == before.rules[q].rule
                    &&& then[q].trigger_ty == before.rules[q].trigger_ty
                    &&& then[q].trigger_constraints == before.rules[q].trigger_constraints
                    &&& process_related(
                        before.rules[q].rule,
                        before.rules[q].trigger_ty,
                        before.rules[q].trigger_constraints,
                        before.rules[q].state,
                        event.deep_view(),
                        then[q].state,
                        grown[k],
                    )
                } by {
                    if k < j {
                        assert(affected.take(j as int)[k] == taken[k]);
                        assert(affected[k] != affected[j as int]);
                        assert(then[taken[k] as int] == now[taken[k] as int]);
                    }
                }
                assert forall|q: int|
                    0 <= q < before.rules.len() && !touches(taken, q) implies #[trigger] then[q]
                    == before.rules[q] by {
                    assert(taken[j as int] == r);
                    assert(q != r);
                    if touches(affected.take(j as int), q) {
                        let k = choose|k: int|
                            0 <= k < affected.take(j as int).len() && #[trigger] affected.take(
                                j as int,
                            )[k] == q;
                        assert(taken[k] == q);
                    }
                    assert(then[q] == now[q]);
                }
                assert(fanned_out(before.rules, taken, event.deep_view(), then, grown));
                lemma_collected(affected, outcomes, grown, j as int);
                outcomes = grown;
            }
            match outcome {
                Ok(events) => {
                    let ghost sofar = produced.deep_view();
                    let ghost more = events.deep_view();
                    let mut events = events;
                    produced.append(&mut events);
                    assert(produced.deep_view() =~= sofar + more);
                },
                Err(error) => {
                    failures.push(Failure { rule: r, error });
                },
            }
            j += 1;
        }
        assert(affected.take(count as int) =~= affected);
        Dispatch { deliveries, produced, failures }
    }

    /// Publishes an event, and every event that follows from it; see
    /// `published`. The listeners that are interested in an event are to
    /// receive it before the rules are evaluated for it; the events that
    /// the rules emit are then published one after the other, each with
    /// all that follows from it, as long as the chain of emitted events is
    /// no longer than the engine allows.
    pub fn publish(&mut self, event: &Arc<Event>) -> (report: Report)
        requires
            old(self).wf(),
        ensures
            final(self).wf(),
            final(self).max_depth() == old(self).max_depth(),
            final(self).providers() == old(self).providers(),
            final(self).model().tuples == old(self).model().tuples,
            final(self).model().index == old(self).model().index,
            final(self).model().listeners == old(self).model().listeners,
            final(self).model().last_id == old(self).model().last_id,
            exists|model: ReportModel|
                reported(report, model) && #[trigger] published(
                    old(self).model(),
                    old(self).max_depth(),
                    old(self).model().rules,
                    event.deep_view(),
                    0,
                    final(self).model().rules,
                    model,
                ),
    {
        let ghost engine = self.model();
        let ghost limit = self.max_depth;
        let report = self.publish_at(event, 0);
        proof {
            let model = choose|model: ReportModel|
                reported(report, model) && #[trigger] published(
                    engine,
                    limit,
                    engine.rules,
                    event.deep_view(),
                    0usize as int,
                    self.model().rules,
                    model,
                );
            assert(limit == old(self).max_depth());
            assert(reported(report, model));
            assert(published(
                old(self).model(),
                old(self).max_depth(),
                old(self).model().rules,
                event.deep_view(),
                0,
                self.model().rules,
                model,
            ));
        }
        report
    }

    fn publish_at(&mut self, event: &Arc<Event>, depth: usize) -> (report: Report)
        requires
            old(self).wf(),
            depth <= old(self).max_depth,
        ensures
            final(self).wf(),
            final(self).max_depth == old(self).max_depth,
            final(self).providers() == old(self).providers(),
            final(self).model().tuples == old(self).model().tuples,
            final(self).model().index == old(self).model().index,
            final(self).model().listeners == old(self).model().listeners,
            final(self).model().last_id == old(self).model().last_id,
            exists|model: ReportModel|
                reported(report, model) && #[trigger] published(
                    old(self).model(),
                    old(self).max_depth,
                    old(self).model().rules,
                    event.deep_view(),
                    depth as int,
                    final(self).model().rules,
                    model,
                ),
        decreases old(self).max_depth - depth,
    {
        let ghost engine = self.model();
        let ghost limit = self.max_depth;
        let done = self.dispatch(event);
        let ghost middle = self.model().rules;
        let ghost produced = done.produced.deep_view();
        let ghost failed = done.failures@;
        let ghost first = announced(engine.listeners, event.deep_view());
        assert(dispatched(engine, engine.rules, event.deep_view(), middle, produced, failed));
        let mut deliveries: Vec<Delivery> = Vec::new();
        let mut i: usize = 0;
        assert(deliveries.deep_view() =~= first.take(0));
        while i < done.deliveries.len()
            invariant
                i <= done.deliveries.len(),
                first == announced(engine.listeners, event.deep_view()),
                done.deliveries@ == notified(
                    engine.listeners,
                    event.deep_view(),
                    engine.listeners.len() as int,
                ),
                deliveries.deep_view() == first.take(i as int),
            decreases done.deliveries.len() - i,
        {
            let ghost sofar = deliveries.deep_view();
            deliveries.push(Delivery { listener: done.deliveries[i], event: event.clone() });
            proof {
                assert(deliveries.deep_view() =~= sofar.push(first[i as int]));
                assert(deliveries.deep_view() =~= first.take(i + 1));
            }
            i += 1;
        }
        assert(first.take(done.deliveries.len() as int) =~= first);
        let mut report = Report { deliveries, failures: done.failures, dropped: 0 };
        let ghost mut rest = nothing();
        let events = done.produced;
        let mut e: usize = 0;
        assert(first + rest.deliveries =~= first);
        assert(failed + rest.failures =~= failed);
        while e < events.len()
            invariant
                e <= events.len(),
                self.wf(),
                depth <= self.max_depth,
                self.max_depth == limit,
                limit == old(self).max_depth,
                self.providers() == old(self).providers(),
                engine == old(self).model(),
                produced == events.deep_view(),
                self.model().tuples == engine.tuples,
                self.model().index == engine.index,
                self.model().listeners == engine.listeners,
                self.model().last_id == engine.last_id,
                spread(engine, limit, middle, produced, e as int, depth as int, self.model().rules, rest),
                reported(
                    report,
                    ReportModel {
                        deliveries: first + rest.deliveries,
                        failures: failed + rest.failures,
                        dropped: rest.dropped,
                    },
                ),
                rest.dropped >= 0,
            decreases events.len() - e,
        {
            let ghost now = self.model().rules;
            let ghost before = rest;
            assert(produced[e as int] == events@[e as int].deep_view());
            if depth < self.max_depth {
                let more = self.publish_at(&events[e], depth + 1);
                let ghost last = choose|model: ReportModel|
                    reported(more, model) && #[trigger] published(
                        self_model_at(engine, now),
                        limit,
                        now,
                        produced[e as int],
                        depth + 1,
                        self.model().rules,
                        model,
                    );
                proof {
                    lemma_published_engine(
                        self_model_at(engine, now),
                        engine,
                        limit,
                        now,
                        produced[e as int],
                        depth + 1,
                        self.model().rules,
                        last,
                    );
                    lemma_published_counts(
                        engine,
                        limit,
                        now,
                        produced[e as int],
                        depth + 1,
                        self.model().rules,
                        last,
                    );
                    rest = joined(before, last);
                    assert(linked(now, before, last, rest));
                    assert(spread(
                        engine,
                        limit,
                        middle,
                        produced,
                        e as int + 1,
                        depth as int,
                        self.model().rules,
                        rest,
                    ));
                }
                let ghost had = report.deliveries.deep_view();
                let ghost got = more.deliveries.deep_view();
                let mut more = more;
                report.deliveries.append(&mut more.deliveries);
                report.failures.append(&mut more.failures);
                report.dropped = report.dropped.saturating_add(more.dropped);
                proof {
                    assert(report.deliveries.deep_view() =~= had + got);
                    assert(report.deliveries.deep_view() =~= first + rest.deliveries);
                    assert(report.failures@ =~= failed + rest.failures);
                }
            } else {
                let ghost last = ReportModel {
                    deliveries: Seq::empty(),
                    failures: Seq::empty(),
                    dropped: 1,
                };
                proof {
                    rest = joined(before, last);
                    assert(linked(now, before, last, rest));
                    assert(spread(
                        engine,
                        limit,
                        middle,
                        produced,
                        e as int + 1,
                        depth as int,
                        self.model().rules,
                        rest,
                    ));
                    assert(first + rest.deliveries =~= first + before.deliveries);
                    assert(failed + rest.failures =~= failed + before.failures);
                }
                report.dropped = report.dropped.saturating_add(1);
            }
            e += 1;
        }
        proof {
            let model = ReportModel {
                deliveries: first + rest.deliveries,
                failures: failed + rest.failures,
                dropped: rest.dropped,
            };
            assert(composed(engine, engine.rules, event.deep_view(), middle, produced, failed, rest, model));
            assert(published(
                engine,
                limit,
                engine.rules,
                event.deep_view(),
                depth as int,
                self.model().rules,
                model,
            ));
        }
        report
    }
}

/// What a report holds.
pub struct ReportModel {
    /// The events that listeners are to receive, each with the id of the subscription.
    pub deliveries: Seq<(usize, EventModel)>,
    /// The rules whose evaluation has failed.
    pub failures: Seq<Failure>,
    /// The number of emitted events that were not published.
    pub dropped: int,
}

/// A report tells what its model holds; the number of events that were not
/// published stops at the largest number that there is.
pub open spec fn reported(report: Report, model: ReportModel) -> bool {
    &&& report.deliveries.deep_view() == model.deliveries
    &&& report.failures@ == model.failures
    &&& report.dropped == if model.dropped > usize::MAX {
        usize::MAX as int
    } else {
        model.dropped
    }
}

/// The report of nothing.
pub open spec fn nothing() -> ReportModel {
    ReportModel { deliveries: Seq::empty(), failures: Seq::empty(), dropped: 0 }
}

/// Two reports, one after the other.
pub open spec fn joined(first: ReportModel, last: ReportModel) -> ReportModel {
    ReportModel {
        deliveries: first.deliveries + last.deliveries,
        failures: first.failures + last.failures,
        dropped: first.dropped + last.dropped,
    }
}

/// The deliveries of an event to the subscriptions that are interested in
/// it, in the order in which they were made.
pub open spec fn announced(listeners: Seq<(usize, SubscrFilter)>, event: EventModel) -> Seq<
    (usize, EventModel),
> {
    let ids = notified(listeners, event, listeners.len() as int);
    Seq::new(ids.len(), |i: int| (ids[i], event))
}

/// The engine with other states of its rules.
pub open spec fn self_model_at(engine: EngineModel, rules: Seq<RuleState>) -> EngineModel {
    EngineModel { rules, ..engine }
}

/// What the engine may do with one event: the rules that refer to the
/// tuple of the event are evaluated for it, which leaves them in the
/// states `after`, emits the events `produced` and fails as `failures` tells.
pub open spec fn dispatched(
    engine: EngineModel,
    rules: Seq<RuleState>,
    event: EventModel,
    after: Seq<RuleState>,
    produced: Seq<EventModel>,
    failures: Seq<Failure>,
) -> bool {
    exists|outcomes: Seq<Result<Seq<EventModel>, EvalError>>|
        #[trigger] fanned_out(rules, engine.affected(event.tuple.ty_id), event, after, outcomes)
            && (produced, failures) == collected(
            engine.affected(event.tuple.ty_id),
            outcomes,
            outcomes.len() as int,
        )
}

/// The report of an event is made of what its dispatch gives and of the
/// report `rest` of the events that the rules have emitted: the deliveries
/// of the event come first.
pub open spec fn composed(
    engine: EngineModel,
    rules: Seq<RuleState>,
    event: EventModel,
    middle: Seq<RuleState>,
    produced: Seq<EventModel>,
    failures: Seq<Failure>,
    rest: ReportModel,
    report: ReportModel,
) -> bool {
    dispatched(engine, rules, event, middle, produced, failures) && report == (ReportModel {
        deliveries: announced(engine.listeners, event) + rest.deliveries,
        failures: failures + rest.failures,
        dropped: rest.dropped,
    })
}

/// A report is made of two, one after the other.
pub open spec fn linked(
    middle: Seq<RuleState>,
    first: ReportModel,
    last: ReportModel,
    report: ReportModel,
) -> bool {
    report == joined(first, last)
}

/// What the engine may do with an event that is published at the given
/// depth of a chain of emitted events: the event is dispatched, and the
/// events that the rules emit are published in their order.
pub open spec fn published(
    engine: EngineModel,
    max_depth: usize,
    rules: Seq<RuleState>,
    event: EventModel,
    depth: int,
    after: Seq<RuleState>,
    report: ReportModel,
) -> bool
    decreases max_depth - depth, 1int, 0int,
{
    if depth < 0 || depth > max_depth {
        false
    } else {
        exists|
            middle: Seq<RuleState>,
            produced: Seq<EventModel>,
            failures: Seq<Failure>,
            rest: ReportModel,
        |
            #[trigger] composed(engine, rules, event, middle, produced, failures, rest, report)
                && spread(
                engine,
                max_depth,
                middle,
                produced,
                produced.len() as int,
                depth,
                after,
                rest,
            )
    }
}

/// What the engine may do with the first `n` of the events that rules have
/// emitted at the given depth: each is published one level deeper, with
/// all that follows from it, before the next one; or, where the chain is as
/// long as the engine allows, none is published and each is counted.
pub open spec fn spread(
    engine: EngineModel,
    max_depth: usize,
    rules: Seq<RuleState>,
    events: Seq<EventModel>,
    n: int,
    depth: int,
    after: Seq<RuleState>,
    report: ReportModel,
) -> bool
    decreases max_depth - depth, 0int, n,
{
    if depth < 0 || depth > max_depth {
        false
    } else if n <= 0 {
        after == rules && report == nothing()
    } else {
        exists|middle: Seq<RuleState>, first: ReportModel, last: ReportModel|
            #[trigger] linked(middle, first, last, report) && spread(
                engine,
                max_depth,
                rules,
                events,
                n - 1,
                depth,
                middle,
                first,
            ) && if depth < max_depth {
                published(engine, max_depth, middle, events[n - 1], depth + 1, after, last)
            } else {
                after == middle && last == (ReportModel {
                    deliveries: Seq::empty(),
                    failures: Seq::empty(),
                    dropped: 1,
                })
            }
    }
}

/// Whether no rule has a predicate on static data.
pub open spec fn static_free(rules: Seq<RuleState>) -> bool {
    forall|r: int| 0 <= r < rules.len() ==> event_only((#[trigger] rules[r]).state.nodes)
}

/// With rules that ask no static data, what the dispatch of an event gives
/// is determined: the states that it leaves the rules in, the events that
/// the rules emit and the failures depend on nothing but the rules, their
/// states and the event.
pub proof fn lemma_dispatch_deterministic(
    engine: EngineModel,
    rules: Seq<RuleState>,
    event: EventModel,
    after1: Seq<RuleState>,
    produced1: Seq<EventModel>,
    failures1: Seq<Failure>,
    after2: Seq<RuleState>,
    produced2: Seq<EventModel>,
    failures2: Seq<Failure>,
)
    requires
        static_free(rules),
        dispatched(engine, rules, event, after1, produced1, failures1),
        dispatched(engine, rules, event, after2, produced2, failures2),
    ensures
        after1 == after2,
        produced1 == produced2,
        failures1 == failures2,
        static_free(after1),
{
    let affected = engine.affected(event.tuple.ty_id);
    let o1 = choose|outcomes: Seq<Result<Seq<EventModel>, EvalError>>|
        #[trigger] fanned_out(rules, affected, event, after1, outcomes) && (produced1, failures1)
            == collected(affected, outcomes, outcomes.len() as int);
    let o2 = choose|outcomes: Seq<Result<Seq<EventModel>, EvalError>>|
        #[trigger] fanned_out(rules, affected, event, after2, outcomes) && (produced2, failures2)
            == collected(affected, outcomes, outcomes.len() as int);
    assert forall|j: int| 0 <= j < affected.len() implies o1[j] == o2[j] && after1[affected[j] as int]
        == after2[affected[j] as int] && event_only(after1[affected[j] as int].state.nodes) by {
        let r = affected[j] as int;
        assert(event_only(rules[r].state.nodes));
        lemma_deterministic(
            rules[r].rule,
            rules[r].trigger_ty,
            rules[r].trigger_constraints,
            rules[r].state,
            event,
            after1[r].state,
            o1[j],
            after2[r].state,
            o2[j],
        );
        lemma_process_event_only(
            rules[r].rule,
            rules[r].trigger_ty,
            rules[r].trigger_constraints,
            rules[r].state,
            event,
            after1[r].state,
            o1[j],
        );
    }
    assert(o1 =~= o2);
    assert forall|r: int| 0 <= r < rules.len() implies after1[r] == after2[r] && event_only(
        (#[trigger] after1[r]).state.nodes,
    ) by {
        if touches(affected, r) {
            let j = choose|j: int| 0 <= j < affected.len() && #[trigger] affected[j] == r;
            assert(after1[affected[j] as int] == after2[affected[j] as int]);
        } else {
            assert(after1[r] == rules[r]);
            assert(after2[r] == rules[r]);
        }
    }
    assert(after1 =~= after2);
}

/// Determinism. With rules that ask no static data, what the engine does
/// with a published event is determined: the states that the rules are left
/// in and the report, with its deliveries in their order, depend on nothing
/// but the engine and the event. The same rules and the same events, in the
/// same order, give the same emitted events.
pub proof fn lemma_published_deterministic(
    engine: EngineModel,
    max_depth: usize,
    rules: Seq<RuleState>,
    event: EventModel,
    depth: int,
    after1: Seq<RuleState>,
    report1: ReportModel,
    after2: Seq<RuleState>,
    report2: ReportModel,
)
    requires
        static_free(rules),
        published(engine, max_depth, rules, event, depth, after1, report1),
        published(engine, max_depth, rules, event, depth, after2, report2),
    ensures
        after1 == after2,
        report1 == report2,
        static_free(after1),
    decreases max_depth - depth, 1int, 0int,
{
    let (middle1, produced1, failed1, rest1) = choose|
        middle: Seq<RuleState>,
        produced: Seq<EventModel>,
        failures: Seq<Failure>,
        rest: ReportModel,
    |
        #[trigger] composed(engine, rules, event, middle, produced, failures, rest, report1)
            && spread(
            engine,
            max_depth,
            middle,
            produced,
            produced.len() as int,
            depth,
            after1,
            rest,
        );
    let (middle2, produced2, failed2, rest2) = choose|
        middle: Seq<RuleState>,
        produced: Seq<EventModel>,
        failures: Seq<Failure>,
        rest: ReportModel,
    |
        #[trigger] composed(engine, rules, event, middle, produced, failures, rest, report2)
            && spread(
            engine,
            max_depth,
            middle,
            produced,
            produced.len() as int,
            depth,
            after2,
            rest,
        );
    lemma_dispatch_deterministic(engine, rules, event, middle1, produced1, failed1, middle2, produced2, failed2);
    lemma_spread_deterministic(
        engine,
        max_depth,
        middle1,
        produced1,
        produced1.len() as int,
        depth,
        after1,
        rest1,
        after2,
        rest2,
    );
}

/// With rules that ask no static data, what the engine does with the
/// events that rules have emitted is determined.
pub proof fn lemma_spread_deterministic(
    engine: EngineModel,
    max_depth: usize,
    rules: Seq<RuleState>,
    events: Seq<EventModel>,
    n: int,
    depth: int,
    after1: Seq<RuleState>,
    report1: ReportModel,
    after2: Seq<RuleState>,
    report2: ReportModel,
)
    requires
        static_free(rules),
        spread(engine, max_depth, rules, events, n, depth, after1, report1),
        spread(engine, max_depth, rules, events, n, depth, after2, report2),
    ensures
        after1 == after2,
        report1 == report2,
        static_free(after1),
    decreases max_depth - depth, 0int, n,
{
    if n > 0 {
        let (m1, a1, l1) = choose|middle: Seq<RuleState>, first: ReportModel, last: ReportModel|
            #[trigger] linked(middle, first, last, report1) && spread(
                engine,
                max_depth,
                rules,
                events,
                n - 1,
                depth,
                middle,
                first,
            ) && if depth < max_depth {
                published(engine, max_depth, middle, events[n - 1], depth + 1, after1, last)
            } else {
                after1 == middle && last == (ReportModel {
                    deliveries: Seq::empty(),
                    failures: Seq::empty(),
                    dropped: 1,
                })
            };
        let (m2, a2, l2) = choose|middle: Seq<RuleState>, first: ReportModel, last: ReportModel|
            #[trigger] linked(middle, first, last, report2) && spread(
                engine,
                max_depth,
                rules,
                events,
                n - 1,
                depth,
                middle,
                first,
            ) && if depth < max_depth {
                published(engine, max_depth, middle, events[n - 1], depth + 1, after2, last)
            } else {
                after2 == middle && last == (ReportModel {
                    deliveries: Seq::empty(),
                    failures: Seq::empty(),
                    dropped: 1,
                })
            };
        lemma_spread_deterministic(engine, max_depth, rules, events, n - 1, depth, m1, a1, m2, a2);
        if depth < max_depth {
            lemma_published_deterministic(
                engine,
                max_depth,
                m1,
                events[n - 1],
                depth + 1,
                after1,
                l1,
                after2,
                l2,
            );
        }
    }
}

/// What is published depends on the subscriptions and on the index of the
/// engine, not on its other parts.
pub proof fn lemma_published_engine(
    one: EngineModel,
    other: EngineModel,
    max_depth: usize,
    rules: Seq<RuleState>,
    event: EventModel,
    depth: int,
    after: Seq<RuleState>,
    report: ReportModel,
)
    requires
        one.listeners == other.listeners,
        one.index == other.index,
        published(one, max_depth, rules, event, depth, after, report),
    ensures
        published(other, max_depth, rules, event, depth, after, report),
    decreases max_depth - depth, 1int, 0int,
{
    let (middle, produced, failures, rest) = choose|
        middle: Seq<RuleState>,
        produced: Seq<EventModel>,
        failures: Seq<Failure>,
        rest: ReportModel,
    |
        #[trigger] composed(one, rules, event, middle, produced, failures, rest, report) && spread(
            one,
            max_depth,
            middle,
            produced,
            produced.len() as int,
            depth,
            after,
            rest,
        );
    lemma_spread_engine(
        one,
        other,
        max_depth,
        middle,
        produced,
        produced.len() as int,
        depth,
        after,
        rest,
    );
    assert(one.affected(event.tuple.ty_id) == other.affected(event.tuple.ty_id));
    assert(composed(other, rules, event, middle, produced, failures, rest, report));
}

/// What is spread depends on the subscriptions and on the index of the
/// engine, not on its other parts.
pub proof fn lemma_spread_engine(
    one: EngineModel,
    other: EngineModel,
    max_depth: usize,
    rules: Seq<RuleState>,
    events: Seq<EventModel>,
    n: int,
    depth: int,
    after: Seq<RuleState>,
    report: ReportModel,
)
    requires
        one.listeners == other.listeners,
        one.index == other.index,
        spread(one, max_depth, rules, events, n, depth, after, report),
    ensures
        spread(other, max_depth, rules, events, n, depth, after, report),
    decreases max_depth - depth, 0int, n,
{
    if n > 0 {
        let (middle, first, last) = choose|
            middle: Seq<RuleState>,
            first: ReportModel,
            last: ReportModel,
        |
            #[trigger] linked(middle, first, last, report) && spread(
                one,
                max_depth,
                rules,
                events,
                n - 1,
                depth,
                middle,
                first,
            ) && if depth < max_depth {
                published(one, max_depth, middle, events[n - 1], depth + 1, after, last)
            } else {
                after == middle && last == (ReportModel {
                    deliveries: Seq::empty(),
                    failures: Seq::empty(),
                    dropped: 1,
                })
            };
        lemma_spread_engine(one, other, max_depth, rules, events, n - 1, depth, middle, first);
        if depth < max_depth {
            lemma_published_engine(
                one,
                other,
                max_depth,
                middle,
                events[n - 1],
                depth + 1,
                after,
                last,
            );
        }
        assert(linked(middle, first, last, report));
    }
}

/// No fewer than no events are left unpublished.
pub proof fn lemma_published_counts(
    engine: EngineModel,
    max_depth: usize,
    rules: Seq<RuleState>,
    event: EventModel,
    depth: int,
    after: Seq<RuleState>,
    report: ReportModel,
)
    requires
        published(engine, max_depth, rules, event, depth, after, report),
    ensures
        report.dropped >= 0,
    decreases max_depth - depth, 1int, 0int,
{
    let (middle, produced, failures, rest) = choose|
        middle: Seq<RuleState>,
        produced: Seq<EventModel>,
        failures: Seq<Failure>,
        rest: ReportModel,
    |
        #[trigger] composed(engine, rules, event, middle, produced, failures, rest, report)
            && spread(
            engine,
            max_depth,
            middle,
            produced,
            produced.len() as int,
            depth,
            after,
            rest,
        );
    lemma_spread_counts(
        engine,
        max_depth,
        middle,
        produced,
        produced.len() as int,
        depth,
        after,
        rest,
    );
}

/// No fewer than no events are left unpublished.
pub proof fn lemma_spread_counts(
    engine: EngineModel,
    max_depth: usize,
    rules: Seq<RuleState>,
    events: Seq<EventModel>,
    n: int,
    depth: int,
    after: Seq<RuleState>,
    report: ReportModel,
)
    requires
        spread(engine, max_depth, rules, events, n, depth, after, report),
    ensures
        report.dropped >= 0,
    decreases max_depth - depth, 0int, n,
{
    if n > 0 {
        let (middle, first, last) = choose|
            middle: Seq<RuleState>,
            first: ReportModel,
            last: ReportModel,
        |
            #[trigger] linked(middle, first, last, report) && spread(
                engine,
                max_depth,
                rules,
                events,
                n - 1,
                depth,
                middle,
                first,
            ) && if depth < max_depth {
                published(engine, max_depth, middle, events[n - 1], depth + 1, after, last)
            } else {
                after == middle && last == (ReportModel {
                    deliveries: Seq::empty(),
                    failures: Seq::empty(),
                    dropped: 1,
                })
            };
        lemma_spread_counts(engine, max_depth, rules, events, n - 1, depth, middle, first);
        if depth < max_depth {
            lemma_published_counts(engine, max_depth, middle, events[n - 1], depth + 1, after, last);
        }
    }
}

/// A delivery is in order: there is a subscription with its id, and it is
/// interested in the event.
pub open spec fn deliverable(
    listeners: Seq<(usize, SubscrFilter)>,
    delivery: (usize, EventModel),
) -> bool {
    exists|i: int|
        0 <= i < listeners.len() && (#[trigger] listeners[i]).0 == delivery.0 && interested(
            listeners[i].1,
            delivery.1,
        )
}

/// Every delivery of an event that is published is in order: it goes to a
/// subscription that is there and that is interested in the event.
pub proof fn lemma_published_deliverable(
    engine: EngineModel,
    max_depth: usize,
    rules: Seq<RuleState>,
    event: EventModel,
    depth: int,
    after: Seq<RuleState>,
    report: ReportModel,
)
    requires
        published(engine, max_depth, rules, event, depth, after, report),
    ensures
        forall|k: int|
            0 <= k < report.deliveries.len() ==> deliverable(
                engine.listeners,
                #[trigger] report.deliveries[k],
            ),
    decreases max_depth - depth, 1int, 0int,
{
    let (middle, produced, failures, rest) = choose|
        middle: Seq<RuleState>,
        produced: Seq<EventModel>,
        failures: Seq<Failure>,
        rest: ReportModel,
    |
        #[trigger] composed(engine, rules, event, middle, produced, failures, rest, report)
            && spread(
            engine,
            max_depth,
            middle,
            produced,
            produced.len() as int,
            depth,
            after,
            rest,
        );
    lemma_spread_deliverable(
        engine,
        max_depth,
        middle,
        produced,
        produced.len() as int,
        depth,
        after,
        rest,
    );
    lemma_notified(engine.listeners, event, engine.listeners.len() as int);
    let first = announced(engine.listeners, event);
    assert forall|k: int| 0 <= k < report.deliveries.len() implies deliverable(
        engine.listeners,
        #[trigger] report.deliveries[k],
    ) by {
        if k < first.len() {
            assert(report.deliveries[k] == first[k]);
        } else {
            assert(report.deliveries[k] == rest.deliveries[k - first.len()]);
        }
    }
}

/// Every delivery of the events that are spread is in order.
pub proof fn lemma_spread_deliverable(
    engine: EngineModel,
    max_depth: usize,
    rules: Seq<RuleState>,
    events: Seq<EventModel>,
    n: int,
    depth: int,
    after: Seq<RuleState>,
    report: ReportModel,
)
    requires
        spread(engine, max_depth, rules, events, n, depth, after, report),
    ensures
        forall|k: int|
            0 <= k < report.deliveries.len() ==> deliverable(
                engine.listeners,
                #[trigger] report.deliveries[k],
            ),
    decreases max_depth - depth, 0int, n,
{
    if n > 0 {
        let (middle, first, last) = choose|
            middle: Seq<RuleState>,
            first: ReportModel,
            last: ReportModel,
        |
            #[trigger] linked(middle, first, last, report) && spread(
                engine,
                max_depth,
                rules,
                events,
                n - 1,
                depth,
                middle,
                first,
            ) && if depth < max_depth {
                published(engine, max_depth, middle, events[n - 1], depth + 1, after, last)
            } else {
                after == middle && last == (ReportModel {
                    deliveries: Seq::empty(),
                    failures: Seq::empty(),
                    dropped: 1,
                })
            };
        lemma_spread_deliverable(engine, max_depth, rules, events, n - 1, depth, middle, first);
        if depth < max_depth {
            lemma_published_deliverable(
                engine,
                max_depth,
                middle,
                events[n - 1],
                depth + 1,
                after,
                last,
            );
        }
        assert forall|k: int| 0 <= k < report.deliveries.len() implies deliverable(
            engine.listeners,
            #[trigger] report.deliveries[k],
        ) by {
            if k < first.deliveries.len() {
                assert(report.deliveries[k] == first.deliveries[k]);
            } else {
                assert(report.deliveries[k] == last.deliveries[k - first.deliveries.len()]);
            }
        }
    }
}

/// After a listener has unsubscribed, nothing that is published is
/// delivered to it.
pub proof fn lemma_unsubscribed_silent(
    engine: EngineModel,
    id: usize,
    max_depth: usize,
    rules: Seq<RuleState>,
    event: EventModel,
    after: Seq<RuleState>,
    report: ReportModel,
)
    requires
        !engine.subscribed(id),
        published(engine, max_depth, rules, event, 0, after, report),
    ensures
        forall|k: int| 0 <= k < report.deliveries.len() ==> (#[trigger] report.deliveries[k]).0 != id,
{
    lemma_published_deliverable(engine, max_depth, rules, event, 0, after, report);
    assert forall|k: int| 0 <= k < report.deliveries.len() implies (#[trigger] report.deliveries[k]).0
        != id by {
        assert(deliverable(engine.listeners, report.deliveries[k]));
    }
}

/// Every subscription that is notified of an event is there and is
/// interested in the event.
pub proof fn lemma_notified(listeners: Seq<(usize, SubscrFilter)>, event: EventModel, n: int)
    requires
        0 <= n <= listeners.len(),
    ensures
        forall|k: int|
            0 <= k < notified(listeners, event, n).len() ==> deliverable(
                listeners,
                (#[trigger] notified(listeners, event, n)[k], event),
            ),
    decreases n,
{
    if n > 0 {
        lemma_notified(listeners, event, n - 1);
        let now = notified(listeners, event, n);
        let before = notified(listeners, event, n - 1);
        assert forall|k: int| 0 <= k < now.len() implies deliverable(
            listeners,
            (#[trigger] now[k], event),
        ) by {
            if k < before.len() {
                assert(now[k] == before[k]);
            } else {
                assert(listeners[n - 1].0 == now[k]);
            }
        }
    }
}

/// What is collected of the first evaluations does not depend on the later ones.
pub proof fn lemma_collected(
    affected: Seq<usize>,
    a: Seq<Result<Seq<EventModel>, EvalError>>,
    b: Seq<Result<Seq<EventModel>, EvalError>>,
    n: int,
)
    requires
        forall|i: int| 0 <= i < n ==> a[i] == b[i],
    ensures
        collected(affected, a, n) == collected(affected, b, n),
    decreases n,
{
    if n > 0 {
        lemma_collected(affected, a, b, n - 1);
    }
}

/// Whether one of the first `n` predicates of a rule refers to the tuple
/// with the given id.
pub open spec fn refers(rule: Rule, id: usize, n: int) -> bool {
    exists|i: int| 0 <= i < n && i < rule.predicates@.len() && (#[trigger] rule.predicates@[i]).tuple.ty_id == id
}

/// Once a subscription is taken out, there is none with its id.
pub proof fn lemma_unsubscribed(
    after: Seq<(usize, SubscrFilter)>,
    listeners: Seq<(usize, SubscrFilter)>,
    id: usize,
)
    requires
        after == unsubscribed(listeners, id, listeners.len() as int),
    ensures
        forall|i: int| 0 <= i < after.len() ==> (#[trigger] after[i]).0 != id,
{
    lemma_unsubscribed_prefix(listeners, id, listeners.len() as int);
}

/// None of the subscriptions that are kept has the id that was taken out.
pub proof fn lemma_unsubscribed_prefix(listeners: Seq<(usize, SubscrFilter)>, id: usize, n: int)
    requires
        0 <= n <= listeners.len(),
    ensures
        forall|i: int|
            0 <= i < unsubscribed(listeners, id, n).len() ==> (#[trigger] unsubscribed(
                listeners,
                id,
                n,
            )[i]).0 != id && exists|k: int| 0 <= k < n && listeners[k] == unsubscribed(listeners, id, n)[i],
    decreases n,
{
    if n > 0 {
        lemma_unsubscribed_prefix(listeners, id, n - 1);
        let now = unsubscribed(listeners, id, n);
        let before = unsubscribed(listeners, id, n - 1);
        assert forall|i: int| 0 <= i < now.len() implies (#[trigger] now[i]).0 != id && exists|
            k: int,
        | 0 <= k < n && listeners[k] == now[i] by {
            if i < before.len() {
                assert(now[i] == before[i]);
                let k = choose|k: int| 0 <= k < n - 1 && listeners[k] == before[i];
                assert(listeners[k] == now[i]);
            } else {
                assert(listeners[n - 1] == now[i]);
            }
        }
    }
}

} // verus!

//! The providers of the nodes of a rule.

use crate::tesla::expressions::BasicType;
use crate::tesla::predicates::Predicate;
use crate::tesla::{Rule, TupleDeclaration};
use crate::trex::cache::{Cache, Fetcher};
use crate::trex::collections::{types_in, ParameterTypes};
use crate::trex::rule_processor::{
    all_wf,
    shapes,
    windows_model,
    Node,
    NodeShape,
    RuleModel,
    RuleStacks,
};
use crate::trex::sqlite::{CacheEntry, CacheKey};
use crate::trex::stack::{stack_for, Stack, Trigger};
use std::collections::HashMap;
use std::marker::PhantomData;
use vstd::prelude::*;

verus! {

/// A provider of nodes: it offers, for a predicate, the node that evaluates
/// it, or nothing where the predicate is not of its kind.
pub trait NodeProvider {
    /// The caches of the nodes on static data.
    type C: Cache<K = CacheKey, V = CacheEntry>;

    /// The sources of the static data.
    type F: Fetcher<CacheKey, CacheEntry>;

    /// The state of the node that the provider offers for a predicate;
    /// `None` where it offers none. `types` holds the types of the
    /// parameters of the rule.
    spec fn offer(
        &self,
        idx: usize,
        tuple: TupleDeclaration,
        predicate: Predicate,
        types: Map<(usize, usize), BasicType>,
    ) -> Option<NodeShape>;

    /// The node for the predicate of index `idx`, whose tuples are those
    /// of the given declaration.
    fn provide(
        &self,
        idx: usize,
        tuple: &TupleDeclaration,
        predicate: &Predicate,
        parameters_ty: &ParameterTypes,
    ) -> (node: Option<Node<Self::C, Self::F>>)
        ensures
            match node {
                Some(made) => made.wf() && self.offer(
                    idx,
                    *tuple,
                    *predicate,
                    types_in(*parameters_ty),
                ) == Some(made.shape()),
                None => self.offer(idx, *tuple, *predicate, types_in(*parameters_ty)).is_none(),
            },
    ;
}

/// The offer of the first of the providers from `from` on that offers a
/// node for the predicate.
pub open spec fn first_offer<P: NodeProvider>(
    providers: Seq<P>,
    from: int,
    idx: usize,
    tuple: TupleDeclaration,
    predicate: Predicate,
    types: Map<(usize, usize), BasicType>,
) -> Option<NodeShape>
    decreases providers.len() - from,
{
    if from < 0 || from >= providers.len() {
        None
    } else {
        match providers[from].offer(idx, tuple, predicate, types) {
            Some(shape) => Some(shape),
            None => first_offer(providers, from + 1, idx, tuple, predicate, types),
        }
    }
}

/// The nodes of the predicates after the trigger, up to the predicate of
/// index `n`: each is the first offer for its predicate. `None` where the
/// tuple of one of them is not declared, or nobody offers a node for it.
pub open spec fn offered<P: NodeProvider>(
    providers: Seq<P>,
    predicates: Seq<Predicate>,
    tuples: Map<usize, TupleDeclaration>,
    types: Map<(usize, usize), BasicType>,
    n: int,
) -> Option<Seq<NodeShape>>
    decreases n,
{
    if n <= 1 {
        Some(Seq::empty())
    } else {
        match offered(providers, predicates, tuples, types, n - 1) {
            None => None,
            Some(before) => if tuples.contains_key(predicates[n - 1].tuple.ty_id) {
                match first_offer(
                    providers,
                    0,
                    (n - 1) as usize,
                    tuples[predicates[n - 1].tuple.ty_id],
                    predicates[n - 1],
                    types,
                ) {
                    Some(shape) => Some(before.push(shape)),
                    None => None,
                }
            } else {
                None
            },
        }
    }
}

/// The state in which the evaluation of a rule starts: the nodes that were
/// offered for its predicates, each stack with the longest time that its
/// window reaches back. `None` for a rule without predicates, and where a
/// node is missing.
pub open spec fn provided<P: NodeProvider>(
    providers: Seq<P>,
    rule: Rule,
    tuples: Map<usize, TupleDeclaration>,
    types: Map<(usize, usize), BasicType>,
) -> Option<RuleModel> {
    if rule.predicates@.len() == 0 {
        None
    } else {
        match offered(providers, rule.predicates@, tuples, types, rule.predicates@.len() as int) {
            Some(nodes) => Some(
                RuleModel { nodes: windows_model(nodes, 0, Seq::empty()), next_id: 0 },
            ),
            None => None,
        }
    }
}

/// The provider of the stacks of events: it offers a node for every event predicate.
pub struct StackProvider<C, F>(PhantomData<C>, PhantomData<F>);

impl<C, F> StackProvider<C, F> {
    /// The provider.
    pub fn new() -> (provider: StackProvider<C, F>) {
        StackProvider(PhantomData, PhantomData)
    }
}

impl<C: Cache<K = CacheKey, V = CacheEntry>, F: Fetcher<CacheKey, CacheEntry>> NodeProvider for StackProvider<
    C,
    F,
> {
    type C = C;

    type F = F;

    open spec fn offer(
        &self,
        idx: usize,
        tuple: TupleDeclaration,
        predicate: Predicate,
        types: Map<(usize, usize), BasicType>,
    ) -> Option<NodeShape> {
        match stack_for(idx, tuple, predicate) {
            Some(stack) => Some(NodeShape::Stack(stack)),
            None => None,
        }
    }

    fn provide(
        &self,
        idx: usize,
        tuple: &TupleDeclaration,
        predicate: &Predicate,
        parameters_ty: &ParameterTypes,
    ) -> (node: Option<Node<C, F>>)
    {
        match Stack::new(idx, tuple, predicate) {
            Some(stack) => Some(Node::Stack(stack)),
            None => None,
        }
    }
}

/// A provider of one of two kinds, so that providers of both kinds can
/// stand in one list.
pub enum EitherProvider<A: NodeProvider, B: NodeProvider<C = A::C, F = A::F>> {
    /// A provider of the first kind.
    First(A),
    /// A provider of the second kind.
    Second(B),
}

impl<A: NodeProvider, B: NodeProvider<C = A::C, F = A::F>> NodeProvider for EitherProvider<A, B> {
    type C = A::C;

    type F = A::F;

    open spec fn offer(
        &self,
        idx: usize,
        tuple: TupleDeclaration,
        predicate: Predicate,
        types: Map<(usize, usize), BasicType>,
    ) -> Option<NodeShape> {
        match self {
            EitherProvider::First(provider) => provider.offer(idx, tuple, predicate, types),
            EitherProvider::Second(provider) => provider.offer(idx, tuple, predicate, types),
        }
    }

    fn provide(
        &self,
        idx: usize,
        tuple: &TupleDeclaration,
        predicate: &Predicate,
        parameters_ty: &ParameterTypes,
    ) -> (node: Option<Node<A::C, A::F>>)
    {
        match self {
            EitherProvider::First(provider) => provider.provide(
                idx,
                tuple,
                predicate,
                parameters_ty,
            ),
            EitherProvider::Second(provider) => provider.provide(
                idx,
                tuple,
                predicate,
                parameters_ty,
            ),
        }
    }
}

/// The providers of an engine, in the order in which they are asked.
pub struct GeneralProvider<P: NodeProvider> {
    providers: Vec<P>,
}

impl<P: NodeProvider> GeneralProvider<P> {
    /// The providers.
    pub closed spec fn providers(&self) -> Seq<P> {
        self.providers@
    }

    /// No providers.
    pub fn new() -> (provider: GeneralProvider<P>)
        ensures
            provider.providers() == Seq::<P>::empty(),
    {
        GeneralProvider { providers: Vec::new() }
    }

    /// The given providers.
    pub fn with_providers(providers: Vec<P>) -> (provider: GeneralProvider<P>)
        ensures
            provider.providers() == providers@,
    {
        GeneralProvider { providers }
    }

    /// Adds a provider, which is asked after those that are there.
    pub fn add_provider(&mut self, provider: P)
        ensures
            final(self).providers() == old(self).providers().push(provider),
    {
        self.providers.push(provider);
    }

    fn node(
        &self,
        idx: usize,
        tuple: &TupleDeclaration,
        predicate: &Predicate,
        parameters_ty: &ParameterTypes,
    ) -> (node: Option<Node<P::C, P::F>>)
        ensures
            match node {
                Some(made) => made.wf() && first_offer(
                    self.providers(),
                    0,
                    idx,
                    *tuple,
                    *predicate,
                    types_in(*parameters_ty),
                ) == Some(made.shape()),
                None => first_offer(
                    self.providers(),
                    0,
                    idx,
                    *tuple,
                    *predicate,
                    types_in(*parameters_ty),
                ).is_none(),
            },
    {
        let mut i: usize = 0;
        while i < self.providers.len()
            invariant
                i <= self.providers.len(),
                first_offer(
                    self.providers(),
                    0,
                    idx,
                    *tuple,
                    *predicate,
                    types_in(*parameters_ty),
                ) == first_offer(
                    self.providers(),
                    i as int,
                    idx,
                    *tuple,
                    *predicate,
                    types_in(*parameters_ty),
                ),
            decreases self.providers.len() - i,
        {
            if let Some(node) = self.providers[i].provide(idx, tuple, predicate, parameters_ty) {
                return Some(node);
            }
            i += 1;
        }
        None
    }

    /// The evaluation of a rule: its trigger is the first predicate, and
    /// every predicate after it has the node of the first provider that
    /// offers one. `None` for a rule without predicates, for a predicate
    /// whose tuple is not declared, and for a predicate that no provider
    /// offers a node for.
    pub fn provide(
        &self,
        rule: Rule,
        tuples: &HashMap<usize, TupleDeclaration>,
        parameters_ty: &ParameterTypes,
    ) -> (stacks: Option<RuleStacks<P::C, P::F>>)
        ensures
            match stacks {
                Some(made) => {
                    &&& made.wf()
                    &&& made.rule() == rule
                    &&& rule.predicates@.len() > 0
                    &&& made.trigger().ty_id() == rule.predicates@[0].tuple.ty_id
                    &&& made.trigger().constraints() == rule.predicates@[0].tuple.constraints@
                    &&& provided(self.providers(), rule, tuples@, types_in(*parameters_ty)) == Some(
                        made.model(),
                    )
                },
                None => provided(
                    self.providers(),
                    rule,
                    tuples@,
                    types_in(*parameters_ty),
                ).is_none(),
            },
    {
        broadcast use vstd::std_specs::hash::group_hash_axioms;

        if rule.predicates.len() == 0 {
            return None;
        }
        let trigger = Trigger::new(&rule.predicates[0]);
        let mut nodes: Vec<Node<P::C, P::F>> = Vec::new();
        let mut i: usize = 1;
        assert(shapes(nodes@) =~= Seq::<NodeShape>::empty());
        while i < rule.predicates.len()
            invariant
                1 <= i <= rule.predicates.len(),
                all_wf(nodes@),
                offered(
                    self.providers(),
                    rule.predicates@,
                    tuples@,
                    types_in(*parameters_ty),
                    i as int,
                ) == Some(shapes(nodes@)),
            decreases rule.predicates.len() - i,
        {
            let predicate = &rule.predicates[i];
            let tuple = match tuples.get(&predicate.tuple.ty_id) {
                Some(tuple) => tuple,
                None => {
                    proof {
                        lemma_offered_stays_missing(
                            self.providers(),
                            rule.predicates@,
                            tuples@,
                            types_in(*parameters_ty),
                            i + 1,
                            rule.predicates@.len() as int,
                        );
                    }
                    return None;
                },
            };
            match self.node(i, tuple, predicate, parameters_ty) {
                Some(node) => {
                    let ghost before = nodes@;
                    nodes.push(node);
                    assert(shapes(nodes@) =~= shapes(before).push(node.shape()));
                },
                None => {
                    proof {
                        lemma_offered_stays_missing(
                            self.providers(),
                            rule.predicates@,
                            tuples@,
                            types_in(*parameters_ty),
                            i + 1,
                            rule.predicates@.len() as int,
                        );
                    }
                    return None;
                },
            }
            i += 1;
        }
        Some(RuleStacks::new(trigger, nodes, rule))
    }
}

/// Where a node is missing for the predicates up to one, it is missing for
/// the predicates up to every later one.
pub proof fn lemma_offered_stays_missing<P: NodeProvider>(
    providers: Seq<P>,
    predicates: Seq<Predicate>,
    tuples: Map<usize, TupleDeclaration>,
    types: Map<(usize, usize), BasicType>,
    n: int,
    m: int,
)
    requires
        n <= m,
        offered(providers, predicates, tuples, types, n).is_none(),
    ensures
        offered(providers, predicates, tuples, types, m).is_none(),
    decreases m - n,
{
    if n < m {
        lemma_offered_stays_missing(providers, predicates, tuples, types, n, m - 1);
    }
}

} // verus!

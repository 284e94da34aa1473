//! The node of a rule that evaluates a predicate on static data.

use crate::tesla::expressions::{clone_values, params_ascending, BasicType, Value, ValueModel};
use crate::tesla::predicates::{Predicate, PredicateType};
use crate::tesla::{TupleDeclaration, TupleType};
use crate::trex::cache::{
    faithful,
    hit,
    missed,
    source_of,
    stored_as,
    Cache,
    CachedFetcher,
    Fetcher,
};
use crate::trex::collections::{get_type_of, types_in, ParameterTypes};
use crate::trex::expressions::{
    evaluate_model,
    top_level,
    Binding,
    BindingModel,
    CompleteContext,
    CurrentModel,
    PartialResult,
};
use crate::trex::operations::EvalError;
use crate::trex::sqlite::query_builder::{SqlContext, SqlModel};
use crate::trex::sqlite::rows::StaticKind;
use crate::trex::sqlite::{
    CacheEntry,
    CacheEntryModel,
    CacheEntryValue,
    CacheEntryValueModel,
    CacheKey,
    CacheKeyModel,
};
use crate::tesla::expressions::Expression;
use vstd::prelude::*;

verus! {

/// A cache of the answers of the static data.
pub trait SqlCache: Cache<K = CacheKey, V = CacheEntry> {

}

impl<T: Cache<K = CacheKey, V = CacheEntry>> SqlCache for T {

}

/// The kind of a predicate on static data; `None` for another predicate.
pub open spec fn static_kind(ty: PredicateType) -> Option<StaticKind> {
    match ty {
        PredicateType::OrderedStatic { .. } => Some(StaticKind::Ordered),
        PredicateType::UnorderedStatic { .. } => Some(StaticKind::Unordered),
        PredicateType::StaticAggregate { .. } => Some(StaticKind::Aggregate),
        PredicateType::StaticNegation => Some(StaticKind::Negation),
        _ => None,
    }
}

/// Whether the predicate of index `idx` asks something of a table: the
/// table is static data, the predicate is on static data, its statement can
/// be composed, and the types of its parameters are known.
pub open spec fn asks(
    idx: usize,
    tuple: TupleDeclaration,
    predicate: Predicate,
    types: Map<(usize, usize), BasicType>,
) -> bool {
    &&& tuple.ty == TupleType::Static
    &&& static_kind(predicate.ty).is_some()
    &&& (SqlModel { idx, tuple, parameters: Seq::empty(), aggregate: None }).statement(
        predicate,
    ).is_some()
    &&& outputs_model(types, idx, predicate.ty.declared().len() as int).is_some()
}

/// The types of the first `n` parameters of the predicate of index `idx`;
/// `None` where the type of one is not known.
pub open spec fn outputs_model(
    types: Map<(usize, usize), BasicType>,
    idx: usize,
    n: int,
) -> Option<Seq<BasicType>>
    decreases n,
{
    if n <= 0 {
        Some(Seq::empty())
    } else {
        match outputs_model(types, idx, n - 1) {
            None => None,
            Some(known) => if types.contains_key((idx, (n - 1) as usize)) {
                Some(known.push(types[(idx, (n - 1) as usize)]))
            } else {
                None
            },
        }
    }
}

/// The parameters among the first `n` that are not of the predicate of index `idx`.
pub open spec fn inputs_model(params: Seq<(usize, usize)>, idx: usize, n: int) -> Seq<
    (usize, usize),
>
    decreases n,
{
    if n <= 0 {
        Seq::empty()
    } else if params[n - 1].0 != idx {
        inputs_model(params, idx, n - 1).push(params[n - 1])
    } else {
        inputs_model(params, idx, n - 1)
    }
}

/// What a predicate on static data asks: the statement, the parameters of
/// other predicates whose values it takes, and the types of the parameters
/// that it gives.
#[derive(Debug)]
pub struct StaticQuery {
    /// The index of the predicate in its rule.
    pub idx: usize,
    /// The kind of the predicate.
    pub kind: StaticKind,
    /// The statement.
    pub statement: String,
    /// The parameters whose values the statement takes.
    pub input_params: Vec<(usize, usize)>,
    /// The types of the parameters that the statement gives.
    pub output_params: Vec<BasicType>,
}

impl StaticQuery {
    /// What the predicate of index `idx` asks of a table; `None` unless
    /// the table is static data, the predicate is on static data, its
    /// statement can be composed and the types of its parameters are known.
    pub fn new(
        idx: usize,
        tuple: &TupleDeclaration,
        predicate: &Predicate,
        parameters_ty: &ParameterTypes,
    ) -> (query: Option<StaticQuery>)
        ensures
            query.is_some() == asks(idx, *tuple, *predicate, types_in(*parameters_ty)),
            match query {
                Some(q) => {
                    &&& tuple.ty == TupleType::Static
                    &&& q.idx == idx
                    &&& Some(q.kind) == static_kind(predicate.ty)
                    &&& Some(q.statement@) == (SqlModel {
                        idx,
                        tuple: *tuple,
                        parameters: Seq::empty(),
                        aggregate: None,
                    }).statement(*predicate)
                    &&& Some(q.output_params@) == outputs_model(
                        types_in(*parameters_ty),
                        idx,
                        predicate.ty.declared().len() as int,
                    )
                    &&& exists|used: Seq<(usize, usize)>|
                        params_ascending(used) && used.to_set() =~= predicate.used_parameters()
                            && q.input_params@ == inputs_model(used, idx, used.len() as int)
                },
                None => true,
            },
    {
        match tuple.ty {
            TupleType::Static => {},
            TupleType::Event => {
                return None;
            },
        }
        let (kind, count) = match &predicate.ty {
            PredicateType::OrderedStatic { parameters, .. } => (
                StaticKind::Ordered,
                parameters.len(),
            ),
            PredicateType::UnorderedStatic { parameters } => (
                StaticKind::Unordered,
                parameters.len(),
            ),
            PredicateType::StaticAggregate { .. } => (StaticKind::Aggregate, 1),
            PredicateType::StaticNegation => (StaticKind::Negation, 0),
            _ => {
                return None;
            },
        };
        let used = predicate.get_used_parameters();
        let mut input_params: Vec<(usize, usize)> = Vec::new();
        let mut i: usize = 0;
        while i < used.len()
            invariant
                i <= used.len(),
                input_params@ == inputs_model(used@, idx, i as int),
            decreases used.len() - i,
        {
            if used[i].0 != idx {
                input_params.push(used[i]);
            }
            i += 1;
        }
        let mut output_params: Vec<BasicType> = Vec::new();
        let mut n: usize = 0;
        while n < count
            invariant
                n <= count,
                count == predicate.ty.declared().len(),
                outputs_model(types_in(*parameters_ty), idx, n as int) == Some(output_params@),
            decreases count - n,
        {
            match get_type_of(parameters_ty, (idx, n)) {
                Some(ty) => {
                    output_params.push(ty);
                },
                None => {
                    proof {
                        lemma_outputs_none(types_in(*parameters_ty), idx, n as int + 1, count as int);
                    }
                    return None;
                },
            }
            n += 1;
        }
        let statement = match SqlContext::new(idx, tuple).encode_predicate(predicate) {
            Some(statement) => statement,
            None => {
                return None;
            },
        };
        Some(StaticQuery { idx, kind, statement, input_params, output_params })
    }
}

/// Where the type of a parameter is not known, the types are not.
proof fn lemma_outputs_none(types: Map<(usize, usize), BasicType>, idx: usize, n: int, m: int)
    requires
        0 <= n <= m,
        outputs_model(types, idx, n).is_none(),
    ensures
        outputs_model(types, idx, m).is_none(),
    decreases m - n,
{
    if n < m {
        lemma_outputs_none(types, idx, n, m - 1);
    }
}

/// The values of the parameters from index `from` on; the first one that
/// cannot be had gives the error.
pub open spec fn inputs_values(
    predicates: Seq<Predicate>,
    bound: Seq<BindingModel>,
    current: CurrentModel,
    params: Seq<(usize, usize)>,
    from: int,
) -> Result<Seq<ValueModel>, EvalError>
    decreases params.len() - from,
{
    if from < 0 || from >= params.len() {
        Ok(Seq::empty())
    } else {
        match evaluate_model(
            predicates,
            bound,
            current,
            top_level(bound),
            Expression::Parameter { predicate: params[from].0, parameter: params[from].1 },
        ) {
            Err(error) => Err(error),
            Ok(value) => match inputs_values(predicates, bound, current, params, from + 1) {
                Err(error) => Err(error),
                Ok(rest) => Ok(seq![value] + rest),
            },
        }
    }
}

/// The key under which the answer for a partial result is cached.
pub open spec fn key_model(
    statement: Seq<char>,
    params: Seq<(usize, usize)>,
    predicates: Seq<Predicate>,
    bound: Seq<BindingModel>,
    current: CurrentModel,
) -> Result<CacheKeyModel, EvalError> {
    match inputs_values(predicates, bound, current, params, 0) {
        Err(error) => Err(error),
        Ok(values) => Ok(CacheKeyModel { statement, input_params: values }),
    }
}

/// The rows of `chunk` values each that the values from index `at` on make;
/// the last row is shorter where the values do not fill it.
pub open spec fn rows_from(values: Seq<ValueModel>, chunk: usize, at: int) -> Seq<Seq<ValueModel>>
    decreases values.len() - at,
{
    if chunk == 0 || at < 0 || at >= values.len() {
        Seq::empty()
    } else {
        let end = if at + chunk > values.len() {
            values.len() as int
        } else {
            at + chunk
        };
        seq![values.subrange(at, end)] + rows_from(values, chunk, end)
    }
}

/// The partial results that an answer of the static data makes of one.
///
/// Rows of values give one partial result each, with the values as the
/// parameters of the predicate; a number of rows gives as many partial
/// results, without parameters; an aggregate gives one with its value; and
/// an existence gives one, without parameters, exactly where nothing exists.
pub open spec fn materialize_model(bound: Seq<BindingModel>, answer: CacheEntryValueModel) -> Seq<
    Seq<BindingModel>,
> {
    match answer {
        CacheEntryValueModel::Values(chunk, values) => {
            let rows = rows_from(values, chunk, 0);
            Seq::new(rows.len(), |i: int| bound.push(BindingModel::Row(rows[i])))
        },
        CacheEntryValueModel::Count(count) => Seq::new(
            count as nat,
            |i: int| bound.push(BindingModel::Row(Seq::empty())),
        ),
        CacheEntryValueModel::Aggr(value) => seq![bound.push(BindingModel::Row(seq![value]))],
        CacheEntryValueModel::Exists(exists) => if exists {
            Seq::empty()
        } else {
            seq![bound.push(BindingModel::Nothing)]
        },
    }
}

/// Makes partial results of a partial result and an answer of the static data.
pub fn materialize(result: &PartialResult, entry: &CacheEntry) -> (results: Vec<PartialResult>)
    ensures
        results.deep_view() == materialize_model(result.deep_view(), entry.deep_view().value),
{
    let mut results: Vec<PartialResult> = Vec::new();
    let ghost bound = result.deep_view();
    assert(results.deep_view() =~= Seq::<Seq<BindingModel>>::empty());
    match &entry.value {
        CacheEntryValue::Values(chunk, values) => {
            let chunk = *chunk;
            let ghost all = values.deep_view();
            let ghost rows = rows_from(all, chunk, 0);
            if chunk == 0 {
                assert(results.deep_view() =~= materialize_model(bound, entry.deep_view().value));
                return results;
            }
            let mut at: usize = 0;
            let ghost mut done: Seq<Seq<ValueModel>> = Seq::empty();
            assert(done + rows_from(all, chunk, 0) =~= rows);
            while at < values.len()
                invariant
                    at <= values.len(),
                    chunk > 0,
                    all == values.deep_view(),
                    bound == result.deep_view(),
                    rows == done + rows_from(all, chunk, at as int),
                    results.deep_view() == Seq::new(
                        done.len(),
                        |i: int| bound.push(BindingModel::Row(done[i])),
                    ),
                decreases values.len() - at,
            {
                let end = if chunk > values.len() - at {
                    values.len()
                } else {
                    at + chunk
                };
                let mut row: Vec<Value> = Vec::new();
                let mut i: usize = at;
                assert(row.deep_view() =~= all.subrange(at as int, at as int));
                while i < end
                    invariant
                        at <= i <= end <= values.len(),
                        all == values.deep_view(),
                        row.deep_view() == all.subrange(at as int, i as int),
                    decreases end - i,
                {
                    let ghost before = row.deep_view();
                    assert(all[i as int] == values@[i as int].deep_view());
                    row.push(values[i].clone());
                    assert(row.deep_view() =~= before.push(all[i as int]));
                    assert(row.deep_view() =~= all.subrange(at as int, i + 1));
                    i += 1;
                }
                let ghost before = results.deep_view();
                let ghost taken = row.deep_view();
                let extended = result.extended(Binding::Row(row));
                results.push(extended);
                proof {
                    assert(results.deep_view() =~= before.push(
                        bound.push(BindingModel::Row(taken)),
                    ));
                    let next = done.push(taken);
                    assert(done + (seq![taken] + rows_from(all, chunk, end as int)) =~= next
                        + rows_from(all, chunk, end as int));
                    assert(results.deep_view() =~= Seq::new(
                        next.len(),
                        |i: int| bound.push(BindingModel::Row(next[i])),
                    ));
                    done = next;
                }
                at = end;
            }
            assert(done + Seq::<Seq<ValueModel>>::empty() =~= done);
        },
        CacheEntryValue::Count(count) => {
            let mut i: usize = 0;
            while i < *count
                invariant
                    i <= *count,
                    bound == result.deep_view(),
                    results.deep_view() == Seq::new(
                        i as nat,
                        |k: int| bound.push(BindingModel::Row(Seq::empty())),
                    ),
                decreases *count - i,
            {
                let ghost before = results.deep_view();
                let row: Vec<Value> = Vec::new();
                assert(row.deep_view() =~= Seq::<ValueModel>::empty());
                let extended = result.extended(Binding::Row(row));
                results.push(extended);
                assert(results.deep_view() =~= before.push(
                    bound.push(BindingModel::Row(Seq::empty())),
                ));
                assert(results.deep_view() =~= Seq::new(
                    (i + 1) as nat,
                    |k: int| bound.push(BindingModel::Row(Seq::empty())),
                ));
                i += 1;
            }
        },
        CacheEntryValue::Aggr(value) => {
            let mut row: Vec<Value> = Vec::new();
            row.push(value.clone());
            assert(row.deep_view() =~= seq![value.deep_view()]);
            let extended = result.extended(Binding::Row(row));
            results.push(extended);
            assert(results.deep_view() =~= seq![
                bound.push(BindingModel::Row(seq![value.deep_view()])),
            ]);
        },
        CacheEntryValue::Exists(exists) => {
            if !*exists {
                let extended = result.extended(Binding::Nothing);
                results.push(extended);
                assert(results.deep_view() =~= seq![bound.push(BindingModel::Nothing)]);
            }
        },
    }
    results
}

/// The node of a rule that evaluates a predicate on static data: it asks a
/// source for the answers and keeps them in a cache.
pub struct SQLiteDriver<C: Cache<K = CacheKey, V = CacheEntry>, F: Fetcher<CacheKey, CacheEntry>> {
    idx: usize,
    statement: String,
    input_params: Vec<(usize, usize)>,
    fetcher: CachedFetcher<C, F>,
}

impl<C: Cache<K = CacheKey, V = CacheEntry>, F: Fetcher<CacheKey, CacheEntry>> SQLiteDriver<C, F> {
    /// The index of the predicate in its rule.
    pub closed spec fn idx(&self) -> usize {
        self.idx
    }

    /// The statement of the predicate.
    pub closed spec fn statement(&self) -> Seq<char> {
        self.statement@
    }

    /// The parameters whose values the statement takes.
    pub closed spec fn input_params(&self) -> Seq<(usize, usize)> {
        self.input_params@
    }

    /// The cache of the node.
    pub closed spec fn cache(&self) -> C {
        self.fetcher.cache
    }

    /// What the cache of the node holds.
    pub open spec fn cached(&self) -> Map<CacheKeyModel, CacheEntryModel> {
        self.cache().entries()
    }

    /// What the static data may answer.
    pub closed spec fn source(&self) -> spec_fn(CacheKeyModel, CacheEntryModel) -> bool {
        source_of::<CacheKey, CacheEntry, F>(self.fetcher.fetcher)
    }

    /// Whether the static data may give the answer for the key.
    pub open spec fn answers(&self, key: CacheKeyModel, answer: CacheEntryModel) -> bool {
        (self.source())(key, answer)
    }

    /// Whether the node is in order: its cache is, and every answer in the
    /// cache is one that the static data may give for its key.
    pub closed spec fn wf(&self) -> bool {
        self.fetcher.cache.wf() && faithful::<CacheKey, CacheEntry, F>(
            self.fetcher.cache.entries(),
            self.fetcher.fetcher,
        )
    }

    /// The node for what a predicate asks, with the source of the answers
    /// and the cache to keep them in.
    pub fn with_query(query: StaticQuery, fetcher: F, cache: C) -> (driver: SQLiteDriver<C, F>)
        requires
            cache.wf(),
            faithful::<CacheKey, CacheEntry, F>(cache.entries(), fetcher),
        ensures
            driver.wf(),
            driver.idx() == query.idx,
            driver.statement() == query.statement@,
            driver.input_params() == query.input_params@,
            driver.cache() == cache,
            driver.source() == source_of::<CacheKey, CacheEntry, F>(fetcher),
    {
        SQLiteDriver {
            idx: query.idx,
            statement: query.statement,
            input_params: query.input_params,
            fetcher: CachedFetcher::with_cache(cache, fetcher),
        }
    }

    /// The node for the predicate of index `idx` on a table; `None` where
    /// the predicate asks nothing of the table (see `StaticQuery::new`).
    pub fn new(
        idx: usize,
        tuple: &TupleDeclaration,
        predicate: &Predicate,
        parameters_ty: &ParameterTypes,
        fetcher: F,
        cache: C,
    ) -> (driver: Option<SQLiteDriver<C, F>>)
        requires
            cache.wf(),
            faithful::<CacheKey, CacheEntry, F>(cache.entries(), fetcher),
        ensures
            driver.is_some() == asks(idx, *tuple, *predicate, types_in(*parameters_ty)),
            match driver {
                Some(d) => d.wf() && d.idx() == idx && d.cache() == cache && d.source()
                    == source_of::<CacheKey, CacheEntry, F>(fetcher) && Some(
                    d.statement(),
                ) == (SqlModel {
                    idx,
                    tuple: *tuple,
                    parameters: Seq::empty(),
                    aggregate: None,
                }).statement(*predicate),
                None => true,
            },
    {
        match StaticQuery::new(idx, tuple, predicate, parameters_ty) {
            Some(query) => Some(SQLiteDriver::with_query(query, fetcher, cache)),
            None => None,
        }
    }

    /// The index of the predicate in its rule.
    pub fn get_idx(&self) -> (idx: usize)
        ensures
            idx == self.idx(),
    {
        self.idx
    }

    /// The key under which the answer for the partial result of a context is cached.
    pub fn prepare_key(&self, context: &CompleteContext) -> (key: Result<CacheKey, EvalError>)
        ensures
            match key {
                Ok(k) => key_model(
                    self.statement(),
                    self.input_params(),
                    context.predicates(),
                    context.bound(),
                    context.current(),
                ) == Ok::<CacheKeyModel, EvalError>(k.deep_view()),
                Err(error) => key_model(
                    self.statement(),
                    self.input_params(),
                    context.predicates(),
                    context.bound(),
                    context.current(),
                ) == Err::<CacheKeyModel, EvalError>(error),
            },
    {
        let mut values: Vec<Value> = Vec::new();
        let mut i: usize = self.input_params.len();
        assert(values.deep_view() =~= Seq::<ValueModel>::empty());
        let mut failed: Option<EvalError> = None;
        while i > 0
            invariant
                i <= self.input_params.len(),
                match failed {
                    None => inputs_values(
                        context.predicates(),
                        context.bound(),
                        context.current(),
                        self.input_params@,
                        i as int,
                    ) == Ok::<Seq<ValueModel>, EvalError>(values.deep_view()),
                    Some(error) => inputs_values(
                        context.predicates(),
                        context.bound(),
                        context.current(),
                        self.input_params@,
                        i as int,
                    ) == Err::<Seq<ValueModel>, EvalError>(error),
                },
            decreases i,
        {
            i -= 1;
            match context.get_parameter(self.input_params[i].0, self.input_params[i].1) {
                Ok(value) => {
                    if failed.is_none() {
                        let ghost before = values.deep_view();
                        values.insert(0, value);
                        assert(values.deep_view() =~= seq![value.deep_view()] + before);
                    }
                },
                Err(error) => {
                    failed = Some(error);
                },
            }
        }
        match failed {
            Some(error) => Err(error),
            None => Ok(CacheKey { statement: self.statement.clone(), input_params: values }),
        }
    }

    /// The partial results that the predicate makes of the one of the context.
    ///
    /// The answer is the one that the cache holds under the key of the
    /// partial result or, where it holds none, the one that the source
    /// gives, which is stored in the cache as the policy of the cache has
    /// it. Either way it is an answer that the static data may give for the
    /// key.
    pub fn evaluate(&mut self, context: &CompleteContext) -> (results: Result<
        Vec<PartialResult>,
        EvalError,
    >)
        requires
            old(self).wf(),
        ensures
            final(self).wf(),
            final(self).idx() == old(self).idx(),
            final(self).statement() == old(self).statement(),
            final(self).input_params() == old(self).input_params(),
            final(self).source() == old(self).source(),
            match key_model(
                old(self).statement(),
                old(self).input_params(),
                context.predicates(),
                context.bound(),
                context.current(),
            ) {
                Err(error) => results == Err::<Vec<PartialResult>, EvalError>(error) && final(self).cache() == old(self).cache(),
                Ok(key) => results is Ok && exists|answer: CacheEntryModel|
                    {
                        &&& #[trigger] materialize_model(context.bound(), answer.value)
                            == results.unwrap().deep_view()
                        &&& old(self).answers(key, answer)
                        &&& asked(old(self).cache(), key, answer, final(self).cache())
                    },
            },
    {
        let key = self.prepare_key(context)?;
        let ghost sought = key;
        let ghost before = self.fetcher.cache;
        let fetched = self.fetcher.fetch(key);
        let results = materialize(context.get_result(), fetched.get());
        proof {
            let answer = fetched.model();
            assert(materialize_model(context.bound(), answer.value) == results.deep_view());
            if !before.entries().contains_key(sought.deep_view()) {
                assert(missed(before, sought, answer, fetched is Cached, self.fetcher.cache));
            }
            assert(asked(before, sought.deep_view(), answer, self.fetcher.cache));
        }
        Ok(results)
    }
}

/// Whether `answer` is the answer that a cache gives for a key, and `after`
/// the cache then. Where the cache holds an answer under the key, that is
/// the answer, and the cache was looked into and used. Where it holds none,
/// the cache was looked into and the answer was stored under the key: the
/// cache has kept it or refused it as its policy has it, and a cache that
/// has refused it holds what it held.
pub open spec fn asked<C: Cache<K = CacheKey, V = CacheEntry>>(
    before: C,
    key: CacheKeyModel,
    answer: CacheEntryModel,
    after: C,
) -> bool {
    if before.entries().contains_key(key) {
        &&& answer == before.entries()[key]
        &&& after.entries() == before.entries()
        &&& hit(before, key, after)
    } else {
        &&& stored_as(before.entries(), after.entries(), key, answer)
        &&& !after.entries().contains_key(key) ==> after.entries() == before.entries()
        &&& exists|sought: CacheKey, kept: bool|
            sought.deep_view() == key && #[trigger] missed(before, sought, answer, kept, after)
                && kept == after.entries().contains_key(key)
    }
}

} // verus!

//! The predicates on static data: the statement that a predicate asks, the
//! key and the entry under which its answers are cached, and the partial
//! results that are made of an answer.

pub mod caches;
pub mod driver;
pub mod query_builder;
pub mod rows;

use crate::tesla::expressions::{clone_values, Value, ValueModel};
use crate::trex::cache::collision::{fnv_fold, low_bytes, Digest, ModHasher};
use crate::trex::cache::{HasCost, HasSize, KeyEq};
use vstd::string::StrSliceExecFns;
use vstd::utf8::encode_utf8;
use vstd::prelude::*;

verus! {

/// The key of a cached answer: the statement and the values of the
/// parameters that it was asked with.
#[derive(Debug, Hash)]
pub struct CacheKey {
    /// The statement.
    pub statement: String,
    /// The values of the parameters that the statement takes.
    pub input_params: Vec<Value>,
}

/// What a `CacheKey` holds.
pub struct CacheKeyModel {
    pub statement: Seq<char>,
    pub input_params: Seq<ValueModel>,
}

impl DeepView for CacheKey {
    type V = CacheKeyModel;

    open spec fn deep_view(&self) -> CacheKeyModel {
        CacheKeyModel { statement: self.statement@, input_params: self.input_params.deep_view() }
    }
}

/// Whether two lists hold the same values.
pub fn same_values(a: &Vec<Value>, b: &Vec<Value>) -> (same: bool)
    ensures
        same == (a.deep_view() == b.deep_view()),
{
    if a.len() != b.len() {
        assert(a.deep_view().len() != b.deep_view().len());
        return false;
    }
    let mut i: usize = 0;
    while i < a.len()
        invariant
            i <= a.len(),
            a.len() == b.len(),
            forall|k: int| 0 <= k < i ==> a.deep_view()[k] == b.deep_view()[k],
        decreases a.len() - i,
    {
        assert(a.deep_view()[i as int] == a@[i as int].deep_view());
        assert(b.deep_view()[i as int] == b@[i as int].deep_view());
        if !a[i].same(&b[i]) {
            return false;
        }
        i += 1;
    }
    assert(a.deep_view() =~= b.deep_view());
    true
}

impl CacheKey {
    /// Whether the two keys hold the same statement and the same values.
    pub fn same(&self, other: &CacheKey) -> (same: bool)
        ensures
            same == (self.deep_view() == other.deep_view()),
    {
        self.statement == other.statement && same_values(&self.input_params, &other.input_params)
    }
}

impl PartialEq for CacheKey {
    fn eq(&self, other: &CacheKey) -> (equal: bool) {
        self.same(other)
    }
}

impl vstd::std_specs::cmp::PartialEqSpecImpl for CacheKey {
    open spec fn obeys_eq_spec() -> bool {
        true
    }

    open spec fn eq_spec(&self, other: &CacheKey) -> bool {
        self.deep_view() == other.deep_view()
    }
}

impl Eq for CacheKey {

}

impl KeyEq for CacheKey {
    fn same_key(&self, other: &CacheKey) -> (same: bool) {
        self.same(other)
    }
}

/// The number that stands in the hash of a key for a value that is no
/// string.
pub open spec fn word_of(value: ValueModel) -> u64 {
    match value {
        ValueModel::Int(x) => if x >= 0 {
            x as u64
        } else {
            (x + 0x1_0000_0000_0000_0000) as u64
        },
        ValueModel::Float(x) => x,
        ValueModel::Bool(x) => if x {
            1
        } else {
            0
        },
        ValueModel::Str(_) => 0,
    }
}

/// The state of a hasher once a value is written to it: a string by its
/// bytes, any other value by the eight bytes of its number.
pub open spec fn value_digest(value: ValueModel, state: u64) -> u64 {
    match value {
        ValueModel::Str(text) => fnv_fold(state, encode_utf8(text), encode_utf8(text).len() as int),
        other => fnv_fold(state, low_bytes(word_of(other)), 8),
    }
}

/// The state of a hasher once the first `n` values are written to it.
pub open spec fn words_digest(values: Seq<ValueModel>, state: u64, n: int) -> u64
    decreases n,
{
    if n <= 0 {
        state
    } else {
        value_digest(values[n - 1], words_digest(values, state, n - 1))
    }
}

fn write_value(value: &Value, state: &mut ModHasher)
    ensures
        final(state).state() == value_digest(value.deep_view(), old(state).state()),
        final(state).modulus() == old(state).modulus(),
{
    match value {
        Value::Int(x) => {
            let word: u64 = if *x >= 0 {
                *x as u64
            } else {
                (*x as i128 + 0x1_0000_0000_0000_0000) as u64
            };
            state.write_u64(word);
        },
        Value::Float(x) => {
            state.write_u64(x.to_bits());
        },
        Value::Bool(x) => {
            let word: u64 = if *x {
                1
            } else {
                0
            };
            state.write_u64(word);
        },
        Value::Str(x) => {
            state.write(x.as_str().as_bytes());
        },
    }
}

impl Digest for CacheKey {
    open spec fn digest(key: CacheKeyModel, state: u64) -> u64 {
        words_digest(
            key.input_params,
            fnv_fold(state, encode_utf8(key.statement), encode_utf8(key.statement).len() as int),
            key.input_params.len() as int,
        )
    }

    fn hash(&self, state: &mut ModHasher) {
        state.write(self.statement.as_str().as_bytes());
        let ghost start = state.state();
        let mut i: usize = 0;
        while i < self.input_params.len()
            invariant
                i <= self.input_params.len(),
                state.modulus() == old(state).modulus(),
                state.state() == words_digest(self.input_params.deep_view(), start, i as int),
            decreases self.input_params.len() - i,
        {
            assert(self.input_params.deep_view()[i as int]
                == self.input_params@[i as int].deep_view());
            write_value(&self.input_params[i], state);
            i += 1;
        }
    }
}

impl Clone for CacheKey {
    fn clone(&self) -> (copy: CacheKey)
        ensures
            copy.deep_view() == self.deep_view(),
    {
        CacheKey { statement: self.statement.clone(), input_params: clone_values(&self.input_params) }
    }
}

/// An answer of the static data.
#[derive(Debug)]
pub enum CacheEntryValue {
    /// Rows of values: the values of all the rows, one row after the other,
    /// and the number of values that make a row.
    Values(usize, Vec<Value>),
    /// The value of an aggregate.
    Aggr(Value),
    /// The number of rows, where a row holds no values.
    Count(usize),
    /// Whether there is a row.
    Exists(bool),
}

/// What a `CacheEntryValue` holds.
pub enum CacheEntryValueModel {
    Values(usize, Seq<ValueModel>),
    Aggr(ValueModel),
    Count(usize),
    Exists(bool),
}

impl DeepView for CacheEntryValue {
    type V = CacheEntryValueModel;

    open spec fn deep_view(&self) -> CacheEntryValueModel {
        match self {
            CacheEntryValue::Values(chunk, values) => CacheEntryValueModel::Values(
                *chunk,
                values.deep_view(),
            ),
            CacheEntryValue::Aggr(value) => CacheEntryValueModel::Aggr(value.deep_view()),
            CacheEntryValue::Count(count) => CacheEntryValueModel::Count(*count),
            CacheEntryValue::Exists(exists) => CacheEntryValueModel::Exists(*exists),
        }
    }
}

/// An answer of the static data, with what it cost to obtain.
#[derive(Debug)]
pub struct CacheEntry {
    /// The time that the query took, in nanoseconds.
    pub cost: usize,
    /// The answer.
    pub value: CacheEntryValue,
}

/// What a `CacheEntry` holds.
pub struct CacheEntryModel {
    pub cost: usize,
    pub value: CacheEntryValueModel,
}

impl DeepView for CacheEntry {
    type V = CacheEntryModel;

    open spec fn deep_view(&self) -> CacheEntryModel {
        CacheEntryModel { cost: self.cost, value: self.value.deep_view() }
    }
}

impl HasCost for CacheEntry {
    open spec fn cost_model(&self) -> usize {
        self.cost
    }

    fn cost(&self) -> (cost: usize) {
        self.cost
    }
}

impl HasSize for CacheEntry {
    open spec fn size_model(&self) -> usize {
        match self.value {
            CacheEntryValue::Values(_, values) => values@.len() as usize,
            CacheEntryValue::Aggr(_) => 1,
            CacheEntryValue::Count(count) => count,
            CacheEntryValue::Exists(_) => 1,
        }
    }

    fn size(&self) -> (size: usize) {
        match &self.value {
            CacheEntryValue::Values(_, values) => values.len(),
            CacheEntryValue::Aggr(_) => 1,
            CacheEntryValue::Count(count) => *count,
            CacheEntryValue::Exists(_) => 1,
        }
    }
}

/// Who owns the cache of a predicate on static data.
#[derive(Clone, Copy, Debug, PartialEq, Eq, Structural)]
pub enum CacheOwnership {
    /// One cache for all the predicates.
    Shared,
    /// A cache for each predicate.
    PerPredicate,
}

/// The policy of a cache.
#[derive(Clone, Copy, Debug, PartialEq, Eq, Structural)]
pub enum CacheType {
    /// Nothing is cached.
    Dummy,
    /// A hash table with a fixed number of chains, which keeps every value.
    Collision,
    /// The entry that was used least recently leaves, by number of entries.
    Lru,
    /// The entry that was used least recently leaves, by size.
    LruSize,
    /// Greedy dual size frequency.
    Gdfs,
}

/// The configuration of the predicates on static data.
#[derive(Debug)]
pub struct SqliteConfig {
    /// The file of the database.
    pub db_file: String,
    /// The number of connections that are kept open.
    pub pool_size: u32,
    /// The capacity of a cache.
    pub cache_size: usize,
    /// Who owns a cache.
    pub cache_ownership: CacheOwnership,
    /// The policy of a cache.
    pub cache_type: CacheType,
}

} // verus!

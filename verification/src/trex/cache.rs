//! Caches, and the fetcher that answers from a cache where it can.

pub mod chain;
pub mod collision;
pub mod dummy;
pub mod gdfs_cache;
pub mod lru;
pub mod lru_size;
pub mod unbounded;

use vstd::prelude::*;

verus! {

/// The size of a value, as a cache counts it.
pub trait HasSize {
    /// The size of the value.
    spec fn size_model(&self) -> usize;

    /// The size of the value.
    fn size(&self) -> (size: usize)
        ensures
            size == self.size_model(),
    ;
}

/// What it cost to obtain a value.
pub trait HasCost {
    /// The cost of the value.
    spec fn cost_model(&self) -> usize;

    /// The cost of the value.
    fn cost(&self) -> (cost: usize)
        ensures
            cost == self.cost_model(),
    ;
}

/// Keys that can be compared: two keys are the same when they hold the same.
pub trait KeyEq: DeepView + Sized {
    /// Whether the two keys hold the same.
    fn same_key(&self, other: &Self) -> (same: bool)
        ensures
            same == (self.deep_view() == other.deep_view()),
    ;
}

/// What a cache holds: values, as what they hold, under keys, as what they hold.
pub type Entries<C> = Map<
    <<C as Cache>::K as DeepView>::V,
    <<C as Cache>::V as DeepView>::V,
>;

/// A cache. Whatever its policy, it never holds under a key anything but
/// the value that was last stored under it.
pub trait Cache: Sized {
    /// The keys.
    type K: DeepView;

    /// The values.
    type V: DeepView;

    /// What the cache holds.
    spec fn entries(&self) -> Entries<Self>;

    /// Whether the cache is in order.
    spec fn wf(&self) -> bool;

    /// Whether the cache keeps a value that is stored under a key. Each
    /// policy says here what it takes and what it refuses.
    spec fn takes(&self, k: Self::K, v: Self::V) -> bool;

    /// Whether `after` is the cache once a value was stored under a key.
    /// Each policy says here where the value stands and which entries leave.
    spec fn stored(&self, k: Self::K, v: Self::V, after: Self) -> bool;

    /// Whether `after` is the cache once the value under a key was fetched.
    spec fn used(&self, k: <Self::K as DeepView>::V, after: Self) -> bool;

    /// Whether `after` is the cache once it was asked whether it holds a
    /// value under a key.
    spec fn looked(&self, k: <Self::K as DeepView>::V, after: Self) -> bool;

    /// Whether `after` is the cache once the value under a key was removed.
    spec fn removed(&self, k: <Self::K as DeepView>::V, after: Self) -> bool;

    /// Stores a value under a key. The cache keeps the value or refuses
    /// it, as its policy has it. A cache that keeps the value may let
    /// other entries go; one that refuses it hands it back, holds nothing
    /// under the key, and holds under the other keys what it held.
    fn store(&mut self, k: Self::K, v: Self::V) -> (stored: Result<&Self::V, Self::V>)
        requires
            old(self).wf(),
        ensures
            final(self).wf(),
            old(self).stored(k, v, *final(self)),
            stored is Ok == old(self).takes(k, v),
            stored_as(old(self).entries(), final(self).entries(), k.deep_view(), v.deep_view()),
            match stored {
                Ok(value) => value.deep_view() == v.deep_view() && final(self).entries().contains_key(
                    k.deep_view(),
                ),
                Err(value) => value.deep_view() == v.deep_view() && final(self).entries() == old(self).entries().remove(k.deep_view()),
            },
    ;

    /// The value under a key. The cache holds afterwards what it held before.
    fn fetch(&mut self, k: &Self::K) -> (found: Option<&Self::V>)
        requires
            old(self).wf(),
        ensures
            final(self).wf(),
            old(self).used(k.deep_view(), *final(self)),
            final(self).entries() == old(self).entries(),
            match found {
                Some(value) => old(self).entries().contains_key(k.deep_view()) && value.deep_view()
                    == old(self).entries()[k.deep_view()],
                None => !old(self).entries().contains_key(k.deep_view()),
            },
    ;

    /// Whether the cache holds a value under a key. The cache holds
    /// afterwards what it held before.
    fn contains(&mut self, k: &Self::K) -> (held: bool)
        requires
            old(self).wf(),
        ensures
            final(self).wf(),
            old(self).looked(k.deep_view(), *final(self)),
            final(self).entries() == old(self).entries(),
            held == old(self).entries().contains_key(k.deep_view()),
    ;

    /// Removes the value under a key and hands it out.
    fn remove(&mut self, k: &Self::K) -> (removed: Option<Self::V>)
        requires
            old(self).wf(),
        ensures
            final(self).wf(),
            old(self).removed(k.deep_view(), *final(self)),
            final(self).entries() == old(self).entries().remove(k.deep_view()),
            match removed {
                Some(value) => old(self).entries().contains_key(k.deep_view()) && value.deep_view()
                    == old(self).entries()[k.deep_view()],
                None => !old(self).entries().contains_key(k.deep_view()),
            },
    ;
}

/// A cache that can be made without saying more: it is made empty.
pub trait Fresh: Cache {
    /// An empty cache.
    fn fresh() -> (cache: Self)
        ensures
            cache.wf(),
            cache.entries() == Map::<<Self::K as DeepView>::V, <Self::V as DeepView>::V>::empty(),
    ;
}

/// What a store may do to a cache: under the key it holds the value or
/// nothing, and under any other key what it held before or nothing.
pub open spec fn stored_as<K, V>(before: Map<K, V>, after: Map<K, V>, key: K, value: V) -> bool {
    &&& after.contains_key(key) ==> after[key] == value
    &&& forall|other: K|
        other != key && #[trigger] after.contains_key(other) ==> before.contains_key(other)
            && after[other] == before[other]
}

/// Every value in the cache is the value that the source has for its key.
pub open spec fn coherent<K, V>(entries: Map<K, V>, source: spec_fn(K) -> V) -> bool {
    forall|key: K| #[trigger] entries.contains_key(key) ==> entries[key] == source(key)
}

/// A cache changes no answer. If every value in the cache is what the
/// source has for its key, then what a hit hands out is what the source has
/// for the key, and storing what the source has for a key leaves the cache
/// with nothing but what the source has.
pub proof fn lemma_cache_transparent<K, V>(
    before: Map<K, V>,
    after: Map<K, V>,
    source: spec_fn(K) -> V,
    key: K,
)
    requires
        coherent(before, source),
        stored_as(before, after, key, source(key)),
    ensures
        before.contains_key(key) ==> before[key] == source(key),
        coherent(after, source),
{
}

/// A source of values.
pub trait Fetcher<K: DeepView, V: DeepView> {
    /// Whether the source may give the value for the key. A source that
    /// has one value for every key gives a name to that value here.
    spec fn answers(&self, key: K::V, value: V::V) -> bool;

    /// The value for a key.
    fn fetch(&self, key: &K) -> (value: V)
        ensures
            self.answers(key.deep_view(), value.deep_view()),
    ;
}

/// What a source may answer, as a predicate on keys and values.
pub open spec fn source_of<K: DeepView, V: DeepView, F: Fetcher<K, V>>(fetcher: F) -> spec_fn(
    K::V,
    V::V,
) -> bool {
    |key: K::V, value: V::V| fetcher.answers(key, value)
}

/// Every value that the cache holds is one that the source may give for
/// its key.
pub open spec fn faithful<K: DeepView, V: DeepView, F: Fetcher<K, V>>(
    entries: Map<K::V, V::V>,
    fetcher: F,
) -> bool {
    forall|key: K::V| #[trigger] entries.contains_key(key) ==> fetcher.answers(key, entries[key])
}

/// A value that was fetched, from a cache or from its source.
pub enum FetchedValue<'a, V> {
    /// The value is held by the cache.
    Cached(&'a V),
    /// The cache has refused the value.
    Uncached(V),
}

impl<'a, V: DeepView> FetchedValue<'a, V> {
    /// What the value holds.
    pub open spec fn model(&self) -> V::V {
        match self {
            FetchedValue::Cached(value) => value.deep_view(),
            FetchedValue::Uncached(value) => value.deep_view(),
        }
    }

    /// The value.
    pub fn get(&self) -> (value: &V)
        ensures
            value.deep_view() == self.model(),
    {
        match self {
            FetchedValue::Cached(value) => value,
            FetchedValue::Uncached(value) => value,
        }
    }
}

/// A source of values with a cache in front of it.
pub struct CachedFetcher<C: Cache, F: Fetcher<C::K, C::V>> {
    /// The cache.
    pub cache: C,
    /// The source.
    pub fetcher: F,
}

impl<C: Fresh, F: Fetcher<C::K, C::V>> CachedFetcher<C, F> {
    /// A fetcher that asks the given source and answers from a cache of its
    /// own, which is empty.
    pub fn new(fetcher: F) -> (made: CachedFetcher<C, F>)
        ensures
            made.fetcher == fetcher,
            made.cache.wf(),
            made.cache.entries() == Map::<<C::K as DeepView>::V, <C::V as DeepView>::V>::empty(),
    {
        CachedFetcher { cache: C::fresh(), fetcher }
    }
}

impl<C: Cache, F: Fetcher<C::K, C::V>> CachedFetcher<C, F> {
    /// A fetcher that answers from the given cache and asks the given source.
    pub fn with_cache(cache: C, fetcher: F) -> (made: CachedFetcher<C, F>)
        ensures
            made.cache == cache,
            made.fetcher == fetcher,
    {
        CachedFetcher { cache, fetcher }
    }

    /// The value that the cache holds under the key, where it holds one.
    pub fn lookup(&mut self, key: &C::K) -> (found: Option<&C::V>)
        requires
            old(self).cache.wf(),
        ensures
            final(self).cache.wf(),
            old(self).cache.used(key.deep_view(), final(self).cache),
            final(self).cache.entries() == old(self).cache.entries(),
            final(self).fetcher == old(self).fetcher,
            match found {
                Some(value) => old(self).cache.entries().contains_key(key.deep_view())
                    && value.deep_view() == old(self).cache.entries()[key.deep_view()],
                None => !old(self).cache.entries().contains_key(key.deep_view()),
            },
    {
        self.cache.fetch(key)
    }

    /// Offers the cache a value that the source has given for a key, and
    /// hands the value out: held by the cache where the cache keeps it, or
    /// as it is where the cache refuses it.
    pub fn fill(&mut self, key: C::K, value: C::V) -> (fetched: FetchedValue<'_, C::V>)
        requires
            old(self).cache.wf(),
        ensures
            final(self).cache.wf(),
            final(self).fetcher == old(self).fetcher,
            fetched.model() == value.deep_view(),
            old(self).cache.stored(key, value, final(self).cache),
            fetched is Cached == old(self).cache.takes(key, value),
            stored_as(
                old(self).cache.entries(),
                final(self).cache.entries(),
                key.deep_view(),
                value.deep_view(),
            ),
            fetched is Cached ==> final(self).cache.entries().contains_key(key.deep_view()),
            fetched is Uncached ==> final(self).cache.entries() == old(self).cache.entries().remove(
                key.deep_view(),
            ),
    {
        match self.cache.store(key, value) {
            Ok(held) => FetchedValue::Cached(held),
            Err(refused) => FetchedValue::Uncached(refused),
        }
    }

    /// The value for a key: the one that the cache holds, or else the one
    /// that the source gives, which is then offered to the cache.
    ///
    /// On a hit the cache is looked into and then used, and the source is
    /// not asked. On a miss the cache is looked into, the source is asked
    /// once, and its value is stored: the cache keeps it or refuses it as
    /// its policy has it, and a refusal leaves the cache with what it held.
    ///
    /// The cache changes no answer: where every value in the cache is one
    /// that the source may give for its key, so is the value that is handed
    /// out, whether the cache held it or not, and so is every value in the
    /// cache afterwards.
    pub fn fetch(&mut self, key: C::K) -> (fetched: FetchedValue<'_, C::V>)
        requires
            old(self).cache.wf(),
        ensures
            final(self).cache.wf(),
            final(self).fetcher == old(self).fetcher,
            old(self).cache.entries().contains_key(key.deep_view()) ==> {
                &&& fetched is Cached
                &&& fetched.model() == old(self).cache.entries()[key.deep_view()]
                &&& final(self).cache.entries() == old(self).cache.entries()
                &&& hit(old(self).cache, key.deep_view(), final(self).cache)
            },
            !old(self).cache.entries().contains_key(key.deep_view()) ==> {
                &&& old(self).fetcher.answers(key.deep_view(), fetched.model())
                &&& missed(old(self).cache, key, fetched.model(), fetched is Cached, final(self).cache)
                &&& stored_as(
                    old(self).cache.entries(),
                    final(self).cache.entries(),
                    key.deep_view(),
                    fetched.model(),
                )
                &&& fetched is Cached ==> final(self).cache.entries().contains_key(key.deep_view())
                &&& fetched is Uncached ==> final(self).cache.entries() == old(self).cache.entries()
            },
            faithful::<C::K, C::V, F>(old(self).cache.entries(), old(self).fetcher) ==> old(self).fetcher.answers(key.deep_view(), fetched.model()) && faithful::<C::K, C::V, F>(
                final(self).cache.entries(),
                final(self).fetcher,
            ),
    {
        let ghost before = self.cache;
        if self.cache.contains(&key) {
            let ghost mid = self.cache;
            match self.cache.fetch(&key) {
                Some(held) => {
                    assert(before.looked(key.deep_view(), mid));
                    FetchedValue::Cached(held)
                },
                None => {
                    let value = self.fetcher.fetch(&key);
                    FetchedValue::Uncached(value)
                },
            }
        } else {
            let ghost mid = self.cache;
            let value = self.fetcher.fetch(&key);
            assert(before.looked(key.deep_view(), mid));
            assert(mid.entries().remove(key.deep_view()) =~= mid.entries());
            self.fill(key, value)
        }
    }
}

/// Whether `after` is the cache once a key was looked up that it holds a
/// value under: it was looked into, and then used.
pub open spec fn hit<C: Cache>(before: C, key: <C::K as DeepView>::V, after: C) -> bool {
    exists|mid: C| #[trigger] before.looked(key, mid) && mid.used(key, after)
}

/// Whether `after` is the cache once a key was looked up that it holds no
/// value under: it was looked into, and a value that holds `answer` was
/// stored under the key, which the cache has kept or not as `kept` tells.
pub open spec fn missed<C: Cache>(
    before: C,
    key: C::K,
    answer: <C::V as DeepView>::V,
    kept: bool,
    after: C,
) -> bool {
    exists|mid: C, value: C::V|
        before.looked(key.deep_view(), mid) && #[trigger] mid.stored(key, value, after)
            && value.deep_view() == answer && kept == mid.takes(key, value)
}

} // verus!

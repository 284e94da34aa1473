//! The cache that holds nothing.

use crate::trex::cache::{Cache, Entries, Fresh};
use std::marker::PhantomData;
use vstd::prelude::*;

verus! {

/// A cache that never stores: every lookup is a miss.
pub struct DummyCache<K, V>(PhantomData<K>, PhantomData<V>);

impl<K: DeepView, V: DeepView> DummyCache<K, V> {
    /// The cache.
    pub fn new() -> (cache: DummyCache<K, V>)
        ensures
            cache.wf(),
            cache.entries() == Map::<K::V, V::V>::empty(),
    {
        DummyCache(PhantomData, PhantomData)
    }
}

impl<K: DeepView, V: DeepView> Default for DummyCache<K, V> {
    fn default() -> (cache: DummyCache<K, V>)
        ensures
            cache.wf(),
            cache.entries() == Map::<K::V, V::V>::empty(),
    {
        DummyCache::new()
    }
}

impl<K: DeepView, V: DeepView> Cache for DummyCache<K, V> {
    type K = K;

    type V = V;

    open spec fn entries(&self) -> Entries<Self> {
        Map::empty()
    }

    open spec fn wf(&self) -> bool {
        true
    }

    open spec fn takes(&self, k: K, v: V) -> bool {
        false
    }

    open spec fn stored(&self, k: K, v: V, after: Self) -> bool {
        true
    }

    open spec fn used(&self, k: K::V, after: Self) -> bool {
        true
    }

    open spec fn looked(&self, k: K::V, after: Self) -> bool {
        true
    }

    open spec fn removed(&self, k: K::V, after: Self) -> bool {
        true
    }

    fn store(&mut self, k: K, v: V) -> (stored: Result<&V, V>) {
        assert(self.entries().remove(k.deep_view()) =~= self.entries());
        Err(v)
    }

    fn fetch(&mut self, k: &K) -> (found: Option<&V>) {
        None
    }

    fn contains(&mut self, k: &K) -> (held: bool) {
        false
    }

    fn remove(&mut self, k: &K) -> (removed: Option<V>) {
        assert(self.entries().remove(k.deep_view()) =~= self.entries());
        None
    }
}

impl<K: DeepView, V: DeepView> Fresh for DummyCache<K, V> {
    fn fresh() -> (cache: DummyCache<K, V>) {
        DummyCache::new()
    }
}

} // verus!

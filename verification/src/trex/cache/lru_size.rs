//! The cache that holds entries up to a size in all, and lets the entries
//! go that were used least recently.
//!
//! It is a greedy dual size frequency cache whose values cost nothing: the
//! priority of an entry is then the clock at its last use, so that the
//! entries stand in the order of their last use.

use crate::trex::cache::gdfs_cache::{
    insert_model,
    used_model,
    without,
    GDSFCache,
    GdsfModel,
};
use crate::trex::cache::{Cache, Entries, HasCost, HasSize, KeyEq};
use vstd::prelude::*;

verus! {

/// A value that counts as costing nothing.
pub struct Costless<V>(pub V);

impl<V: HasSize> HasSize for Costless<V> {
    open spec fn size_model(&self) -> usize {
        self.0.size_model()
    }

    fn size(&self) -> (size: usize) {
        self.0.size()
    }
}

impl<V> HasCost for Costless<V> {
    open spec fn cost_model(&self) -> usize {
        0
    }

    fn cost(&self) -> (cost: usize) {
        0
    }
}

impl<V: DeepView> DeepView for Costless<V> {
    type V = V::V;

    open spec fn deep_view(&self) -> V::V {
        self.0.deep_view()
    }
}

/// A cache that holds values up to a size in all. A value that is larger
/// is refused; for any other, the entries that were used least recently
/// leave until there is room.
pub struct LruSizeCache<K, V> {
    cache: GDSFCache<K, Costless<V>>,
}

impl<K: KeyEq, V: HasSize + DeepView> LruSizeCache<K, V> {
    /// The state of the cache: its entries stand from the one that was
    /// used least recently to the one that was used most recently.
    pub closed spec fn model(&self) -> GdsfModel<K, Costless<V>> {
        self.cache.model()
    }

    /// Whether the cache is in order.
    pub closed spec fn inv(&self) -> bool {
        self.cache.inv()
    }

    /// An empty cache that holds values up to the given size in all.
    pub fn new(capacity: usize) -> (cache: LruSizeCache<K, V>)
        ensures
            cache.inv(),
            cache.wf(),
            cache.entries() == Map::<K::V, V::V>::empty(),
            cache.model() == (GdsfModel::<K, Costless<V>> {
                capacity,
                clock: 0,
                queue: Seq::empty(),
            }),
    {
        let cache = LruSizeCache { cache: GDSFCache::new(capacity) };
        assert(cache.entries() =~= Map::<K::V, V::V>::empty());
        cache
    }
}

impl<K: KeyEq, V: HasSize + DeepView> Cache for LruSizeCache<K, V> {
    type K = K;

    type V = V;

    closed spec fn entries(&self) -> Entries<Self> {
        self.cache.entries()
    }

    closed spec fn wf(&self) -> bool {
        self.cache.wf()
    }

    open spec fn takes(&self, k: K, v: V) -> bool {
        insert_model(self.model(), k, Costless(v)).1
    }

    open spec fn stored(&self, k: K, v: V, after: Self) -> bool {
        after.model() == insert_model(self.model(), k, Costless(v)).0
    }

    open spec fn used(&self, k: K::V, after: Self) -> bool {
        after.model() == used_model(self.model(), k)
    }

    open spec fn looked(&self, k: K::V, after: Self) -> bool {
        after.model() == self.model()
    }

    open spec fn removed(&self, k: K::V, after: Self) -> bool {
        after.model() == (GdsfModel { queue: without(self.model().queue, k), ..self.model() })
    }

    /// A value that is larger than the cache is refused; for any other,
    /// the entries that were used least recently leave until there is room.
    fn store(&mut self, k: K, v: V) -> (stored: Result<&V, V>) {
        match self.cache.store(k, Costless(v)) {
            Ok(held) => Ok(&held.0),
            Err(refused) => Err(refused.0),
        }
    }

    /// The entry of the key becomes the one that was used most recently.
    fn fetch(&mut self, k: &K) -> (found: Option<&V>) {
        match self.cache.fetch(k) {
            Some(held) => Some(&held.0),
            None => None,
        }
    }

    /// A look changes nothing of the cache.
    fn contains(&mut self, k: &K) -> (held: bool) {
        self.cache.contains(k)
    }

    /// The other entries stay in their order.
    fn remove(&mut self, k: &K) -> (removed: Option<V>) {
        match Cache::remove(&mut self.cache, k) {
            Some(value) => Some(value.0),
            None => None,
        }
    }
}

} // verus!

//! The hash map of the standard library as a cache that keeps everything:
//! it takes every value and lets none go.

use crate::trex::cache::{Cache, Entries, Fresh};
use std::collections::HashMap;
use vstd::prelude::*;

verus! {

/// What a map holds, each value as what it holds.
pub open spec fn held_by<V: DeepView>(map: Map<u64, V>) -> Map<u64, V::V> {
    Map::new(|key: u64| map.contains_key(key), |key: u64| map[key].deep_view())
}

impl<V: DeepView> Cache for HashMap<u64, V> {
    type K = u64;

    type V = V;

    open spec fn entries(&self) -> Entries<Self> {
        held_by(self@)
    }

    open spec fn wf(&self) -> bool {
        true
    }

    open spec fn takes(&self, k: u64, v: V) -> bool {
        true
    }

    open spec fn stored(&self, k: u64, v: V, after: Self) -> bool {
        after@ == self@.insert(k, v)
    }

    open spec fn used(&self, k: u64, after: Self) -> bool {
        after@ == self@
    }

    open spec fn looked(&self, k: u64, after: Self) -> bool {
        after@ == self@
    }

    open spec fn removed(&self, k: u64, after: Self) -> bool {
        after@ == self@.remove(k)
    }

    /// The map takes every value, in place of what it had under the key.
    fn store(&mut self, k: u64, v: V) -> (stored: Result<&V, V>)
        ensures
            final(self).entries() == old(self).entries().insert(k, v.deep_view()),
    {
        broadcast use vstd::std_specs::hash::group_hash_axioms;

        self.insert(k, v);
        assert(self.entries() =~= old(self).entries().insert(k, v.deep_view()));
        match self.get(&k) {
            Some(held) => Ok(held),
            None => vstd::pervasive::unreached(),
        }
    }

    /// A use changes nothing of the map.
    fn fetch(&mut self, k: &u64) -> (found: Option<&V>)
    {
        broadcast use vstd::std_specs::hash::group_hash_axioms;

        self.get(k)
    }

    /// A look changes nothing of the map.
    fn contains(&mut self, k: &u64) -> (held: bool)
    {
        broadcast use vstd::std_specs::hash::group_hash_axioms;

        self.contains_key(k)
    }

    /// The map holds under the other keys what it held.
    fn remove(&mut self, k: &u64) -> (removed: Option<V>)
    {
        broadcast use vstd::std_specs::hash::group_hash_axioms;

        let removed = HashMap::remove(self, k);
        assert(self.entries() =~= old(self).entries().remove(*k));
        removed
    }
}

impl<V: DeepView> Fresh for HashMap<u64, V> {
    fn fresh() -> (cache: HashMap<u64, V>) {
        broadcast use vstd::std_specs::hash::group_hash_axioms;

        let cache: HashMap<u64, V> = HashMap::new();
        assert(cache.entries() =~= Map::<u64, V::V>::empty());
        cache
    }
}

} // verus!

//! The cache of the `lru_cache` crate, as a cache of the answers of the
//! static data: it holds a limited number of entries, and the entry that
//! was used least recently leaves when there is one too many.

use crate::trex::cache::chain::{
    distinct_keys,
    dropped,
    held,
    inserted,
    lemma_drop_first,
    lemma_dropped,
    lemma_place,
    lemma_place_at,
    lemma_pushed,
    lemma_refreshed,
    lemma_refreshed_last,
    place,
    refreshed,
};
use crate::trex::cache::{Cache, Entries};
use crate::trex::sqlite::{CacheEntry, CacheEntryModel, CacheKey, CacheKeyModel};
use lru_cache::LruCache;
use std::hash::{BuildHasher, Hash};
use vstd::prelude::*;

verus! {

/// The cache of the `lru_cache` crate.
#[verifier::external_type_specification]
#[verifier::external_body]
#[verifier::reject_recursive_types(K)]
#[verifier::reject_recursive_types(V)]
#[verifier::reject_recursive_types(S)]
pub struct ExLruCache<K: Eq + Hash, V, S: BuildHasher>(LruCache<K, V, S>);

/// A cache of answers that holds a limited number of them.
pub type SqlLruCache = LruCache<CacheKey, CacheEntry>;

/// The entries of a cache, from the one that was used least recently to
/// the one that was used most recently.
pub uninterp spec fn lru_entries(cache: SqlLruCache) -> Seq<(CacheKeyModel, CacheEntryModel)>;

/// The number of entries that a cache holds at most.
pub uninterp spec fn lru_limit(cache: SqlLruCache) -> usize;

/// `LruCache::new`: an empty cache that holds at most `capacity` entries.
#[verifier::external_body]
pub(crate) fn lru_new(capacity: usize) -> (cache: SqlLruCache)
    ensures
        lru_entries(cache).len() == 0,
        lru_limit(cache) == capacity,
{
    LruCache::new(capacity)
}

/// `LruCache::capacity`: the number of entries that the cache holds at most.
#[verifier::external_body]
pub(crate) fn lru_capacity(cache: &SqlLruCache) -> (capacity: usize)
    ensures
        capacity == lru_limit(*cache),
{
    cache.capacity()
}

/// `LruCache::insert`: the value is stored under the key, as the entry
/// that was used most recently, in place of what was under the key; then
/// the entry that was used least recently is removed if the cache holds
/// more entries than it may.
#[verifier::external_body]
pub(crate) fn lru_insert(cache: &mut SqlLruCache, key: CacheKey, value: CacheEntry)
    ensures
        lru_entries(*final(cache)) == inserted(
            lru_entries(*old(cache)),
            lru_limit(*old(cache)),
            key.deep_view(),
            value.deep_view(),
        ),
        lru_limit(*final(cache)) == lru_limit(*old(cache)),
{
    cache.insert(key, value);
}

/// `LruCache::get_mut`: the value under the key, whose entry becomes the
/// one that was used most recently.
#[verifier::external_body]
pub(crate) fn lru_get<'a>(cache: &'a mut SqlLruCache, key: &CacheKey) -> (found: Option<&'a CacheEntry>)
    ensures
        lru_entries(*final(cache)) == refreshed(lru_entries(*old(cache)), key.deep_view()),
        lru_limit(*final(cache)) == lru_limit(*old(cache)),
        match found {
            Some(value) => match place(
                lru_entries(*old(cache)),
                key.deep_view(),
                lru_entries(*old(cache)).len() as int,
            ) {
                Some(at) => value.deep_view() == lru_entries(*old(cache))[at].1,
                None => false,
            },
            None => place(
                lru_entries(*old(cache)),
                key.deep_view(),
                lru_entries(*old(cache)).len() as int,
            ).is_none(),
        },
{
    match cache.get_mut(key) {
        Some(value) => Some(value),
        None => None,
    }
}

/// `LruCache::remove`: the entry of the key is removed, and its value
/// handed out.
#[verifier::external_body]
pub(crate) fn lru_remove(cache: &mut SqlLruCache, key: &CacheKey) -> (removed: Option<CacheEntry>)
    ensures
        lru_entries(*final(cache)) == dropped(lru_entries(*old(cache)), key.deep_view()),
        lru_limit(*final(cache)) == lru_limit(*old(cache)),
        match removed {
            Some(value) => match place(
                lru_entries(*old(cache)),
                key.deep_view(),
                lru_entries(*old(cache)).len() as int,
            ) {
                Some(at) => value.deep_view() == lru_entries(*old(cache))[at].1,
                None => false,
            },
            None => place(
                lru_entries(*old(cache)),
                key.deep_view(),
                lru_entries(*old(cache)).len() as int,
            ).is_none(),
        },
{
    cache.remove(key)
}

impl Cache for SqlLruCache {
    type K = CacheKey;

    type V = CacheEntry;

    open spec fn entries(&self) -> Entries<Self> {
        held(lru_entries(*self))
    }

    open spec fn wf(&self) -> bool {
        distinct_keys(lru_entries(*self)) && lru_entries(*self).len() <= lru_limit(*self)
    }

    open spec fn takes(&self, k: CacheKey, v: CacheEntry) -> bool {
        lru_limit(*self) > 0
    }

    open spec fn stored(&self, k: CacheKey, v: CacheEntry, after: Self) -> bool {
        &&& lru_limit(after) == lru_limit(*self)
        &&& lru_entries(after) == if lru_limit(*self) > 0 {
            inserted(lru_entries(*self), lru_limit(*self), k.deep_view(), v.deep_view())
        } else {
            lru_entries(*self)
        }
    }

    open spec fn used(&self, k: CacheKeyModel, after: Self) -> bool {
        lru_limit(after) == lru_limit(*self) && lru_entries(after) == refreshed(
            lru_entries(*self),
            k,
        )
    }

    open spec fn looked(&self, k: CacheKeyModel, after: Self) -> bool {
        lru_limit(after) == lru_limit(*self) && lru_entries(after) == refreshed(
            lru_entries(*self),
            k,
        )
    }

    open spec fn removed(&self, k: CacheKeyModel, after: Self) -> bool {
        lru_limit(after) == lru_limit(*self) && lru_entries(after) == dropped(lru_entries(*self), k)
    }

    /// A cache that may hold no entry refuses every value; any other
    /// holds the value afterwards, as the entry that was used most recently.
    fn store(&mut self, k: CacheKey, v: CacheEntry) -> (stored: Result<&CacheEntry, CacheEntry>) {
        let ghost before = lru_entries(*self);
        if lru_capacity(self) == 0 {
            proof {
                lemma_place(before, k.deep_view(), 0);
            }
            return Err(v);
        }
        let key = k.clone();
        let ghost value = v.deep_view();
        proof {
            lemma_dropped(before, k.deep_view());
            lemma_pushed(dropped(before, k.deep_view()), k.deep_view(), value);
            let grown = dropped(before, k.deep_view()).push((k.deep_view(), value));
            if grown.len() > lru_limit(*self) {
                lemma_drop_first(grown);
                assert(grown.drop_first().last() == (k.deep_view(), value));
            }
            let after = inserted(before, lru_limit(*self), k.deep_view(), value);
            assert(after.last() == (k.deep_view(), value));
            lemma_place_at(after, after.len() - 1);
            lemma_refreshed(after, k.deep_view());
            lemma_refreshed_last(after, k.deep_view());
        }
        lru_insert(self, k, v);
        match lru_get(self, &key) {
            Some(held) => Ok(held),
            None => vstd::pervasive::unreached(),
        }
    }

    /// The entry of the key becomes the one that was used most recently.
    fn fetch(&mut self, k: &CacheKey) -> (found: Option<&CacheEntry>) {
        proof {
            lemma_refreshed(lru_entries(*self), k.deep_view());
        }
        lru_get(self, k)
    }

    /// The entry of the key becomes the one that was used most recently.
    fn contains(&mut self, k: &CacheKey) -> (held: bool) {
        proof {
            lemma_refreshed(lru_entries(*self), k.deep_view());
        }
        lru_get(self, k).is_some()
    }

    /// The other entries stay in their order.
    fn remove(&mut self, k: &CacheKey) -> (removed: Option<CacheEntry>) {
        proof {
            lemma_dropped(lru_entries(*self), k.deep_view());
        }
        lru_remove(self, k)
    }
}

} // verus!

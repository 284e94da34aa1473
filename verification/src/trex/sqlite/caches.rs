//! The caches that a predicate on static data can be given.

use crate::trex::cache::chain::{dropped, inserted, refreshed, Order};
use crate::trex::cache::collision::{chain_of, lemma_empty_chains, CollisionCache, FNV_OFFSET};
use crate::trex::cache::dummy::DummyCache;
use crate::trex::cache::gdfs_cache::{
    insert_model,
    lemma_empty_entries,
    used_model,
    without,
    GDSFCache,
    GdsfModel,
};
use crate::trex::cache::lru::{lru_entries, lru_limit, lru_new, SqlLruCache};
use crate::trex::cache::lru_size::{Costless, LruSizeCache};
use crate::trex::cache::{Cache, Entries};
use crate::trex::sqlite::{CacheEntry, CacheEntryModel, CacheKey, CacheKeyModel, CacheType};
use vstd::prelude::*;

verus! {

/// A cache of the answers of the static data, of one of the policies.
pub enum SqlCaches {
    /// Nothing is cached.
    Dummy(DummyCache<CacheKey, CacheEntry>),
    /// A hash table with a fixed number of chains.
    Collision(CollisionCache<CacheKey, CacheEntry>),
    /// The entry that was used least recently leaves, by number of entries.
    Lru(SqlLruCache),
    /// The entry that was used least recently leaves, by size.
    LruSize(LruSizeCache<CacheKey, CacheEntry>),
    /// Greedy dual size frequency.
    Gdfs(GDSFCache<CacheKey, CacheEntry>),
}

/// The state of a cache of one of the policies.
pub enum CacheState {
    /// Nothing is cached.
    Dummy,
    /// The chains of a hash table, and the state that its hashers start from.
    Collision { seed: u64, chains: Seq<Order<CacheKeyModel, CacheEntryModel>> },
    /// At most `limit` entries, from the one that was used least recently
    /// to the one that was used most recently.
    Lru { limit: usize, entries: Order<CacheKeyModel, CacheEntryModel> },
    /// Entries up to a size in all, in the order of their last use.
    LruSize(GdsfModel<CacheKey, Costless<CacheEntry>>),
    /// Entries up to a size in all, in the order of their priorities.
    Gdfs(GdsfModel<CacheKey, CacheEntry>),
}

impl CacheState {
    /// The empty cache of a policy and a capacity.
    pub open spec fn empty(ty: CacheType, capacity: usize) -> CacheState {
        match ty {
            CacheType::Dummy => CacheState::Dummy,
            CacheType::Collision => CacheState::Collision {
                seed: FNV_OFFSET,
                chains: Seq::new(
                    if capacity == 0 {
                        1
                    } else {
                        capacity as nat
                    },
                    |c: int| Seq::empty(),
                ),
            },
            CacheType::Lru => CacheState::Lru { limit: capacity, entries: Seq::empty() },
            CacheType::LruSize => CacheState::LruSize(
                GdsfModel { capacity, clock: 0, queue: Seq::empty() },
            ),
            CacheType::Gdfs => CacheState::Gdfs(
                GdsfModel { capacity, clock: 0, queue: Seq::empty() },
            ),
        }
    }

    /// The cache once a value was stored under a key, and whether it has
    /// kept the value.
    pub open spec fn stored(self, key: CacheKey, value: CacheEntry) -> (CacheState, bool) {
        match self {
            CacheState::Dummy => (self, false),
            CacheState::Collision { seed, chains } => {
                let c = chain_of::<CacheKey>(key.deep_view(), seed, chains.len() as int);
                (
                    CacheState::Collision {
                        seed,
                        chains: chains.update(
                            c,
                            dropped(chains[c], key.deep_view()).push(
                                (key.deep_view(), value.deep_view()),
                            ),
                        ),
                    },
                    true,
                )
            },
            CacheState::Lru { limit, entries } => if limit > 0 {
                (
                    CacheState::Lru {
                        limit,
                        entries: inserted(entries, limit, key.deep_view(), value.deep_view()),
                    },
                    true,
                )
            } else {
                (self, false)
            },
            CacheState::LruSize(state) => (
                CacheState::LruSize(insert_model(state, key, Costless(value)).0),
                insert_model(state, key, Costless(value)).1,
            ),
            CacheState::Gdfs(state) => (
                CacheState::Gdfs(insert_model(state, key, value).0),
                insert_model(state, key, value).1,
            ),
        }
    }

    /// The cache once the value under a key was fetched.
    pub open spec fn used(self, key: CacheKeyModel) -> CacheState {
        match self {
            CacheState::Lru { limit, entries } => CacheState::Lru {
                limit,
                entries: refreshed(entries, key),
            },
            CacheState::LruSize(state) => CacheState::LruSize(used_model(state, key)),
            CacheState::Gdfs(state) => CacheState::Gdfs(used_model(state, key)),
            _ => self,
        }
    }

    /// The cache once it was asked whether it holds a value under a key.
    pub open spec fn looked(self, key: CacheKeyModel) -> CacheState {
        match self {
            CacheState::Lru { limit, entries } => CacheState::Lru {
                limit,
                entries: refreshed(entries, key),
            },
            _ => self,
        }
    }

    /// The cache once the value under a key was removed.
    pub open spec fn removed(self, key: CacheKeyModel) -> CacheState {
        match self {
            CacheState::Dummy => self,
            CacheState::Collision { seed, chains } => {
                let c = chain_of::<CacheKey>(key, seed, chains.len() as int);
                CacheState::Collision { seed, chains: chains.update(c, dropped(chains[c], key)) }
            },
            CacheState::Lru { limit, entries } => CacheState::Lru {
                limit,
                entries: dropped(entries, key),
            },
            CacheState::LruSize(state) => CacheState::LruSize(
                GdsfModel { queue: without(state.queue, key), ..state },
            ),
            CacheState::Gdfs(state) => CacheState::Gdfs(
                GdsfModel { queue: without(state.queue, key), ..state },
            ),
        }
    }
}

impl SqlCaches {
    /// The policy of the cache.
    pub open spec fn policy(&self) -> CacheType {
        match self {
            SqlCaches::Dummy(_) => CacheType::Dummy,
            SqlCaches::Collision(_) => CacheType::Collision,
            SqlCaches::Lru(_) => CacheType::Lru,
            SqlCaches::LruSize(_) => CacheType::LruSize,
            SqlCaches::Gdfs(_) => CacheType::Gdfs,
        }
    }

    /// The state of the cache.
    pub open spec fn state(&self) -> CacheState {
        match self {
            SqlCaches::Dummy(_) => CacheState::Dummy,
            SqlCaches::Collision(cache) => CacheState::Collision {
                seed: cache.seed(),
                chains: cache.chains(),
            },
            SqlCaches::Lru(cache) => CacheState::Lru {
                limit: lru_limit(*cache),
                entries: lru_entries(*cache),
            },
            SqlCaches::LruSize(cache) => CacheState::LruSize(cache.model()),
            SqlCaches::Gdfs(cache) => CacheState::Gdfs(cache.model()),
        }
    }
}

impl Cache for SqlCaches {
    type K = CacheKey;

    type V = CacheEntry;

    open spec fn entries(&self) -> Entries<Self> {
        match self {
            SqlCaches::Dummy(cache) => cache.entries(),
            SqlCaches::Collision(cache) => cache.entries(),
            SqlCaches::Lru(cache) => cache.entries(),
            SqlCaches::LruSize(cache) => cache.entries(),
            SqlCaches::Gdfs(cache) => cache.entries(),
        }
    }

    open spec fn wf(&self) -> bool {
        match self {
            SqlCaches::Dummy(cache) => cache.wf(),
            SqlCaches::Collision(cache) => cache.wf(),
            SqlCaches::Lru(cache) => cache.wf(),
            SqlCaches::LruSize(cache) => cache.wf(),
            SqlCaches::Gdfs(cache) => cache.wf(),
        }
    }

    open spec fn takes(&self, k: CacheKey, v: CacheEntry) -> bool {
        self.state().stored(k, v).1
    }

    open spec fn stored(&self, k: CacheKey, v: CacheEntry, after: Self) -> bool {
        after.policy() == self.policy() && after.state() == self.state().stored(k, v).0
    }

    open spec fn used(&self, k: CacheKeyModel, after: Self) -> bool {
        after.policy() == self.policy() && after.state() == self.state().used(k)
    }

    open spec fn looked(&self, k: CacheKeyModel, after: Self) -> bool {
        after.policy() == self.policy() && after.state() == self.state().looked(k)
    }

    open spec fn removed(&self, k: CacheKeyModel, after: Self) -> bool {
        after.policy() == self.policy() && after.state() == self.state().removed(k)
    }

    /// See `CacheState::stored`.
    fn store(&mut self, k: CacheKey, v: CacheEntry) -> (stored: Result<&CacheEntry, CacheEntry>) {
        match self {
            SqlCaches::Dummy(cache) => cache.store(k, v),
            SqlCaches::Collision(cache) => cache.store(k, v),
            SqlCaches::Lru(cache) => cache.store(k, v),
            SqlCaches::LruSize(cache) => cache.store(k, v),
            SqlCaches::Gdfs(cache) => cache.store(k, v),
        }
    }

    /// See `CacheState::used`.
    fn fetch(&mut self, k: &CacheKey) -> (found: Option<&CacheEntry>) {
        match self {
            SqlCaches::Dummy(cache) => cache.fetch(k),
            SqlCaches::Collision(cache) => cache.fetch(k),
            SqlCaches::Lru(cache) => cache.fetch(k),
            SqlCaches::LruSize(cache) => cache.fetch(k),
            SqlCaches::Gdfs(cache) => cache.fetch(k),
        }
    }

    /// See `CacheState::looked`.
    fn contains(&mut self, k: &CacheKey) -> (held: bool) {
        match self {
            SqlCaches::Dummy(cache) => cache.contains(k),
            SqlCaches::Collision(cache) => cache.contains(k),
            SqlCaches::Lru(cache) => cache.contains(k),
            SqlCaches::LruSize(cache) => cache.contains(k),
            SqlCaches::Gdfs(cache) => cache.contains(k),
        }
    }

    /// See `CacheState::removed`.
    fn remove(&mut self, k: &CacheKey) -> (removed: Option<CacheEntry>) {
        match self {
            SqlCaches::Dummy(cache) => Cache::remove(cache, k),
            SqlCaches::Collision(cache) => Cache::remove(cache, k),
            SqlCaches::Lru(cache) => Cache::remove(cache, k),
            SqlCaches::LruSize(cache) => Cache::remove(cache, k),
            SqlCaches::Gdfs(cache) => Cache::remove(cache, k),
        }
    }
}

/// An empty cache of the given policy and capacity.
pub fn make_cache(ty: CacheType, capacity: usize) -> (cache: SqlCaches)
    ensures
        cache.wf(),
        cache.policy() == ty,
        cache.state() == CacheState::empty(ty, capacity),
        cache.entries() == Map::<CacheKeyModel, CacheEntryModel>::empty(),
{
    proof {
        lemma_empty_entries::<CacheKey, CacheEntry>();
    }
    match ty {
        CacheType::Dummy => SqlCaches::Dummy(DummyCache::new()),
        CacheType::Collision => {
            let cache: CollisionCache<CacheKey, CacheEntry> = CollisionCache::new(capacity);
            proof {
                lemma_empty_chains::<CacheKey, CacheEntryModel>(cache.chains(), cache.seed());
                assert forall|c: int| 0 <= c < cache.chains().len() implies (
                #[trigger] cache.chains()[c]) == Seq::<(CacheKeyModel, CacheEntryModel)>::empty() by {
                    assert(cache.chains()[c] =~= Seq::<(CacheKeyModel, CacheEntryModel)>::empty());
                }
                assert(cache.chains() =~= Seq::new(
                    if capacity == 0 {
                        1
                    } else {
                        capacity as nat
                    },
                    |c: int| Seq::<(CacheKeyModel, CacheEntryModel)>::empty(),
                ));
            }
            SqlCaches::Collision(cache)
        },
        CacheType::Lru => {
            let cache = lru_new(capacity);
            assert(cache.entries() =~= Map::<CacheKeyModel, CacheEntryModel>::empty());
            assert(lru_entries(cache) =~= Seq::<(CacheKeyModel, CacheEntryModel)>::empty());
            SqlCaches::Lru(cache)
        },
        CacheType::LruSize => SqlCaches::LruSize(LruSizeCache::new(capacity)),
        CacheType::Gdfs => SqlCaches::Gdfs(GDSFCache::new(capacity)),
    }
}

} // verus!

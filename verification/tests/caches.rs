use std::cell::Cell;
use trex::tesla::expressions::Value;
use trex::tesla::number::Number;
use trex::trex::cache::collision::{CollisionCache, Digest, ModBuildHasher};
use trex::trex::cache::dummy::DummyCache;
use trex::trex::cache::gdfs_cache::{GDSFCache, StorageEntry};
use trex::trex::cache::lru_size::LruSizeCache;
use trex::trex::cache::{Cache, CachedFetcher, FetchedValue, Fetcher, HasCost, HasSize};
use trex::trex::sqlite::{CacheEntryModel, CacheKeyModel};
use trex::trex::sqlite::caches::make_cache;
use trex::trex::sqlite::{CacheEntry, CacheEntryValue, CacheKey, CacheType};

fn key(name: &str) -> CacheKey {
    CacheKey { statement: name.to_string(), input_params: vec![Value::Int(1)] }
}

fn entry(cost: usize, size: usize) -> CacheEntry {
    CacheEntry { cost, value: CacheEntryValue::Count(size) }
}

fn tagged(cost: usize, size: usize) -> CacheEntry {
    CacheEntry { cost, value: CacheEntryValue::Values(1, vec![Value::Int(cost as i64); size]) }
}

fn cost_of(found: Option<&CacheEntry>) -> Option<usize> {
    found.map(|entry| entry.cost)
}

#[test]
fn entries_have_a_size_and_a_cost() {
    assert_eq!(entry(5, 3).size(), 3);
    assert_eq!(entry(5, 3).cost(), 5);
    assert_eq!(tagged(2, 4).size(), 4);
    assert_eq!(CacheEntry { cost: 1, value: CacheEntryValue::Aggr(Value::Int(9)) }.size(), 1);
    assert_eq!(CacheEntry { cost: 1, value: CacheEntryValue::Exists(false) }.size(), 1);
}

#[test]
fn keys_are_the_same_when_they_hold_the_same() {
    let nan = |bits: u64| CacheKey {
        statement: "s".to_string(),
        input_params: vec![Value::Float(Number::from_bits(bits))],
    };
    assert_eq!(key("a"), key("a"));
    assert_ne!(key("a"), key("b"));
    assert_ne!(key("a"), CacheKey { statement: "a".to_string(), input_params: vec![] });
    assert_ne!(key("a"), CacheKey { statement: "a".to_string(), input_params: vec![Value::Int(2)] });
    assert_eq!(nan(0x7ff8_0000_0000_0001), nan(0xfff8_0000_0000_0002));
    assert!(key("a").same(&key("a").clone()));
}

#[test]
fn the_priority_of_an_entry() {
    let mut stored = StorageEntry::new(1u64, entry(10, 4), 7);
    assert_eq!(stored.frequency, 1);
    assert_eq!(stored.clock, 7);
    assert_eq!(stored.priority(), 7 + 1 * 10 / 4);
    assert_eq!(stored.update(20), 20 + 2 * 10 / 4);
    assert_eq!(stored.frequency, 2);
    assert_eq!(stored.clock, 20);
    assert_eq!(StorageEntry::new(1u64, entry(10, 0), 3).priority(), 13);
    assert_eq!(StorageEntry::new(1u64, entry(usize::MAX, 1), 3).priority(), usize::MAX);
    let mut often = StorageEntry::new(1u64, entry(usize::MAX, usize::MAX), 0);
    assert_eq!(often.update(0), 1);
    assert_eq!(often.update(5), 6);
}

#[test]
fn a_greedy_cache_lets_the_entries_of_lowest_priority_go() {
    let mut cache: GDSFCache<CacheKey, CacheEntry> = GDSFCache::new(10);
    assert!(cache.insert(key("cheap"), entry(4, 4)).is_ok());
    assert!(cache.insert(key("dear"), entry(40, 4)).is_ok());
    assert!(cache.contains_key(&key("cheap")));
    assert!(cache.contains_key(&key("dear")));
    assert!(!cache.contains_key(&key("other")));
    assert!(cache.insert(key("middle"), entry(12, 4)).is_ok());
    assert!(!cache.contains_key(&key("cheap")));
    assert!(cache.contains_key(&key("dear")));
    assert!(cache.contains_key(&key("middle")));
    let refused = cache.insert(key("poor"), entry(1, 8));
    assert_eq!(refused.map(|e| e.cost).map_err(|e| e.cost), Err(1));
    assert!(cache.contains_key(&key("dear")));
    assert!(cache.contains_key(&key("middle")));
    assert_eq!(cache.remove(&key("dear")).map(|e| e.cost), Some(40));
    assert_eq!(cache.remove(&key("dear")).map(|e| e.cost), None);
    assert!(cache.insert(key("poor"), entry(1, 6)).is_ok());
}

#[test]
fn a_greedy_cache_refuses_what_is_larger_than_itself_and_drops_what_was_under_the_key() {
    let mut cache: GDSFCache<CacheKey, CacheEntry> = GDSFCache::new(5);
    assert!(cache.insert(key("a"), entry(1, 2)).is_ok());
    assert!(cache.insert(key("a"), entry(1, 6)).is_err());
    assert!(!cache.contains_key(&key("a")));
    assert!(cache.insert(key("a"), entry(7, 5)).is_ok());
    assert_eq!(cost_of(cache.get_mut(&key("a"))), Some(7));
    assert!(cache.insert(key("a"), entry(8, 0)).is_ok());
    assert_eq!(cost_of(cache.get_mut(&key("a"))), Some(8));
    let mut empty: GDSFCache<CacheKey, CacheEntry> = GDSFCache::new(0);
    assert!(empty.insert(key("a"), entry(1, 1)).is_err());
    assert!(empty.insert(key("a"), entry(1, 0)).is_ok());
}

#[test]
fn a_greedy_cache_keeps_what_is_used_often() {
    let mut cache: GDSFCache<CacheKey, CacheEntry> = GDSFCache::new(8);
    assert!(cache.insert(key("a"), entry(8, 4)).is_ok());
    assert!(cache.insert(key("b"), entry(8, 4)).is_ok());
    for _ in 0..3 {
        assert_eq!(cost_of(cache.get_mut(&key("a"))), Some(8));
    }
    assert_eq!(cost_of(cache.get_mut(&key("c"))), None);
    assert!(cache.insert(key("c"), entry(12, 4)).is_ok());
    assert!(cache.contains_key(&key("a")));
    assert!(!cache.contains_key(&key("b")));
    assert!(cache.contains_key(&key("c")));
}

#[test]
fn a_cache_by_size_lets_the_entries_go_that_were_used_least_recently() {
    let mut cache: LruSizeCache<CacheKey, CacheEntry> = LruSizeCache::new(10);
    assert!(cache.store(key("a"), entry(1, 4)).is_ok());
    assert!(cache.store(key("b"), entry(2, 4)).is_ok());
    assert_eq!(cost_of(cache.fetch(&key("a"))), Some(1));
    assert!(cache.store(key("c"), entry(3, 4)).is_ok());
    assert!(cache.contains(&key("a")));
    assert!(!cache.contains(&key("b")));
    assert!(cache.contains(&key("c")));
    assert!(cache.store(key("d"), entry(4, 9)).is_ok());
    assert!(!cache.contains(&key("a")));
    assert!(!cache.contains(&key("c")));
    assert!(cache.contains(&key("d")));
    assert!(cache.store(key("e"), entry(5, 11)).is_err());
    assert!(cache.contains(&key("d")));
    assert_eq!(cache.remove(&key("d")).map(|e| e.cost), Some(4));
    assert_eq!(cost_of(cache.fetch(&key("d"))), None);
}

#[test]
fn a_cache_with_chains_keeps_everything() {
    for chains in [0usize, 1, 2, 7] {
        let mut cache: CollisionCache<CacheKey, CacheEntry> = CollisionCache::new(chains);
        let names: Vec<String> = (0..40).map(|i| format!("key {}", i)).collect();
        for (i, name) in names.iter().enumerate() {
            assert_eq!(cache.store(key(name), entry(i, 1)).map(|e| e.cost).map_err(|e| e.cost), Ok(i));
        }
        for (i, name) in names.iter().enumerate() {
            assert!(cache.contains(&key(name)));
            assert_eq!(cost_of(cache.fetch(&key(name))), Some(i));
        }
        assert!(cache.store(key("key 3"), entry(300, 1)).is_ok());
        assert_eq!(cost_of(cache.fetch(&key("key 3"))), Some(300));
        assert_eq!(cache.remove(&key("key 3")).map(|e| e.cost), Some(300));
        assert_eq!(cache.remove(&key("key 3")).map(|e| e.cost), None);
        assert!(!cache.contains(&key("key 3")));
        assert!(!cache.contains(&key("none")));
        assert_eq!(cost_of(cache.fetch(&key("key 4"))), Some(4));
    }
}

#[test]
fn hashes_are_those_of_fnv_modulo_a_number() {
    let hash = |bytes: &[u8], modulus: u64| {
        let mut hasher = ModBuildHasher::new(modulus).build_hasher();
        hasher.write(bytes);
        hasher.finish()
    };
    assert_eq!(hash(b"", 0), 0xcbf29ce484222325);
    assert_eq!(hash(b"a", 0), 0xaf63dc4c8601ec8c);
    assert_eq!(hash(b"foobar", 0), 0x85944171f73967e8);
    assert_eq!(hash(b"foobar", 1000), 0x85944171f73967e8 % 1000);
    assert_eq!(hash(b"foobar", 1), 0);
    let mut bytewise = ModBuildHasher::new(0).build_hasher();
    for byte in b"foobar" {
        bytewise.write_u8(*byte);
    }
    assert_eq!(bytewise.finish(), 0x85944171f73967e8);
    let mut word = ModBuildHasher::new(0).build_hasher();
    word.write_u64(0x0807_0605_0403_0201);
    assert_eq!(word.finish(), hash(&[1, 2, 3, 4, 5, 6, 7, 8], 0));
    let mut seeded = ModBuildHasher::with_modulus_and_hasher(0, fnv::FnvHasher::with_key(5)).build_hasher();
    seeded.write(b"");
    assert_eq!(seeded.finish(), 5);
    let mut integer = ModBuildHasher::new(0).build_hasher();
    42u64.hash(&mut integer);
    assert_eq!(integer.finish(), hash(&[42, 0, 0, 0, 0, 0, 0, 0], 0));
    let mut first = ModBuildHasher::new(0).build_hasher();
    key("a").hash(&mut first);
    let mut second = ModBuildHasher::new(0).build_hasher();
    key("b").hash(&mut second);
    let mut third = ModBuildHasher::new(0).build_hasher();
    key("a").hash(&mut third);
    assert_ne!(first.finish(), second.finish());
    assert_eq!(first.finish(), third.finish());
    let with = |value: Value| {
        let mut hasher = ModBuildHasher::new(0).build_hasher();
        CacheKey { statement: "s".to_string(), input_params: vec![value] }.hash(&mut hasher);
        hasher.finish()
    };
    assert_ne!(with(Value::Str("ab".to_string())), with(Value::Str("ba".to_string())));
    assert_eq!(with(Value::Str("ab".to_string())), hash(b"sab", 0));
    assert_eq!(with(Value::Int(1)), hash(&[b's', 1, 0, 0, 0, 0, 0, 0, 0], 0));
    assert_eq!(with(Value::Int(-1)), hash(&[b's', 255, 255, 255, 255, 255, 255, 255, 255], 0));
    assert_eq!(with(Value::Bool(true)), with(Value::Int(1)));
}

#[test]
fn a_dummy_cache_holds_nothing() {
    let mut unused: DummyCache<CacheKey, CacheEntry> = Default::default();
    assert!(!unused.contains(&key("a")));
    let mut cache: DummyCache<CacheKey, CacheEntry> = DummyCache::new();
    assert_eq!(cache.store(key("a"), entry(1, 1)).map(|e| e.cost).map_err(|e| e.cost), Err(1));
    assert!(!cache.contains(&key("a")));
    assert_eq!(cost_of(cache.fetch(&key("a"))), None);
    assert_eq!(cache.remove(&key("a")).map(|e| e.cost), None);
}

#[test]
fn a_cache_by_number_lets_the_entry_go_that_was_used_least_recently() {
    let mut cache = make_cache(CacheType::Lru, 2);
    assert!(cache.store(key("a"), entry(1, 1)).is_ok());
    assert!(cache.store(key("b"), entry(2, 1)).is_ok());
    assert_eq!(cost_of(cache.fetch(&key("a"))), Some(1));
    assert_eq!(cache.store(key("c"), entry(3, 1)).map(|e| e.cost).map_err(|e| e.cost), Ok(3));
    assert!(!cache.contains(&key("b")));
    assert!(cache.contains(&key("a")));
    assert!(cache.store(key("c"), entry(30, 1)).is_ok());
    assert_eq!(cost_of(cache.fetch(&key("c"))), Some(30));
    assert!(cache.store(key("d"), entry(4, 1)).is_ok());
    assert!(!cache.contains(&key("a")));
    assert_eq!(cache.remove(&key("c")).map(|e| e.cost), Some(30));
    assert_eq!(cache.remove(&key("c")).map(|e| e.cost), None);
    assert_eq!(cost_of(cache.fetch(&key("d"))), Some(4));
    let mut none = make_cache(CacheType::Lru, 0);
    assert_eq!(none.store(key("a"), entry(1, 1)).map(|e| e.cost).map_err(|e| e.cost), Err(1));
    assert!(!none.contains(&key("a")));
}

struct Source {
    calls: Cell<usize>,
}

impl Fetcher<CacheKey, CacheEntry> for Source {
    // The model of what the source may answer; no program calls it.
    fn answers(&self, _key: CacheKeyModel, _value: CacheEntryModel) -> bool {
        unreachable!()
    }

    fn fetch(&self, key: &CacheKey) -> CacheEntry {
        self.calls.set(self.calls.get() + 1);
        tagged(key.statement.len(), 1 + key.statement.len() % 3)
    }
}

fn observed(fetched: FetchedValue<CacheEntry>) -> (usize, bool) {
    let cached = matches!(fetched, FetchedValue::Cached(_));
    (fetched.get().cost, cached)
}

#[test]
fn a_cached_fetcher_answers_what_its_source_answers() {
    let names = ["a", "bb", "a", "ccc", "bb", "dddd", "a", "eeeee", "a", "bb", "ccc"];
    for ty in [CacheType::Dummy, CacheType::Collision, CacheType::Lru, CacheType::LruSize, CacheType::Gdfs] {
        for capacity in [0usize, 1, 2, 3, 100] {
            let mut fetcher =
                CachedFetcher::with_cache(make_cache(ty, capacity), Source { calls: Cell::new(0) });
            for name in names {
                let (cost, _) = observed(fetcher.fetch(key(name)));
                assert_eq!(cost, name.len(), "{:?} {}", ty, capacity);
            }
            let calls = fetcher.fetcher.calls.get();
            assert!(calls >= 5 && calls <= names.len());
            if ty == CacheType::Dummy {
                assert_eq!(calls, names.len());
            }
            if ty == CacheType::Collision || capacity == 100 && ty != CacheType::Dummy {
                assert_eq!(calls, 5);
            }
        }
    }
}

#[test]
fn a_cached_fetcher_with_the_cache_of_its_type() {
    let mut fetcher: CachedFetcher<DummyCache<CacheKey, CacheEntry>, Source> =
        CachedFetcher::new(Source { calls: Cell::new(0) });
    assert_eq!(observed(fetcher.fetch(key("abc"))), (3, false));
    assert_eq!(observed(fetcher.fetch(key("abc"))), (3, false));
    assert_eq!(fetcher.fetcher.calls.get(), 2);
}

#[test]
fn a_cached_fetcher_looks_up_and_fills() {
    let mut fetcher = CachedFetcher::with_cache(make_cache(CacheType::Lru, 1), Source { calls: Cell::new(0) });
    assert_eq!(fetcher.lookup(&key("a")).map(|e| e.cost), None);
    assert_eq!(observed(fetcher.fill(key("a"), entry(9, 1))), (9, true));
    assert_eq!(fetcher.lookup(&key("a")).map(|e| e.cost), Some(9));
    assert_eq!(observed(fetcher.fetch(key("a"))), (9, true));
    assert_eq!(observed(fetcher.fetch(key("bb"))), (2, true));
    assert_eq!(fetcher.lookup(&key("a")).map(|e| e.cost), None);
    assert_eq!(fetcher.fetcher.calls.get(), 1);
    let mut uncached =
        CachedFetcher::with_cache(make_cache(CacheType::Dummy, 1), Source { calls: Cell::new(0) });
    assert_eq!(observed(uncached.fetch(key("a"))), (1, false));
    assert_eq!(observed(uncached.fill(key("a"), entry(9, 1))), (9, false));
}

#[test]
fn a_map_keeps_everything() {
    let mut cache: std::collections::HashMap<u64, CacheEntry> = std::collections::HashMap::new();
    assert!(!cache.contains(&1));
    assert_eq!(cost_of(cache.fetch(&1)), None);
    for i in 0..100u64 {
        assert_eq!(cache.store(i, entry(i as usize, 1)).map(|e| e.cost).map_err(|e| e.cost), Ok(i as usize));
    }
    for i in 0..100u64 {
        assert!(cache.contains(&i));
        assert_eq!(cost_of(cache.fetch(&i)), Some(i as usize));
    }
    assert_eq!(cache.store(7, entry(700, 1)).map(|e| e.cost).map_err(|e| e.cost), Ok(700));
    assert_eq!(cost_of(cache.fetch(&7)), Some(700));
    assert_eq!(Cache::remove(&mut cache, &7).map(|e| e.cost), Some(700));
    assert_eq!(Cache::remove(&mut cache, &7).map(|e| e.cost), None);
    assert!(!cache.contains(&7));
    assert_eq!(cache.len(), 99);
}

#[test]
fn a_cache_of_one_entry_behind_a_fetcher_misses_what_it_let_go() {
    let mut fetcher = CachedFetcher::with_cache(make_cache(CacheType::Lru, 1), Source { calls: Cell::new(0) });
    assert_eq!(observed(fetcher.fetch(key("a"))), (1, true));
    assert_eq!(observed(fetcher.fetch(key("bb"))), (2, true));
    assert_eq!(observed(fetcher.fetch(key("a"))), (1, true));
    assert_eq!(fetcher.fetcher.calls.get(), 3);
    assert!(fetcher.cache.contains(&key("a")));
    assert!(!fetcher.cache.contains(&key("bb")));
    assert_eq!(observed(fetcher.fetch(key("a"))), (1, true));
    assert_eq!(fetcher.fetcher.calls.get(), 3);
}

#[test]
fn a_value_that_is_refused_leaves_the_other_entries() {
    for ty in [CacheType::LruSize, CacheType::Gdfs] {
        let mut cache = make_cache(ty, 4);
        assert!(cache.store(key("a"), entry(1, 2)).is_ok());
        assert!(cache.store(key("b"), entry(1, 2)).is_ok());
        assert_eq!(cache.store(key("c"), entry(9, 5)).map(|e| e.cost).map_err(|e| e.cost), Err(9));
        assert!(cache.contains(&key("a")) && cache.contains(&key("b")) && !cache.contains(&key("c")));
        let mut fetcher = CachedFetcher::with_cache(cache, Source { calls: Cell::new(0) });
        assert_eq!(observed(fetcher.fill(key("d"), entry(7, 5))), (7, false));
        assert!(fetcher.cache.contains(&key("a")) && fetcher.cache.contains(&key("b")));
        assert!(!fetcher.cache.contains(&key("d")));
    }
    let mut none = make_cache(CacheType::Lru, 0);
    assert_eq!(none.store(key("a"), entry(3, 1)).map(|e| e.cost).map_err(|e| e.cost), Err(3));
    assert!(!none.contains(&key("a")));
}

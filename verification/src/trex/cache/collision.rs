//! The cache that is a hash table with a fixed number of chains: the
//! chain of a key is the hash of the key, modulo that number.

use crate::trex::cache::chain::{
    distinct_keys,
    dropped,
    held,
    lemma_dropped,
    lemma_place,
    lemma_place_at,
    lemma_pushed,
    place,
    Order,
};
use crate::trex::cache::{Cache, Entries, KeyEq};
use fnv::FnvHasher;
use std::hash::Hasher;
use vstd::prelude::*;

verus! {

/// The hasher of the `fnv` crate.
#[verifier::external_type_specification]
#[verifier::external_body]
pub struct ExFnvHasher(FnvHasher);

/// The state that a hasher starts from.
pub const FNV_OFFSET: u64 = 0xcbf29ce484222325;

/// The number that a hasher multiplies its state by.
pub const FNV_PRIME: u64 = 0x100000001b3;

/// The state of a hasher.
pub uninterp spec fn fnv_state(hasher: FnvHasher) -> u64;

/// The state after one byte: the state, xor the byte, times the prime,
/// within 64 bits.
pub open spec fn fnv_step(state: u64, byte: u8) -> u64 {
    (((state ^ (byte as u64)) * FNV_PRIME) % 0x1_0000_0000_0000_0000) as u64
}

/// The state after the first `n` bytes.
pub open spec fn fnv_fold(state: u64, bytes: Seq<u8>, n: int) -> u64
    decreases n,
{
    if n <= 0 {
        state
    } else {
        fnv_step(fnv_fold(state, bytes, n - 1), bytes[n - 1])
    }
}

/// `FnvHasher::default`: a hasher in the state that every hasher starts from.
#[verifier::external_body]
fn fnv_default() -> (hasher: FnvHasher)
    ensures
        fnv_state(hasher) == FNV_OFFSET,
{
    FnvHasher::default()
}

/// `FnvHasher::with_key`: a hasher in the given state.
#[verifier::external_body]
fn fnv_with_key(key: u64) -> (hasher: FnvHasher)
    ensures
        fnv_state(hasher) == key,
{
    FnvHasher::with_key(key)
}

/// `Hasher::write` of `FnvHasher`: the bytes are taken into the state one by one.
#[verifier::external_body]
fn fnv_write(hasher: &mut FnvHasher, bytes: &[u8])
    ensures
        fnv_state(*final(hasher)) == fnv_fold(fnv_state(*old(hasher)), bytes@, bytes@.len() as int),
{
    hasher.write(bytes)
}

/// `Hasher::finish` of `FnvHasher`: the state.
#[verifier::external_body]
fn fnv_finish(hasher: &FnvHasher) -> (hash: u64)
    ensures
        hash == fnv_state(*hasher),
{
    hasher.finish()
}

/// A hash, modulo a number; the hash itself where the number is zero.
pub open spec fn reduced(hash: u64, modulus: u64) -> u64 {
    if modulus == 0 {
        hash
    } else {
        hash % modulus
    }
}

/// The bytes of a number, the lowest first.
pub open spec fn low_bytes(word: u64) -> Seq<u8> {
    seq![
        (word % 256) as u8,
        (word / 0x100 % 256) as u8,
        (word / 0x1_0000 % 256) as u8,
        (word / 0x100_0000 % 256) as u8,
        (word / 0x1_0000_0000 % 256) as u8,
        (word / 0x100_0000_0000 % 256) as u8,
        (word / 0x1_0000_0000_0000 % 256) as u8,
        (word / 0x100_0000_0000_0000 % 256) as u8,
    ]
}

/// A hasher whose hash is that of an FNV hasher, modulo a number.
pub struct ModHasher {
    hasher: FnvHasher,
    modulus: u64,
}

impl ModHasher {
    /// The state of the hasher.
    pub closed spec fn state(&self) -> u64 {
        fnv_state(self.hasher)
    }

    /// The number that the hash is taken modulo.
    pub closed spec fn modulus(&self) -> u64 {
        self.modulus
    }

    /// The hash of what was written: the state, modulo the number.
    pub fn finish(&self) -> (hash: u64)
        ensures
            hash == reduced(self.state(), self.modulus()),
    {
        let hash = fnv_finish(&self.hasher);
        if self.modulus == 0 {
            hash
        } else {
            hash % self.modulus
        }
    }

    /// Takes bytes into the state.
    pub fn write(&mut self, bytes: &[u8])
        ensures
            final(self).state() == fnv_fold(old(self).state(), bytes@, bytes@.len() as int),
            final(self).modulus() == old(self).modulus(),
    {
        fnv_write(&mut self.hasher, bytes);
    }

    /// Takes a byte into the state.
    pub fn write_u8(&mut self, i: u8)
        ensures
            final(self).state() == fnv_step(old(self).state(), i),
            final(self).modulus() == old(self).modulus(),
    {
        let bytes: [u8; 1] = [i];
        proof {
            reveal_with_fuel(fnv_fold, 2);
        }
        fnv_write(&mut self.hasher, bytes.as_slice());
    }

    /// Takes the eight bytes of a number into the state, the lowest first.
    pub fn write_u64(&mut self, i: u64)
        ensures
            final(self).state() == fnv_fold(old(self).state(), low_bytes(i), 8),
            final(self).modulus() == old(self).modulus(),
    {
        let bytes: [u8; 8] = [
            (i % 256) as u8,
            (i / 0x100 % 256) as u8,
            (i / 0x1_0000 % 256) as u8,
            (i / 0x100_0000 % 256) as u8,
            (i / 0x1_0000_0000 % 256) as u8,
            (i / 0x100_0000_0000 % 256) as u8,
            (i / 0x1_0000_0000_0000 % 256) as u8,
            (i / 0x100_0000_0000_0000 % 256) as u8,
        ];
        assert(bytes@ =~= low_bytes(i));
        fnv_write(&mut self.hasher, bytes.as_slice());
    }
}

/// A maker of hashers that hash modulo a number.
pub struct ModBuildHasher {
    seed: u64,
    modulus: u64,
}

impl ModBuildHasher {
    /// The state that the hashers start from.
    pub closed spec fn seed(&self) -> u64 {
        self.seed
    }

    /// The number that the hashes are taken modulo.
    pub closed spec fn modulus(&self) -> u64 {
        self.modulus
    }

    /// A maker of hashers that hash modulo the given number.
    pub fn new(modulus: u64) -> (builder: ModBuildHasher)
        ensures
            builder.seed() == FNV_OFFSET,
            builder.modulus() == modulus,
    {
        ModBuildHasher::with_modulus_and_hasher(modulus, fnv_default())
    }

    /// A maker of hashers that hash modulo the given number and start from
    /// the state of the given hasher.
    pub fn with_modulus_and_hasher(modulus: u64, hash_builder: FnvHasher) -> (builder:
        ModBuildHasher)
        ensures
            builder.seed() == fnv_state(hash_builder),
            builder.modulus() == modulus,
    {
        ModBuildHasher { seed: fnv_finish(&hash_builder), modulus }
    }

    /// A hasher.
    pub fn build_hasher(&self) -> (hasher: ModHasher)
        ensures
            hasher.state() == self.seed(),
            hasher.modulus() == self.modulus(),
    {
        ModHasher { hasher: fnv_with_key(self.seed), modulus: self.modulus }
    }
}

/// Keys that can be hashed: what is written to the hasher depends on what
/// the key holds only.
pub trait Digest: DeepView {
    /// The state of a hasher once the key is written to it.
    spec fn digest(key: Self::V, state: u64) -> u64;

    /// Writes the key to a hasher.
    fn hash(&self, state: &mut ModHasher)
        ensures
            final(state).state() == Self::digest(self.deep_view(), old(state).state()),
            final(state).modulus() == old(state).modulus(),
    ;
}

/// A cache that keeps every value that it is given, in one of a fixed
/// number of chains.
pub struct CollisionCache<K, V> {
    builder: ModBuildHasher,
    chains: Vec<Vec<(K, V)>>,
}

/// The chain of a key.
pub open spec fn chain_of<K: Digest>(key: K::V, seed: u64, chains: int) -> int {
    reduced(K::digest(key, seed), chains as u64) as int
}

impl<K: KeyEq + Digest, V: DeepView> CollisionCache<K, V> {
    /// The state that the hashers start from.
    pub closed spec fn seed(&self) -> u64 {
        self.builder.seed()
    }

    /// The chains, each with its entries in the order in which they came.
    pub closed spec fn chains(&self) -> Seq<Order<K::V, V::V>> {
        self.chains.deep_view()
    }

    /// The number that the hashes are taken modulo.
    pub closed spec fn modulus(&self) -> u64 {
        self.builder.modulus()
    }

    /// The cache is in order: it has as many chains as the number that
    /// the hashes are taken modulo, every entry is in the chain of its key,
    /// and no chain has two entries with the same key.
    pub open spec fn inv(&self) -> bool {
        &&& 0 < self.chains().len() <= u64::MAX
        &&& self.modulus() == self.chains().len()
        &&& forall|c: int|
            0 <= c < self.chains().len() ==> distinct_keys(#[trigger] self.chains()[c])
        &&& forall|c: int, i: int|
            0 <= c < self.chains().len() && 0 <= i < self.chains()[c].len() ==> chain_of::<K>(
                (#[trigger] self.chains()[c][i]).0,
                self.seed(),
                self.chains().len() as int,
            ) == c
    }

    /// An empty cache with the given number of chains, or with one chain
    /// where the number is zero.
    pub fn new(capacity: usize) -> (cache: CollisionCache<K, V>)
        ensures
            cache.inv(),
            cache.seed() == FNV_OFFSET,
            cache.chains().len() == if capacity == 0 {
                1
            } else {
                capacity as int
            },
            forall|c: int| 0 <= c < cache.chains().len() ==> (#[trigger] cache.chains()[c]).len() == 0,
    {
        let count = if capacity == 0 {
            1
        } else {
            capacity
        };
        let mut chains: Vec<Vec<(K, V)>> = Vec::new();
        while chains.len() < count
            invariant
                chains.len() <= count,
                forall|c: int| 0 <= c < chains.len() ==> (#[trigger] chains@[c])@.len() == 0,
            decreases count - chains.len(),
        {
            chains.push(Vec::new());
        }
        let cache = CollisionCache { builder: ModBuildHasher::new(count as u64), chains };
        assert forall|c: int| 0 <= c < cache.chains().len() implies (#[trigger] cache.chains()[c]).len()
            == 0 by {
            assert(cache.chains()[c] == cache.chains@[c].deep_view());
        }
        cache
    }

    fn chain(&self, key: &K) -> (c: usize)
        requires
            self.inv(),
        ensures
            c == chain_of::<K>(key.deep_view(), self.seed(), self.chains().len() as int),
            c < self.chains().len(),
    {
        let mut hasher = self.builder.build_hasher();
        key.hash(&mut hasher);
        let hash = hasher.finish();
        assert(self.chains().len() == self.chains@.len());
        let count = self.chains.len();
        assert(hash < count);
        hash as usize
    }

    fn find(chain: &Vec<(K, V)>, key: &K) -> (at: Option<usize>)
        requires
            distinct_keys(chain.deep_view()),
        ensures
            match at {
                Some(i) => i < chain.len() && chain@[i as int].0.deep_view() == key.deep_view()
                    && place(chain.deep_view(), key.deep_view(), chain.len() as int) == Some(
                    i as int,
                ),
                None => place(chain.deep_view(), key.deep_view(), chain.len() as int).is_none(),
            },
    {
        let ghost entries = chain.deep_view();
        let mut i: usize = 0;
        while i < chain.len()
            invariant
                i <= chain.len(),
                entries == chain.deep_view(),
                distinct_keys(entries),
                forall|k: int| 0 <= k < i ==> (#[trigger] entries[k]).0 != key.deep_view(),
            decreases chain.len() - i,
        {
            assert(entries[i as int] == chain@[i as int].deep_view());
            if chain[i].0.same_key(key) {
                proof {
                    lemma_place_at(entries, i as int);
                }
                return Some(i);
            }
            i += 1;
        }
        proof {
            lemma_place(entries, key.deep_view(), entries.len() as int);
        }
        None
    }
}

/// What chains hold: every chain holds its entries under their keys.
pub open spec fn held_in<K: Digest, V>(chains: Seq<Order<K::V, V>>, seed: u64) -> Map<K::V, V> {
    Map::new(
        |key: K::V| held(chains[chain_of::<K>(key, seed, chains.len() as int)]).contains_key(key),
        |key: K::V| held(chains[chain_of::<K>(key, seed, chains.len() as int)])[key],
    )
}

/// Chains without entries hold nothing.
pub proof fn lemma_empty_chains<K: Digest, V>(chains: Seq<Order<K::V, V>>, seed: u64)
    requires
        forall|c: int| 0 <= c < chains.len() ==> (#[trigger] chains[c]).len() == 0,
        0 < chains.len() <= u64::MAX,
    ensures
        held_in::<K, V>(chains, seed) == Map::<K::V, V>::empty(),
{
    assert forall|key: K::V| !(#[trigger] held_in::<K, V>(chains, seed).contains_key(key)) by {
        let c = chain_of::<K>(key, seed, chains.len() as int);
        assert(chains[c].len() == 0);
    }
    assert(held_in::<K, V>(chains, seed) =~= Map::<K::V, V>::empty());
}

impl<K: KeyEq + Digest, V: DeepView> Cache for CollisionCache<K, V> {
    type K = K;

    type V = V;

    open spec fn entries(&self) -> Entries<Self> {
        held_in::<K, V::V>(self.chains(), self.seed())
    }

    open spec fn wf(&self) -> bool {
        self.inv()
    }

    open spec fn takes(&self, k: K, v: V) -> bool {
        true
    }

    open spec fn stored(&self, k: K, v: V, after: Self) -> bool {
        &&& after.seed() == self.seed()
        &&& after.chains() == self.chains().update(
            chain_of::<K>(k.deep_view(), self.seed(), self.chains().len() as int),
            dropped(
                self.chains()[chain_of::<K>(k.deep_view(), self.seed(), self.chains().len() as int)],
                k.deep_view(),
            ).push((k.deep_view(), v.deep_view())),
        )
    }

    open spec fn used(&self, k: K::V, after: Self) -> bool {
        after.seed() == self.seed() && after.chains() == self.chains()
    }

    open spec fn looked(&self, k: K::V, after: Self) -> bool {
        after.seed() == self.seed() && after.chains() == self.chains()
    }

    open spec fn removed(&self, k: K::V, after: Self) -> bool {
        &&& after.seed() == self.seed()
        &&& after.chains() == self.chains().update(
            chain_of::<K>(k, self.seed(), self.chains().len() as int),
            dropped(self.chains()[chain_of::<K>(k, self.seed(), self.chains().len() as int)], k),
        )
    }

    /// The cache takes every value: the value is the last entry of the
    /// chain of its key, in place of what the chain had under the key, and
    /// nothing leaves the cache.
    fn store(&mut self, k: K, v: V) -> (stored: Result<&V, V>)
        ensures
            final(self).entries() == old(self).entries().insert(k.deep_view(), v.deep_view()),
    {
        let c = self.chain(&k);
        let ghost before = self.chains();
        let ghost chain = before[c as int];
        let ghost key = k.deep_view();
        let ghost value = v.deep_view();
        assert(chain == self.chains@[c as int].deep_view());
        if let Some(at) = Self::find(&self.chains[c], &k) {
            let ghost shorter = self.chains@[c as int].deep_view().remove(at as int);
            self.chains[c].remove(at);
            assert(self.chains@[c as int].deep_view() =~= shorter);
        }
        let ghost rest = self.chains@[c as int].deep_view();
        self.chains[c].push((k, v));
        proof {
            assert(rest == dropped(chain, key));
            lemma_dropped(chain, key);
            lemma_pushed(rest, key, value);
            let after = self.chains();
            assert(self.chains@[c as int].deep_view() =~= rest.push((key, value)));
            assert(after =~= before.update(c as int, rest.push((key, value))));
            assert forall|d: int, i: int|
                0 <= d < after.len() && 0 <= i < after[d].len() implies chain_of::<K>(
                (#[trigger] after[d][i]).0,
                self.seed(),
                after.len() as int,
            ) == d by {
                if d == c {
                    if i < rest.len() {
                        lemma_chain_member(chain, key, i);
                    }
                } else {
                    assert(after[d] == before[d]);
                }
            }
            assert forall|d: int| 0 <= d < after.len() implies distinct_keys(
                #[trigger] after[d],
            ) by {
                if d != c {
                    assert(after[d] == before[d]);
                }
            }
            assert forall|other: K::V| #[trigger]
                self.entries().contains_key(other) == old(self).entries().insert(
                    key,
                    value,
                ).contains_key(other) && (self.entries().contains_key(other)
                    ==> self.entries()[other] == old(self).entries().insert(key, value)[other]) by {
                let d = chain_of::<K>(other, self.seed(), after.len() as int);
                if d != c {
                    assert(after[d] == before[d]);
                }
            }
            assert(self.entries() =~= old(self).entries().insert(key, value));
        }
        let last = self.chains[c].len() - 1;
        Ok(&self.chains[c][last].1)
    }

    /// A use changes nothing of the cache.
    fn fetch(&mut self, k: &K) -> (found: Option<&V>) {
        let c = self.chain(k);
        assert(self.chains()[c as int] == self.chains@[c as int].deep_view());
        match Self::find(&self.chains[c], k) {
            Some(at) => {
                assert(self.chains@[c as int].deep_view()[at as int]
                    == self.chains@[c as int]@[at as int].deep_view());
                Some(&self.chains[c][at].1)
            },
            None => None,
        }
    }

    /// A look changes nothing of the cache.
    fn contains(&mut self, k: &K) -> (held: bool) {
        let c = self.chain(k);
        assert(self.chains()[c as int] == self.chains@[c as int].deep_view());
        Self::find(&self.chains[c], k).is_some()
    }

    /// The other entries of the chain of the key stay in their order.
    fn remove(&mut self, k: &K) -> (removed: Option<V>) {
        let c = self.chain(k);
        let ghost before = self.chains();
        let ghost chain = before[c as int];
        let ghost key = k.deep_view();
        assert(chain == self.chains@[c as int].deep_view());
        match Self::find(&self.chains[c], k) {
            Some(at) => {
                let ghost shorter = chain.remove(at as int);
                assert(chain[at as int] == self.chains@[c as int]@[at as int].deep_view());
                let entry = self.chains[c].remove(at);
                proof {
                    assert(self.chains@[c as int].deep_view() =~= shorter);
                    let after = self.chains();
                    assert(after =~= before.update(c as int, shorter));
                    lemma_dropped(chain, key);
                    assert forall|d: int, i: int|
                        0 <= d < after.len() && 0 <= i < after[d].len() implies chain_of::<K>(
                        (#[trigger] after[d][i]).0,
                        self.seed(),
                        after.len() as int,
                    ) == d by {
                        if d == c {
                            lemma_chain_member(chain, key, i);
                        } else {
                            assert(after[d] == before[d]);
                        }
                    }
                    assert forall|d: int| 0 <= d < after.len() implies distinct_keys(
                        #[trigger] after[d],
                    ) by {
                        if d != c {
                            assert(after[d] == before[d]);
                        }
                    }
                    assert forall|other: K::V| #[trigger]
                        self.entries().contains_key(other) == old(self).entries().remove(
                            key,
                        ).contains_key(other) && (self.entries().contains_key(other)
                            ==> self.entries()[other] == old(self).entries().remove(key)[other]) by {
                        let d = chain_of::<K>(other, self.seed(), after.len() as int);
                        if d != c {
                            assert(after[d] == before[d]);
                        }
                    }
                    assert(self.entries() =~= old(self).entries().remove(key));
                }
                Some(entry.1)
            },
            None => {
                assert(self.entries() =~= old(self).entries().remove(key));
                assert(self.chains() =~= before.update(c as int, dropped(chain, key)));
                None
            },
        }
    }
}

/// Every entry of a chain but that of a key is an entry of the chain.
pub proof fn lemma_chain_member<K, V>(chain: Order<K, V>, key: K, i: int)
    requires
        0 <= i < dropped(chain, key).len(),
    ensures
        exists|j: int| 0 <= j < chain.len() && #[trigger] chain[j] == dropped(chain, key)[i],
{
    lemma_place(chain, key, chain.len() as int);
    match place(chain, key, chain.len() as int) {
        Some(at) => {
            let j = if i < at { i } else { i + 1 };
            assert(chain[j] == dropped(chain, key)[i]);
        },
        None => {
            assert(chain[i] == dropped(chain, key)[i]);
        },
    }
}

impl KeyEq for u64 {
    fn same_key(&self, other: &u64) -> (same: bool) {
        *self == *other
    }
}

impl Digest for u64 {
    open spec fn digest(key: u64, state: u64) -> u64 {
        fnv_fold(state, low_bytes(key), 8)
    }

    fn hash(&self, state: &mut ModHasher) {
        state.write_u64(*self);
    }
}

} // verus!

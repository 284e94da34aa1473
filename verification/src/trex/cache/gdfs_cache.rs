//! The greedy dual size frequency cache.
//!
//! Every entry has a priority: the clock of the cache when the entry was
//! last used, plus its frequency times its cost divided by its size. When
//! room is needed the entries of lowest priority leave, and the clock moves
//! up to the highest priority that left: small values that are cheap to
//! obtain go first, and values that are costly and often used stay.

use crate::trex::cache::{stored_as, Cache, KeyEq, Entries, HasCost, HasSize};
use vstd::prelude::*;

verus! {

/// The priority of an entry. The product and the sum stop at the largest
/// number that there is, and a size of zero counts as one.
pub open spec fn priority_of(clock: usize, frequency: usize, cost: usize, size: usize) -> usize {
    let weight = if frequency * cost > usize::MAX {
        usize::MAX as int
    } else {
        frequency * cost
    };
    let share = weight / (if size == 0 {
        1
    } else {
        size as int
    });
    if clock + share > usize::MAX {
        usize::MAX
    } else {
        (clock + share) as usize
    }
}

/// An entry of the cache.
pub struct StorageEntry<K, V> {
    /// The key.
    pub key: K,
    /// The value.
    pub value: V,
    /// How often the entry was used.
    pub frequency: usize,
    /// The clock of the cache when the entry was last used.
    pub clock: usize,
}

impl<K, V: HasSize + HasCost> StorageEntry<K, V> {
    /// The priority of the entry.
    pub open spec fn priority_model(&self) -> usize {
        priority_of(self.clock, self.frequency, self.value.cost_model(), self.value.size_model())
    }

    /// An entry that was used once, at the given clock.
    pub fn new(key: K, value: V, clock: usize) -> (entry: StorageEntry<K, V>)
        ensures
            entry.key == key,
            entry.value == value,
            entry.frequency == 1,
            entry.clock == clock,
    {
        StorageEntry { key, value, frequency: 1, clock }
    }

    /// The priority of the entry.
    pub fn priority(&self) -> (priority: usize)
        ensures
            priority == self.priority_model(),
    {
        let weight = match self.frequency.checked_mul(self.value.cost()) {
            Some(weight) => weight,
            None => usize::MAX,
        };
        let size = self.value.size();
        let share = weight / (if size == 0 {
            1
        } else {
            size
        });
        self.clock.saturating_add(share)
    }

    /// Counts one more use, at the given clock, and gives the new priority.
    pub fn update(&mut self, clock: usize) -> (priority: usize)
        ensures
            final(self).key == old(self).key,
            final(self).value == old(self).value,
            final(self).clock == clock,
            final(self).frequency == if old(self).frequency == usize::MAX {
                usize::MAX
            } else {
                (old(self).frequency + 1) as usize
            },
            priority == final(self).priority_model(),
    {
        self.clock = clock;
        self.frequency = self.frequency.saturating_add(1);
        self.priority()
    }
}

/// The entries of a cache, from the lowest priority to the highest.
pub type Queue<K, V> = Seq<StorageEntry<K, V>>;

/// The sizes of the entries, added up.
pub open spec fn total_size<K, V: HasSize + HasCost>(queue: Queue<K, V>) -> int
    decreases queue.len(),
{
    if queue.len() == 0 {
        0
    } else {
        total_size(queue.drop_last()) + queue.last().value.size_model()
    }
}

/// No entry has a lower priority than one before it.
pub open spec fn ascending<K, V: HasSize + HasCost>(queue: Queue<K, V>) -> bool {
    forall|i: int, j: int|
        0 <= i < j < queue.len() ==> queue[i].priority_model() <= queue[j].priority_model()
}

/// No two entries have the same key.
pub open spec fn distinct<K: DeepView, V>(queue: Queue<K, V>) -> bool {
    forall|i: int, j: int|
        0 <= i < queue.len() && 0 <= j < queue.len() && i != j ==> queue[i].key.deep_view()
            != queue[j].key.deep_view()
}

/// Whether there is an entry with the key.
pub open spec fn holds<K: DeepView, V>(queue: Queue<K, V>, key: K::V) -> bool {
    exists|i: int| 0 <= i < queue.len() && #[trigger] queue[i].key.deep_view() == key
}

/// The place of the entry with the key.
pub open spec fn slot<K: DeepView, V>(queue: Queue<K, V>, key: K::V) -> int {
    choose|i: int| 0 <= i < queue.len() && #[trigger] queue[i].key.deep_view() == key
}

/// The entries but the one with the key.
pub open spec fn without<K: DeepView, V>(queue: Queue<K, V>, key: K::V) -> Queue<K, V> {
    if holds(queue, key) {
        queue.remove(slot(queue, key))
    } else {
        queue
    }
}

/// The place, from `from` on, of the first entry whose priority is above `priority`.
pub open spec fn rank<K, V: HasSize + HasCost>(queue: Queue<K, V>, priority: usize, from: int) -> int
    decreases queue.len() - from,
{
    if 0 <= from < queue.len() && queue[from].priority_model() <= priority {
        rank(queue, priority, from + 1)
    } else {
        from
    }
}

/// The entries with one more, which comes after those that are not above it
/// in priority.
pub open spec fn placed<K, V: HasSize + HasCost>(queue: Queue<K, V>, entry: StorageEntry<K, V>) -> Queue<
    K,
    V,
> {
    queue.insert(rank(queue, entry.priority_model(), 0), entry)
}

/// How many entries have to leave to free `excess`: the entries are taken
/// from `from` on, in their order and no further than their priority is not
/// above `priority`, until the sizes of those taken, added to `freed`,
/// reach `excess`. `None` where they never do.
pub open spec fn victims<K, V: HasSize + HasCost>(
    queue: Queue<K, V>,
    priority: usize,
    excess: int,
    from: int,
    freed: int,
) -> Option<int>
    decreases queue.len() - from,
{
    if from < 0 || from >= queue.len() || queue[from].priority_model() > priority {
        None
    } else if freed + queue[from].value.size_model() >= excess {
        Some(from + 1)
    } else {
        victims(queue, priority, excess, from + 1, freed + queue[from].value.size_model())
    }
}

/// The state of a cache.
pub struct GdsfModel<K, V> {
    pub capacity: usize,
    pub clock: usize,
    pub queue: Queue<K, V>,
}

/// The cache after a use of the entry with the key: the use is counted,
/// the entry takes the clock of the cache and moves to the place of its new
/// priority.
pub open spec fn used_model<K: DeepView, V: HasSize + HasCost>(
    state: GdsfModel<K, V>,
    key: K::V,
) -> GdsfModel<K, V> {
    if holds(state.queue, key) {
        let entry = state.queue[slot(state.queue, key)];
        let counted = StorageEntry {
            key: entry.key,
            value: entry.value,
            frequency: if entry.frequency == usize::MAX {
                usize::MAX
            } else {
                (entry.frequency + 1) as usize
            },
            clock: state.clock,
        };
        GdsfModel { queue: placed(without(state.queue, key), counted), ..state }
    } else {
        state
    }
}

/// The cache after the insertion of a value, and whether it has taken the value.
///
/// What the cache held under the key leaves first. If there is room the
/// value is taken. If there is none, entries leave from the lowest priority
/// up, as long as their priority is not above that of the new entry, until
/// there is room; the clock moves to the priority of the last one that
/// leaves, and the value is taken. If the entries whose priority is not
/// above that of the new entry do not free enough, none leaves, the value
/// is refused and the clock moves to the priority of the new entry.
pub open spec fn insert_model<K: DeepView, V: HasSize + HasCost>(
    state: GdsfModel<K, V>,
    key: K,
    value: V,
) -> (GdsfModel<K, V>, bool) {
    let rest = without(state.queue, key.deep_view());
    let entry = StorageEntry { key, value, frequency: 1, clock: state.clock };
    let priority = entry.priority_model();
    let needed = total_size(rest) + value.size_model();
    if needed <= state.capacity {
        (GdsfModel { queue: placed(rest, entry), ..state }, true)
    } else {
        match victims(rest, priority, needed - state.capacity, 0, 0) {
            Some(n) => (
                GdsfModel {
                    capacity: state.capacity,
                    clock: rest[n - 1].priority_model(),
                    queue: placed(rest.subrange(n, rest.len() as int), entry),
                },
                true,
            ),
            None => (GdsfModel { capacity: state.capacity, clock: priority, queue: rest }, false),
        }
    }
}

/// The size of the entries grows by that of an entry that comes in.
pub proof fn lemma_size_insert<K, V: HasSize + HasCost>(
    queue: Queue<K, V>,
    at: int,
    entry: StorageEntry<K, V>,
)
    requires
        0 <= at <= queue.len(),
    ensures
        total_size(queue.insert(at, entry)) == total_size(queue) + entry.value.size_model(),
    decreases queue.len(),
{
    let grown = queue.insert(at, entry);
    if at == queue.len() {
        assert(grown.drop_last() =~= queue);
    } else {
        assert(grown.drop_last() =~= queue.drop_last().insert(at, entry));
        assert(grown.last() == queue.last());
        lemma_size_insert(queue.drop_last(), at, entry);
    }
}

/// The size of the entries shrinks by that of an entry that leaves.
pub proof fn lemma_size_remove<K, V: HasSize + HasCost>(queue: Queue<K, V>, at: int)
    requires
        0 <= at < queue.len(),
    ensures
        total_size(queue.remove(at)) == total_size(queue) - queue[at].value.size_model(),
    decreases queue.len(),
{
    let shrunk = queue.remove(at);
    if at == queue.len() - 1 {
        assert(shrunk =~= queue.drop_last());
    } else {
        assert(shrunk.drop_last() =~= queue.drop_last().remove(at));
        assert(shrunk.last() == queue.last());
        lemma_size_remove(queue.drop_last(), at);
    }
}

/// The size of the entries is that of the first `n` and that of the rest.
pub proof fn lemma_size_split<K, V: HasSize + HasCost>(queue: Queue<K, V>, n: int)
    requires
        0 <= n <= queue.len(),
    ensures
        total_size(queue) == total_size(queue.subrange(0, n)) + total_size(
            queue.subrange(n, queue.len() as int),
        ),
        total_size(queue.subrange(0, n)) >= 0,
        total_size(queue.subrange(n, queue.len() as int)) >= 0,
    decreases queue.len() - n,
{
    let len = queue.len() as int;
    lemma_size_nonnegative(queue.subrange(0, n));
    lemma_size_nonnegative(queue.subrange(n, len));
    if n == len {
        assert(queue.subrange(0, n) =~= queue);
        assert(queue.subrange(n, len) =~= Seq::<StorageEntry<K, V>>::empty());
    } else {
        lemma_size_split(queue, n + 1);
        assert(queue.subrange(0, n + 1).drop_last() =~= queue.subrange(0, n));
        assert(queue.subrange(0, n + 1).last() == queue[n]);
        let tail = queue.subrange(n, len);
        assert(tail.remove(0) =~= queue.subrange(n + 1, len));
        lemma_size_remove(tail, 0);
    }
}

/// Sizes do not add up to less than nothing.
pub proof fn lemma_size_nonnegative<K, V: HasSize + HasCost>(queue: Queue<K, V>)
    ensures
        total_size(queue) >= 0,
    decreases queue.len(),
{
    if queue.len() > 0 {
        lemma_size_nonnegative(queue.drop_last());
    }
}

/// The rank is a place of the queue; the entries before it are not above
/// the priority, and in an ascending queue those from it on are.
pub proof fn lemma_rank<K, V: HasSize + HasCost>(queue: Queue<K, V>, priority: usize, from: int)
    requires
        0 <= from <= queue.len(),
    ensures
        from <= rank(queue, priority, from) <= queue.len(),
        forall|i: int|
            from <= i < rank(queue, priority, from) ==> (#[trigger] queue[i]).priority_model()
                <= priority,
        rank(queue, priority, from) < queue.len() ==> queue[rank(
            queue,
            priority,
            from,
        )].priority_model() > priority,
    decreases queue.len() - from,
{
    if from < queue.len() && queue[from].priority_model() <= priority {
        lemma_rank(queue, priority, from + 1);
    }
}

/// An entry that is placed in an ascending queue leaves it ascending.
pub proof fn lemma_placed_ascending<K, V: HasSize + HasCost>(
    queue: Queue<K, V>,
    entry: StorageEntry<K, V>,
)
    requires
        ascending(queue),
    ensures
        ascending(placed(queue, entry)),
{
    let priority = entry.priority_model();
    let at = rank(queue, priority, 0);
    lemma_rank(queue, priority, 0);
    let grown = placed(queue, entry);
    assert forall|i: int, j: int| 0 <= i < j < grown.len() implies grown[i].priority_model()
        <= grown[j].priority_model() by {
        if i == at {
            assert(grown[j] == queue[j - 1]);
            assert(queue[at].priority_model() <= queue[j - 1].priority_model() || at == j - 1);
        } else if j == at {
            assert(grown[i] == queue[i]);
        } else {
            let i0 = if i < at { i } else { i - 1 };
            let j0 = if j < at { j } else { j - 1 };
            assert(grown[i] == queue[i0]);
            assert(grown[j] == queue[j0]);
        }
    }
}

/// In a queue without two entries of one key, the entry with a key is at one place only.
pub proof fn lemma_slot<K: DeepView, V>(queue: Queue<K, V>, at: int)
    requires
        distinct(queue),
        0 <= at < queue.len(),
    ensures
        holds(queue, queue[at].key.deep_view()),
        slot(queue, queue[at].key.deep_view()) == at,
{
    let key = queue[at].key.deep_view();
    assert(queue[at].key.deep_view() == key);
    let found = slot(queue, key);
    if found != at {
        assert(queue[found].key.deep_view() != queue[at].key.deep_view());
    }
}

/// An entry that leaves a queue leaves it ascending and without two entries
/// of one key, and its key is no more in the queue.
pub proof fn lemma_remove_keeps_order<K: DeepView, V: HasSize + HasCost>(
    queue: Queue<K, V>,
    at: int,
)
    requires
        ascending(queue),
        distinct(queue),
        0 <= at < queue.len(),
    ensures
        ascending(queue.remove(at)),
        distinct(queue.remove(at)),
        !holds(queue.remove(at), queue[at].key.deep_view()),
        forall|key: K::V|
            key != queue[at].key.deep_view() ==> (#[trigger] holds(queue.remove(at), key) == holds(
                queue,
                key,
            )) && (holds(queue, key) ==> queue.remove(at)[slot(queue.remove(at), key)]
                == queue[slot(queue, key)]),
{
    let shrunk = queue.remove(at);
    assert forall|i: int, j: int| 0 <= i < j < shrunk.len() implies shrunk[i].priority_model()
        <= shrunk[j].priority_model() by {
        let i0 = if i < at { i } else { i + 1 };
        let j0 = if j < at { j } else { j + 1 };
        assert(shrunk[i] == queue[i0]);
        assert(shrunk[j] == queue[j0]);
    }
    assert forall|i: int, j: int|
        0 <= i < shrunk.len() && 0 <= j < shrunk.len() && i != j implies shrunk[i].key.deep_view()
        != shrunk[j].key.deep_view() by {
        let i0 = if i < at { i } else { i + 1 };
        let j0 = if j < at { j } else { j + 1 };
        assert(shrunk[i] == queue[i0]);
        assert(shrunk[j] == queue[j0]);
    }
    if holds(shrunk, queue[at].key.deep_view()) {
        let i = slot(shrunk, queue[at].key.deep_view());
        let i0 = if i < at { i } else { i + 1 };
        assert(shrunk[i] == queue[i0]);
        assert(queue[i0].key.deep_view() != queue[at].key.deep_view());
    }
    assert forall|key: K::V| key != queue[at].key.deep_view() implies (#[trigger] holds(
        shrunk,
        key,
    ) == holds(queue, key)) && (holds(queue, key) ==> shrunk[slot(shrunk, key)] == queue[slot(
        queue,
        key,
    )]) by {
        if holds(queue, key) {
            let i0 = slot(queue, key);
            let i = if i0 < at { i0 } else { i0 - 1 };
            assert(shrunk[i] == queue[i0]);
            assert(shrunk[i].key.deep_view() == key);
            lemma_slot(shrunk, i);
        }
        if holds(shrunk, key) {
            let i = slot(shrunk, key);
            let i0 = if i < at { i } else { i + 1 };
            assert(shrunk[i] == queue[i0]);
            assert(queue[i0].key.deep_view() == key);
        }
    }
}

/// An entry with a new key that comes into a queue leaves it without two
/// entries of one key; the queue holds the entry under its key and, under
/// any other key, what it held.
pub proof fn lemma_insert_keeps_keys<K: DeepView, V>(
    queue: Queue<K, V>,
    at: int,
    entry: StorageEntry<K, V>,
)
    requires
        distinct(queue),
        !holds(queue, entry.key.deep_view()),
        0 <= at <= queue.len(),
    ensures
        distinct(queue.insert(at, entry)),
        holds(queue.insert(at, entry), entry.key.deep_view()),
        slot(queue.insert(at, entry), entry.key.deep_view()) == at,
        forall|key: K::V|
            key != entry.key.deep_view() ==> (#[trigger] holds(queue.insert(at, entry), key)
                == holds(queue, key)) && (holds(queue, key) ==> queue.insert(at, entry)[slot(
                queue.insert(at, entry),
                key,
            )] == queue[slot(queue, key)]),
{
    let grown = queue.insert(at, entry);
    assert forall|i: int, j: int|
        0 <= i < grown.len() && 0 <= j < grown.len() && i != j implies grown[i].key.deep_view()
        != grown[j].key.deep_view() by {
        let i0 = if i < at { i } else { i - 1 };
        let j0 = if j < at { j } else { j - 1 };
        if i == at {
            assert(grown[j] == queue[j0]);
            assert(queue[j0].key.deep_view() == queue[j0].key.deep_view());
        } else if j == at {
            assert(grown[i] == queue[i0]);
            assert(queue[i0].key.deep_view() == queue[i0].key.deep_view());
        } else {
            assert(grown[i] == queue[i0]);
            assert(grown[j] == queue[j0]);
        }
    }
    assert(grown[at] == entry);
    lemma_slot(grown, at);
    assert forall|key: K::V| key != entry.key.deep_view() implies (#[trigger] holds(grown, key)
        == holds(queue, key)) && (holds(queue, key) ==> grown[slot(grown, key)] == queue[slot(
        queue,
        key,
    )]) by {
        if holds(queue, key) {
            let i0 = slot(queue, key);
            let i = if i0 < at { i0 } else { i0 + 1 };
            assert(grown[i] == queue[i0]);
            assert(grown[i].key.deep_view() == key);
            lemma_slot(grown, i);
        }
        if holds(grown, key) {
            let i = slot(grown, key);
            let i0 = if i < at { i } else { i - 1 };
            assert(grown[i] == queue[i0]);
            assert(queue[i0].key.deep_view() == key);
        }
    }
}

/// The entries that stay when the first `n` leave are ascending and without
/// two entries of one key, and hold under a key nothing but what the queue held.
pub proof fn lemma_tail_keeps_order<K: DeepView, V: HasSize + HasCost>(queue: Queue<K, V>, n: int)
    requires
        ascending(queue),
        distinct(queue),
        0 <= n <= queue.len(),
    ensures
        ascending(queue.subrange(n, queue.len() as int)),
        distinct(queue.subrange(n, queue.len() as int)),
        forall|key: K::V| #[trigger]
            holds(queue.subrange(n, queue.len() as int), key) ==> holds(queue, key)
                && queue.subrange(n, queue.len() as int)[slot(
                queue.subrange(n, queue.len() as int),
                key,
            )] == queue[slot(queue, key)],
{
    let tail = queue.subrange(n, queue.len() as int);
    assert forall|key: K::V| #[trigger] holds(tail, key) implies holds(queue, key) && tail[slot(
        tail,
        key,
    )] == queue[slot(queue, key)] by {
        let i = slot(tail, key);
        assert(tail[i] == queue[i + n]);
        assert(queue[i + n].key.deep_view() == key);
        lemma_slot(queue, i + n);
    }
}

/// The victims are a number of first entries that the queue has; none of
/// them is above the priority, and together they free the excess.
pub proof fn lemma_victims<K, V: HasSize + HasCost>(
    queue: Queue<K, V>,
    priority: usize,
    excess: int,
    from: int,
    freed: int,
)
    requires
        0 <= from <= queue.len(),
        freed == total_size(queue.subrange(0, from)),
        victims(queue, priority, excess, from, freed) is Some,
    ensures
        from < victims(queue, priority, excess, from, freed).unwrap() <= queue.len(),
        total_size(queue.subrange(0, victims(queue, priority, excess, from, freed).unwrap()))
            >= excess,
        forall|i: int|
            from <= i < victims(queue, priority, excess, from, freed).unwrap() ==> (
            #[trigger] queue[i]).priority_model() <= priority,
    decreases queue.len() - from,
{
    assert(queue.subrange(0, from + 1).drop_last() =~= queue.subrange(0, from));
    assert(queue.subrange(0, from + 1).last() == queue[from]);
    if freed + queue[from].value.size_model() < excess {
        lemma_victims(queue, priority, excess, from + 1, freed + queue[from].value.size_model());
    }
}

/// A greedy dual size frequency cache.
pub struct GDSFCache<K, V> {
    capacity: usize,
    used: usize,
    storage: Vec<StorageEntry<K, V>>,
    clock: usize,
}

impl<K: KeyEq, V: HasSize + HasCost> GDSFCache<K, V> {
    /// The state of the cache.
    pub closed spec fn model(&self) -> GdsfModel<K, V> {
        GdsfModel { capacity: self.capacity, clock: self.clock, queue: self.storage@ }
    }

    /// The sizes of the entries, added up.
    pub closed spec fn used(&self) -> usize {
        self.used
    }

    /// The cache is in order: its entries ascend in priority, no two have
    /// the same key, and their sizes add up to no more than the capacity.
    pub open spec fn inv(&self) -> bool {
        &&& ascending(self.model().queue)
        &&& distinct(self.model().queue)
        &&& self.used() == total_size(self.model().queue)
        &&& self.used() <= self.model().capacity
    }

    /// An empty cache that holds values up to the given size in all.
    pub fn new(capacity: usize) -> (cache: GDSFCache<K, V>)
        ensures
            cache.inv(),
            cache.model() == (GdsfModel::<K, V> { capacity, clock: 0, queue: Seq::empty() }),
    {
        GDSFCache { capacity, used: 0, storage: Vec::new(), clock: 0 }
    }

    fn find(&self, key: &K) -> (at: Option<usize>)
        requires
            self.inv(),
        ensures
            match at {
                Some(i) => i < self.model().queue.len() && holds(
                    self.model().queue,
                    key.deep_view(),
                ) && slot(self.model().queue, key.deep_view()) == i,
                None => !holds(self.model().queue, key.deep_view()),
            },
    {
        let mut i: usize = 0;
        while i < self.storage.len()
            invariant
                i <= self.storage.len(),
                self.inv(),
                forall|k: int|
                    0 <= k < i ==> (#[trigger] self.storage@[k]).key.deep_view()
                        != key.deep_view(),
            decreases self.storage.len() - i,
        {
            if self.storage[i].key.same_key(key) {
                proof {
                    lemma_slot(self.storage@, i as int);
                }
                return Some(i);
            }
            i += 1;
        }
        None
    }

    fn place(&mut self, entry: StorageEntry<K, V>) -> (at: usize)
        requires
            ascending(old(self).model().queue),
        ensures
            at == rank(old(self).model().queue, entry.priority_model(), 0),
            at <= old(self).model().queue.len(),
            final(self).model() == (GdsfModel {
                queue: placed(old(self).model().queue, entry),
                ..old(self).model()
            }),
            final(self).used() == old(self).used(),
    {
        let priority = entry.priority();
        let mut at: usize = 0;
        while at < self.storage.len() && self.storage[at].priority() <= priority
            invariant
                at <= self.storage.len(),
                self.storage@ == old(self).storage@,
                rank(self.storage@, priority, 0) == rank(self.storage@, priority, at as int),
            decreases self.storage.len() - at,
        {
            at += 1;
        }
        self.storage.insert(at, entry);
        at
    }

    /// Whether the cache holds a value under the key.
    pub fn contains_key(&self, key: &K) -> (held: bool)
        requires
            self.inv(),
        ensures
            held == holds(self.model().queue, key.deep_view()),
    {
        self.find(key).is_some()
    }

    /// Inserts a value under a key; see `insert_model`. A value that is
    /// refused is handed back.
    pub fn insert(&mut self, key: K, value: V) -> (stored: Result<&V, V>)
        requires
            old(self).inv(),
        ensures
            final(self).inv(),
            final(self).model() == insert_model(old(self).model(), key, value).0,
            stored is Ok == insert_model(old(self).model(), key, value).1,
            match stored {
                Ok(held) => *held == value,
                Err(refused) => refused == value,
            },
    {
        let ghost before = self.model();
        self.remove(&key);
        let ghost rest = self.storage@;
        let ghost clock = self.clock;
        assert(rest == without(before.queue, key.deep_view()));
        let size = value.size();
        let entry = StorageEntry::new(key, value, self.clock);
        let priority = entry.priority();
        let room = self.capacity - self.used;
        let ghost needed = total_size(rest) + size;
        let mut evicted: bool = false;
        let mut refused: bool = false;
        let ghost mut gone: int = 0;
        if size > room {
            let excess = size - room;
            assert(excess == needed - self.capacity);
            let mut n: usize = 0;
            let mut freed: usize = 0;
            let mut scanning = true;
            let mut found = false;
            assert(rest.subrange(0, 0) =~= Seq::<StorageEntry<K, V>>::empty());
            while scanning && n < self.storage.len()
                invariant
                    n <= self.storage.len(),
                    self.storage@ == rest,
                    self.used == total_size(rest),
                    freed == total_size(rest.subrange(0, n as int)),
                    scanning ==> !found && victims(rest, priority, excess as int, 0, 0) == victims(
                        rest,
                        priority,
                        excess as int,
                        n as int,
                        freed as int,
                    ),
                    !scanning && found ==> 0 < n && freed >= excess && victims(
                        rest,
                        priority,
                        excess as int,
                        0,
                        0,
                    ) == Some(n as int),
                    !scanning && !found ==> victims(rest, priority, excess as int, 0, 0).is_none(),
                decreases self.storage.len() - n + (if scanning { 1int } else { 0int }),
            {
                if self.storage[n].priority() > priority {
                    scanning = false;
                } else {
                    proof {
                        lemma_size_split(rest, n as int + 1);
                        assert(rest.subrange(0, n + 1).drop_last() =~= rest.subrange(0, n as int));
                        assert(rest.subrange(0, n + 1).last() == rest[n as int]);
                    }
                    freed = freed + self.storage[n].value.size();
                    n += 1;
                    if freed >= excess {
                        scanning = false;
                        found = true;
                    }
                }
            }
            if found {
                proof {
                    lemma_size_split(rest, n as int);
                    lemma_tail_keeps_order(rest, n as int);
                    gone = n as int;
                }
                self.clock = self.storage[n - 1].priority();
                let kept = self.storage.split_off(n);
                self.storage = kept;
                self.used = self.used - freed;
                evicted = true;
                assert(self.storage@ == rest.subrange(n as int, rest.len() as int));
                assert(size <= self.capacity - self.used);
            } else {
                assert(victims(rest, priority, excess as int, 0, 0).is_none());
                self.clock = priority;
                refused = true;
            }
        }
        if !refused {
            let ghost queue = self.storage@;
            proof {
                assert(queue == rest.subrange(gone, rest.len() as int));
                lemma_tail_keeps_order(rest, gone);
                assert forall|key: K::V| #[trigger] holds(queue, key) implies holds(rest, key) by {}
                lemma_rank(queue, entry.priority_model(), 0);
                lemma_size_insert(queue, rank(queue, entry.priority_model(), 0), entry);
                lemma_insert_keeps_keys(queue, rank(queue, entry.priority_model(), 0), entry);
                lemma_placed_ascending(queue, entry);
                if !evicted {
                    assert(queue =~= rest);
                }
            }
            let at = self.place(entry);
            self.used = self.used + size;
            assert(self.model() == insert_model(before, key, value).0);
            Ok(&self.storage[at].value)
        } else {
            assert(self.model() == insert_model(before, key, value).0);
            Err(entry.value)
        }
    }

    /// The value under a key, whose use is counted; see `used_model`.
    pub fn get_mut(&mut self, key: &K) -> (found: Option<&V>)
        requires
            old(self).inv(),
        ensures
            final(self).inv(),
            final(self).model() == used_model(old(self).model(), key.deep_view()),
            match found {
                Some(value) => holds(old(self).model().queue, key.deep_view()) && *value == old(
                    self,
                ).model().queue[slot(old(self).model().queue, key.deep_view())].value,
                None => !holds(old(self).model().queue, key.deep_view()),
            },
    {
        match self.find(key) {
            None => None,
            Some(i) => {
                let ghost queue = self.storage@;
                proof {
                    lemma_remove_keeps_order(queue, i as int);
                    lemma_size_remove(queue, i as int);
                }
                let mut entry = self.storage.remove(i);
                entry.update(self.clock);
                let ghost rest = self.storage@;
                proof {
                    lemma_rank(rest, entry.priority_model(), 0);
                    lemma_size_insert(rest, rank(rest, entry.priority_model(), 0), entry);
                    lemma_insert_keeps_keys(rest, rank(rest, entry.priority_model(), 0), entry);
                    lemma_placed_ascending(rest, entry);
                }
                let at = self.place(entry);
                Some(&self.storage[at].value)
            },
        }
    }

    /// Removes the value under a key and hands it out.
    pub fn remove(&mut self, key: &K) -> (removed: Option<V>)
        requires
            old(self).inv(),
        ensures
            final(self).inv(),
            final(self).model() == (GdsfModel {
                queue: without(old(self).model().queue, key.deep_view()),
                ..old(self).model()
            }),
            match removed {
                Some(value) => holds(old(self).model().queue, key.deep_view()) && value == old(
                    self,
                ).model().queue[slot(old(self).model().queue, key.deep_view())].value,
                None => !holds(old(self).model().queue, key.deep_view()),
            },
            !holds(final(self).model().queue, key.deep_view()),
    {
        match self.find(key) {
            None => None,
            Some(i) => {
                proof {
                    lemma_remove_keeps_order(self.storage@, i as int);
                    lemma_size_remove(self.storage@, i as int);
                    lemma_size_nonnegative(self.storage@.remove(i as int));
                }
                let entry = self.storage.remove(i);
                self.used = self.used - entry.value.size();
                Some(entry.value)
            },
        }
    }
}

/// What a queue holds: the value of each entry under its key.
pub open spec fn entries_of<K: DeepView, V: DeepView>(queue: Queue<K, V>) -> Map<K::V, V::V> {
    Map::new(|key: K::V| holds(queue, key), |key: K::V| queue[slot(queue, key)].value.deep_view())
}

/// A queue without entries holds nothing.
pub proof fn lemma_empty_entries<K: DeepView, V: DeepView>()
    ensures
        entries_of(Seq::<StorageEntry<K, V>>::empty()) == Map::<K::V, V::V>::empty(),
{
    assert(entries_of(Seq::<StorageEntry<K, V>>::empty()) =~= Map::<K::V, V::V>::empty());
}

/// Without the entry of a key, a queue holds what it held under the other keys.
pub proof fn lemma_without_entries<K: DeepView, V: HasSize + HasCost + DeepView>(
    queue: Queue<K, V>,
    key: K::V,
)
    requires
        ascending(queue),
        distinct(queue),
    ensures
        ascending(without(queue, key)),
        distinct(without(queue, key)),
        entries_of(without(queue, key)) == entries_of(queue).remove(key),
{
    if holds(queue, key) {
        let at = slot(queue, key);
        lemma_remove_keeps_order(queue, at);
        let rest = queue.remove(at);
        assert forall|other: K::V| #[trigger]
            entries_of(rest).contains_key(other) == entries_of(queue).remove(key).contains_key(
                other,
            ) by {
            if other != key {
                assert(holds(rest, other) == holds(queue, other));
            }
        }
        assert forall|other: K::V| #[trigger] entries_of(rest).contains_key(other) implies entries_of(
            rest,
        )[other] == entries_of(queue).remove(key)[other] by {
            assert(holds(rest, other) == holds(queue, other));
        }
        assert(entries_of(rest) =~= entries_of(queue).remove(key));
    } else {
        assert(entries_of(queue) =~= entries_of(queue).remove(key));
    }
}

/// A use changes nothing of what the cache holds.
pub proof fn lemma_used_entries<K: DeepView, V: HasSize + HasCost + DeepView>(
    state: GdsfModel<K, V>,
    key: K::V,
)
    requires
        ascending(state.queue),
        distinct(state.queue),
    ensures
        entries_of(used_model(state, key).queue) == entries_of(state.queue),
{
    if holds(state.queue, key) {
        let at = slot(state.queue, key);
        let entry = state.queue[at];
        let rest = without(state.queue, key);
        lemma_remove_keeps_order(state.queue, at);
        let after = used_model(state, key).queue;
        let counted = after[rank(rest, priority_after(state, key), 0)];
        lemma_rank(rest, priority_after(state, key), 0);
        let place = rank(rest, priority_after(state, key), 0);
        assert(after == rest.insert(place, counted));
        assert(counted.key == entry.key);
        lemma_insert_keeps_keys(rest, place, counted);
        assert forall|other: K::V| #[trigger]
            entries_of(after).contains_key(other) == entries_of(state.queue).contains_key(
                other,
            ) by {
            if other != key {
                assert(holds(after, other) == holds(rest, other));
                assert(holds(rest, other) == holds(state.queue, other));
            }
        }
        assert forall|other: K::V| #[trigger] entries_of(after).contains_key(other) implies entries_of(
            after,
        )[other] == entries_of(state.queue)[other] by {
            if other != key {
                assert(holds(after, other) == holds(rest, other));
                assert(holds(rest, other) == holds(state.queue, other));
            }
        }
        assert(entries_of(after) =~= entries_of(state.queue));
    }
}

/// The priority of the entry with the key once one more use is counted.
pub open spec fn priority_after<K: DeepView, V: HasSize + HasCost>(
    state: GdsfModel<K, V>,
    key: K::V,
) -> usize {
    let entry = state.queue[slot(state.queue, key)];
    priority_of(
        state.clock,
        if entry.frequency == usize::MAX {
            usize::MAX
        } else {
            (entry.frequency + 1) as usize
        },
        entry.value.cost_model(),
        entry.value.size_model(),
    )
}

/// After an insertion the cache holds the value under the key, if it has
/// taken it, and nothing new under any other key.
pub proof fn lemma_insert_entries<K: DeepView, V: HasSize + HasCost + DeepView>(
    state: GdsfModel<K, V>,
    key: K,
    value: V,
)
    requires
        ascending(state.queue),
        distinct(state.queue),
    ensures
        stored_as(
            entries_of(state.queue),
            entries_of(insert_model(state, key, value).0.queue),
            key.deep_view(),
            value.deep_view(),
        ),
        insert_model(state, key, value).1 == entries_of(
            insert_model(state, key, value).0.queue,
        ).contains_key(key.deep_view()),
{
    let rest = without(state.queue, key.deep_view());
    lemma_without_entries(state.queue, key.deep_view());
    let entry = StorageEntry { key, value, frequency: 1, clock: state.clock };
    let priority = entry.priority_model();
    let needed = total_size(rest) + value.size_model();
    let after = insert_model(state, key, value).0.queue;
    let before = entries_of(state.queue);
    assert(!entries_of(rest).contains_key(key.deep_view()));
    assert(!holds(rest, key.deep_view()));
    if needed <= state.capacity {
        lemma_rank(rest, priority, 0);
        lemma_insert_keeps_keys(rest, rank(rest, priority, 0), entry);
        assert forall|other: K::V|
            other != key.deep_view() && #[trigger] entries_of(after).contains_key(
                other,
            ) implies before.contains_key(other) && entries_of(after)[other] == before[other] by {
            assert(holds(after, other) == holds(rest, other));
            assert(entries_of(rest).contains_key(other));
        }
    } else {
        match victims(rest, priority, needed - state.capacity, 0, 0) {
            Some(n) => {
                assert(rest.subrange(0, 0) =~= Seq::<StorageEntry<K, V>>::empty());
                lemma_victims(rest, priority, needed - state.capacity, 0, 0);
                let tail = rest.subrange(n, rest.len() as int);
                lemma_tail_keeps_order(rest, n);
                assert(!holds(tail, key.deep_view()));
                lemma_rank(tail, priority, 0);
                lemma_insert_keeps_keys(tail, rank(tail, priority, 0), entry);
                assert forall|other: K::V|
                    other != key.deep_view() && #[trigger] entries_of(after).contains_key(
                        other,
                    ) implies before.contains_key(other) && entries_of(after)[other]
                    == before[other] by {
                    assert(holds(after, other) == holds(tail, other));
                    assert(holds(rest, other));
                    assert(entries_of(rest).contains_key(other));
                }
            },
            None => {
                assert forall|other: K::V|
                    other != key.deep_view() && #[trigger] entries_of(after).contains_key(
                        other,
                    ) implies before.contains_key(other) && entries_of(after)[other]
                    == before[other] by {
                    assert(entries_of(rest).contains_key(other));
                }
            },
        }
    }
}

impl<K: KeyEq, V: HasSize + HasCost + DeepView> Cache for GDSFCache<K, V> {
    type K = K;

    type V = V;

    open spec fn entries(&self) -> Entries<Self> {
        entries_of(self.model().queue)
    }

    open spec fn wf(&self) -> bool {
        self.inv()
    }

    open spec fn takes(&self, k: K, v: V) -> bool {
        insert_model(self.model(), k, v).1
    }

    open spec fn stored(&self, k: K, v: V, after: Self) -> bool {
        after.model() == insert_model(self.model(), k, v).0
    }

    open spec fn used(&self, k: K::V, after: Self) -> bool {
        after.model() == used_model(self.model(), k)
    }

    open spec fn looked(&self, k: K::V, after: Self) -> bool {
        after.model() == self.model()
    }

    open spec fn removed(&self, k: K::V, after: Self) -> bool {
        after.model() == (GdsfModel { queue: without(self.model().queue, k), ..self.model() })
    }

    /// See `insert`.
    fn store(&mut self, k: K, v: V) -> (stored: Result<&V, V>) {
        proof {
            lemma_insert_entries(self.model(), k, v);
            lemma_without_entries(self.model().queue, k.deep_view());
        }
        self.insert(k, v)
    }

    /// See `get_mut`.
    fn fetch(&mut self, k: &K) -> (found: Option<&V>) {
        proof {
            lemma_used_entries(self.model(), k.deep_view());
        }
        self.get_mut(k)
    }

    /// A look changes nothing of the cache.
    fn contains(&mut self, k: &K) -> (held: bool) {
        self.contains_key(k)
    }

    /// See `remove`.
    fn remove(&mut self, k: &K) -> (removed: Option<V>) {
        proof {
            lemma_without_entries(self.model().queue, k.deep_view());
        }
        GDSFCache::remove(self, k)
    }
}

} // verus!

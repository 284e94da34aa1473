//! Entries in a sequence, each with its key: the model of the caches that
//! keep their entries in an order.

use vstd::prelude::*;

verus! {

/// The place of the entry with the key among the first `n`; `None` where
/// there is none.
pub open spec fn place<K, V>(entries: Order<K, V>, key: K, n: int) -> Option<
    int,
>
    decreases n,
{
    if n <= 0 {
        None
    } else if entries[n - 1].0 == key {
        Some(n - 1)
    } else {
        place(entries, key, n - 1)
    }
}

/// The entries but the one with the key.
pub open spec fn dropped<K, V>(entries: Order<K, V>, key: K) -> Order<K, V> {
    match place(entries, key, entries.len() as int) {
        Some(at) => entries.remove(at),
        None => entries,
    }
}

/// The entries with the entry of the key moved to the end, as the one that
/// was used most recently.
pub open spec fn refreshed<K, V>(entries: Order<K, V>, key: K) -> Order<K, V> {
    match place(entries, key, entries.len() as int) {
        Some(at) => entries.remove(at).push(entries[at]),
        None => entries,
    }
}

/// The entries after an insertion: the value is under the key, as the
/// entry that was used most recently, and the entry that was used least
/// recently has left if there was one too many.
pub open spec fn inserted<K, V>(
    entries: Order<K, V>,
    limit: usize,
    key: K,
    value: V,
) -> Order<K, V> {
    let grown = dropped(entries, key).push((key, value));
    if grown.len() > limit {
        grown.drop_first()
    } else {
        grown
    }
}

/// The entries, as a sequence ordered by use.
pub type Order<K, V> = Seq<(K, V)>;

/// No two entries have the same key.
pub open spec fn distinct_keys<K, V>(entries: Order<K, V>) -> bool {
    forall|i: int, j: int|
        0 <= i < entries.len() && 0 <= j < entries.len() && i != j ==> entries[i].0 != entries[j].0
}

/// What the entries hold: each value under its key.
pub open spec fn held<K, V>(entries: Order<K, V>) -> Map<K, V> {
    Map::new(
        |key: K| place(entries, key, entries.len() as int).is_some(),
        |key: K| entries[place(entries, key, entries.len() as int).unwrap()].1,
    )
}

/// The place of a key is the place of an entry with the key, where there
/// is one among the first `n`.
pub proof fn lemma_place<K, V>(entries: Order<K, V>, key: K, n: int)
    requires
        0 <= n <= entries.len(),
    ensures
        match place(entries, key, n) {
            Some(at) => 0 <= at < n && entries[at].0 == key,
            None => forall|i: int| 0 <= i < n ==> (#[trigger] entries[i]).0 != key,
        },
    decreases n,
{
    if n > 0 && entries[n - 1].0 != key {
        lemma_place(entries, key, n - 1);
    }
}

/// Among entries with different keys, the entry with a key is at its place.
pub proof fn lemma_place_at<K, V>(entries: Order<K, V>, at: int)
    requires
        distinct_keys(entries),
        0 <= at < entries.len(),
    ensures
        place(entries, entries[at].0, entries.len() as int) == Some(at),
{
    lemma_place(entries, entries[at].0, entries.len() as int);
}

/// Without the entry of a key, the entries hold what they held under the
/// other keys, and nothing under the key.
pub proof fn lemma_dropped<K, V>(entries: Order<K, V>, key: K)
    requires
        distinct_keys(entries),
    ensures
        distinct_keys(dropped(entries, key)),
        dropped(entries, key).len() <= entries.len(),
        held(dropped(entries, key)) == held(entries).remove(key),
{
    lemma_place(entries, key, entries.len() as int);
    let rest = dropped(entries, key);
    match place(entries, key, entries.len() as int) {
        Some(at) => {
            assert forall|i: int, j: int|
                0 <= i < rest.len() && 0 <= j < rest.len() && i != j implies rest[i].0
                != rest[j].0 by {
                let i0 = if i < at { i } else { i + 1 };
                let j0 = if j < at { j } else { j + 1 };
                assert(rest[i] == entries[i0]);
                assert(rest[j] == entries[j0]);
            }
            assert forall|other: K| #[trigger]
                held(rest).contains_key(other) == held(entries).remove(key).contains_key(
                    other,
                ) && (held(rest).contains_key(other) ==> held(rest)[other] == held(
                    entries,
                ).remove(key)[other]) by {
                lemma_place(rest, other, rest.len() as int);
                lemma_place(entries, other, entries.len() as int);
                match place(rest, other, rest.len() as int) {
                    Some(i) => {
                        let i0 = if i < at { i } else { i + 1 };
                        assert(rest[i] == entries[i0]);
                        lemma_place_at(entries, i0);
                    },
                    None => {
                        match place(entries, other, entries.len() as int) {
                            Some(i0) => {
                                if i0 != at {
                                    let i = if i0 < at { i0 } else { i0 - 1 };
                                    assert(rest[i] == entries[i0]);
                                }
                            },
                            None => {},
                        }
                    },
                }
            }
            assert(held(rest) =~= held(entries).remove(key));
        },
        None => {
            assert(held(entries) =~= held(entries).remove(key));
        },
    }
}

/// With one more entry, under a key that the entries do not have, the
/// entries hold the value under the key and what they held.
pub proof fn lemma_pushed<K, V>(entries: Order<K, V>, key: K, value: V)
    requires
        distinct_keys(entries),
        !held(entries).contains_key(key),
    ensures
        distinct_keys(entries.push((key, value))),
        held(entries.push((key, value))) == held(entries).insert(key, value),
{
    lemma_place(entries, key, entries.len() as int);
    let grown = entries.push((key, value));
    assert forall|i: int, j: int|
        0 <= i < grown.len() && 0 <= j < grown.len() && i != j implies grown[i].0
        != grown[j].0 by {
        if i < entries.len() {
            assert(grown[i] == entries[i]);
        }
        if j < entries.len() {
            assert(grown[j] == entries[j]);
        }
    }
    assert forall|other: K| #[trigger]
        held(grown).contains_key(other) == held(entries).insert(key, value).contains_key(other)
            && (held(grown).contains_key(other) ==> held(grown)[other] == held(entries).insert(
            key,
            value,
        )[other]) by {
        lemma_place(grown, other, grown.len() as int);
        lemma_place(entries, other, entries.len() as int);
        if other == key {
            lemma_place_at(grown, grown.len() - 1);
        } else {
            match place(entries, other, entries.len() as int) {
                Some(i) => {
                    assert(grown[i] == entries[i]);
                    lemma_place_at(grown, i);
                },
                None => {
                    match place(grown, other, grown.len() as int) {
                        Some(i) => {
                            assert(grown[i] == entries[i]);
                        },
                        None => {},
                    }
                },
            }
        }
    }
    assert(held(grown) =~= held(entries).insert(key, value));
}

/// Without their first entry, the entries hold what they held but under its key.
pub proof fn lemma_drop_first<K, V>(entries: Order<K, V>)
    requires
        distinct_keys(entries),
        entries.len() > 0,
    ensures
        distinct_keys(entries.drop_first()),
        held(entries.drop_first()) == held(entries).remove(entries[0].0),
{
    lemma_place_at(entries, 0);
    lemma_dropped(entries, entries[0].0);
    assert(entries.drop_first() =~= entries.remove(0));
}

/// A use changes nothing of what the entries hold.
pub proof fn lemma_refreshed<K, V>(entries: Order<K, V>, key: K)
    requires
        distinct_keys(entries),
    ensures
        distinct_keys(refreshed(entries, key)),
        refreshed(entries, key).len() == entries.len(),
        held(refreshed(entries, key)) == held(entries),
{
    lemma_place(entries, key, entries.len() as int);
    match place(entries, key, entries.len() as int) {
        Some(at) => {
            lemma_dropped(entries, key);
            assert(!held(dropped(entries, key)).contains_key(key));
            lemma_pushed(dropped(entries, key), key, entries[at].1);
            assert(entries[at] == (key, entries[at].1));
            assert(held(refreshed(entries, key)) =~= held(entries));
        },
        None => {},
    }
}

/// The use of the entry that was used most recently changes nothing.
pub proof fn lemma_refreshed_last<K, V>(entries: Order<K, V>, key: K)
    requires
        distinct_keys(entries),
        entries.len() > 0,
        entries.last().0 == key,
    ensures
        refreshed(entries, key) == entries,
{
    lemma_place_at(entries, entries.len() - 1);
    assert(entries.remove(entries.len() - 1).push(entries.last()) =~= entries);
}

} // verus!

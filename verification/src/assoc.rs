//! Association lists with distinct keys.
//!
//! The ledger's persisted key space is a key-value map read with a default for
//! absent keys. This module gives that map an executable shape — a vector of
//! key-value pairs, scanned front to back — together with the specification
//! functions that the ledger contracts are written over.

use vstd::prelude::*;

verus! {

// ----------------------------------------------------------------------------
// Keys of type u64.
// ----------------------------------------------------------------------------

/// Index of the first entry keyed by `key`, or `entries.len()` if there is none.
pub open spec fn assoc_index<V>(entries: Seq<(u64, V)>, key: u64) -> int
    decreases entries.len(),
{
    if entries.len() == 0 {
        0
    } else if entries[0].0 == key {
        0
    } else {
        1 + assoc_index(entries.drop_first(), key)
    }
}

pub open spec fn assoc_has<V>(entries: Seq<(u64, V)>, key: u64) -> bool {
    assoc_index(entries, key) < entries.len()
}

/// The value stored under `key`, if any.
pub open spec fn assoc_read<V>(entries: Seq<(u64, V)>, key: u64) -> Option<V> {
    if assoc_has(entries, key) {
        Some(entries[assoc_index(entries, key)].1)
    } else {
        None
    }
}

/// `entries` with the value under `key` set to `value`: updated in place when
/// the key is present, appended otherwise.
pub open spec fn assoc_write<V>(entries: Seq<(u64, V)>, key: u64, value: V) -> Seq<(u64, V)> {
    if assoc_has(entries, key) {
        entries.update(assoc_index(entries, key), (key, value))
    } else {
        entries.push((key, value))
    }
}

/// No two entries share a key.
pub open spec fn assoc_distinct<V>(entries: Seq<(u64, V)>) -> bool {
    forall|i: int, j: int| 0 <= i < j < entries.len() ==> entries[i].0 != entries[j].0
}

pub proof fn lemma_assoc_index<V>(entries: Seq<(u64, V)>, key: u64)
    ensures
        0 <= assoc_index(entries, key) <= entries.len(),
        assoc_has(entries, key) ==> entries[assoc_index(entries, key)].0 == key,
        forall|j: int| 0 <= j < assoc_index(entries, key) ==> entries[j].0 != key,
    decreases entries.len(),
{
    if entries.len() == 0 {
    } else if entries[0].0 == key {
    } else {
        lemma_assoc_index(entries.drop_first(), key);
        assert forall|j: int| 0 <= j < assoc_index(entries, key) implies entries[j].0 != key by {
            if j > 0 {
                assert(entries[j] == entries.drop_first()[j - 1]);
            }
        }
        if assoc_has(entries, key) {
            assert(entries[assoc_index(entries, key)]
                == entries.drop_first()[assoc_index(entries.drop_first(), key)]);
        }
    }
}

/// The first match in a front-to-back scan is the entry that `assoc_index` names.
pub proof fn lemma_assoc_first_match<V>(entries: Seq<(u64, V)>, key: u64, i: int)
    requires
        0 <= i < entries.len(),
        entries[i].0 == key,
        forall|j: int| 0 <= j < i ==> entries[j].0 != key,
    ensures
        assoc_index(entries, key) == i,
{
    lemma_assoc_index(entries, key);
}

/// Two lists with pointwise equal keys agree on every index.
pub proof fn lemma_assoc_index_same_keys<V>(a: Seq<(u64, V)>, b: Seq<(u64, V)>, key: u64)
    requires
        a.len() == b.len(),
        forall|i: int| 0 <= i < a.len() ==> a[i].0 == b[i].0,
    ensures
        assoc_index(a, key) == assoc_index(b, key),
    decreases a.len(),
{
    if a.len() == 0 {
    } else if a[0].0 == key {
    } else {
        assert forall|i: int| 0 <= i < a.drop_first().len() implies
            a.drop_first()[i].0 == b.drop_first()[i].0 by {
            assert(a.drop_first()[i] == a[i + 1]);
            assert(b.drop_first()[i] == b[i + 1]);
        }
        lemma_assoc_index_same_keys(a.drop_first(), b.drop_first(), key);
    }
}

/// How appending one entry moves the index of each key.
pub proof fn lemma_assoc_index_push<V>(entries: Seq<(u64, V)>, key: u64, value: V, k: u64)
    ensures
        assoc_has(entries, k) ==> assoc_index(entries.push((key, value)), k)
            == assoc_index(entries, k),
        !assoc_has(entries, k) && k != key ==> !assoc_has(entries.push((key, value)), k),
        !assoc_has(entries, k) && k == key ==> assoc_index(entries.push((key, value)), k)
            == entries.len(),
    decreases entries.len(),
{
    let p = entries.push((key, value));
    if entries.len() == 0 {
        assert(p.len() == 1);
        assert(p[0].0 == key);
        if k != key {
            assert(assoc_index(p, k) == 1 + assoc_index(p.drop_first(), k));
            assert(p.drop_first().len() == 0);
        }
    } else if entries[0].0 == k {
        assert(p[0].0 == k);
    } else {
        assert(p[0] == entries[0]);
        assert(p.drop_first() =~= entries.drop_first().push((key, value)));
        lemma_assoc_index_push(entries.drop_first(), key, value, k);
        lemma_assoc_index(entries.drop_first().push((key, value)), k);
    }
}

/// What a write does to every later read, and that it keeps the keys distinct.
pub proof fn lemma_assoc_write<V>(entries: Seq<(u64, V)>, key: u64, value: V)
    requires
        assoc_distinct(entries),
    ensures
        assoc_distinct(assoc_write(entries, key, value)),
        assoc_has(assoc_write(entries, key, value), key),
        assoc_read(assoc_write(entries, key, value), key) == Some(value),
        forall|k: u64| k != key ==> assoc_read(assoc_write(entries, key, value), k)
            == assoc_read(entries, k),
        assoc_write(entries, key, value).len()
            == (if assoc_has(entries, key) { entries.len() } else { entries.len() + 1 }),
{
    let w = assoc_write(entries, key, value);
    lemma_assoc_index(entries, key);
    if assoc_has(entries, key) {
        let i = assoc_index(entries, key);
        assert(entries[i].0 == key);
        assert forall|a: int, b: int| 0 <= a < b < w.len() implies w[a].0 != w[b].0 by {
            assert(w[a].0 == entries[a].0);
            assert(w[b].0 == entries[b].0);
        }
        assert forall|k: u64| true implies assoc_index(w, k) == assoc_index(entries, k) by {
            lemma_assoc_index_same_keys(w, entries, k);
        }
        lemma_assoc_index(w, key);
        assert forall|k: u64| k != key implies assoc_read(w, k) == assoc_read(entries, k) by {
            lemma_assoc_index(entries, k);
            if assoc_has(entries, k) {
                let j = assoc_index(entries, k);
                assert(entries[j].0 == k);
                assert(j != i);
                assert(w[j] == entries[j]);
            }
        }
    } else {
        assert(forall|j: int| 0 <= j < entries.len() ==> entries[j].0 != key);
        assert forall|a: int, b: int| 0 <= a < b < w.len() implies w[a].0 != w[b].0 by {
            assert(w[a].0 == entries[a].0);
            if b < entries.len() {
                assert(w[b].0 == entries[b].0);
            } else {
                assert(w[b].0 == key);
            }
        }
        lemma_assoc_index_push(entries, key, value, key);
        assert(assoc_index(w, key) == entries.len());
        assert(w[entries.len() as int].1 == value);
        assert forall|k: u64| k != key implies assoc_read(w, k) == assoc_read(entries, k) by {
            lemma_assoc_index_push(entries, key, value, k);
            lemma_assoc_index(entries, k);
            if assoc_has(entries, k) {
                assert(w[assoc_index(entries, k)] == entries[assoc_index(entries, k)]);
            }
        }
    }
}

/// Look the value under `key` up, scanning front to back.
pub fn assoc_get<V: Copy>(entries: &Vec<(u64, V)>, key: u64) -> (r: Option<V>)
    ensures
        r == assoc_read(entries@, key),
{
    let n: usize = entries.len();
    let mut i: usize = 0;
    while i < n
        invariant
            n == entries@.len(),
            0 <= i <= n,
            forall|j: int| 0 <= j < i ==> entries@[j].0 != key,
        decreases n - i,
    {
        if entries[i].0 == key {
            proof {
                lemma_assoc_first_match(entries@, key, i as int);
            }
            return Some(entries[i].1);
        }
        i = i + 1;
    }
    proof {
        lemma_assoc_index(entries@, key);
    }
    None
}

/// Writing back the value already stored changes nothing.
pub proof fn lemma_assoc_write_unchanged<V>(entries: Seq<(u64, V)>, key: u64, value: V)
    requires
        assoc_read(entries, key) == Some(value),
    ensures
        assoc_write(entries, key, value) == entries,
{
    lemma_assoc_index(entries, key);
    assert(entries[assoc_index(entries, key)] == (key, value));
    assert(assoc_write(entries, key, value) =~= entries);
}

/// Set the value under `key`, materializing the entry on first write.
pub fn assoc_set<V: Copy>(entries: &mut Vec<(u64, V)>, key: u64, value: V)
    ensures
        final(entries)@ == assoc_write(old(entries)@, key, value),
{
    let n: usize = entries.len();
    let mut i: usize = 0;
    while i < n
        invariant
            entries@ == old(entries)@,
            n == entries@.len(),
            0 <= i <= n,
            forall|j: int| 0 <= j < i ==> entries@[j].0 != key,
        decreases n - i,
    {
        if entries[i].0 == key {
            proof {
                lemma_assoc_first_match(entries@, key, i as int);
            }
            entries[i] = (key, value);
            return;
        }
        i = i + 1;
    }
    proof {
        lemma_assoc_index(entries@, key);
    }
    entries.push((key, value));
}

// ----------------------------------------------------------------------------
// Keys of type (u64, u64), for maps keyed by a pair of accounts.
// ----------------------------------------------------------------------------

/// Index of the first entry keyed by `key`, or `entries.len()` if there is none.
pub open spec fn pair_index<V>(entries: Seq<((u64, u64), V)>, key: (u64, u64)) -> int
    decreases entries.len(),
{
    if entries.len() == 0 {
        0
    } else if entries[0].0 == key {
        0
    } else {
        1 + pair_index(entries.drop_first(), key)
    }
}

pub open spec fn pair_has<V>(entries: Seq<((u64, u64), V)>, key: (u64, u64)) -> bool {
    pair_index(entries, key) < entries.len()
}

/// The value stored under `key`, if any.
pub open spec fn pair_read<V>(entries: Seq<((u64, u64), V)>, key: (u64, u64)) -> Option<V> {
    if pair_has(entries, key) {
        Some(entries[pair_index(entries, key)].1)
    } else {
        None
    }
}

/// `entries` with the value under `key` set to `value`.
pub open spec fn pair_write<V>(entries: Seq<((u64, u64), V)>, key: (u64, u64), value: V) -> Seq<
    ((u64, u64), V),
> {
    if pair_has(entries, key) {
        entries.update(pair_index(entries, key), (key, value))
    } else {
        entries.push((key, value))
    }
}

/// No two entries share a key.
pub open spec fn pair_distinct<V>(entries: Seq<((u64, u64), V)>) -> bool {
    forall|i: int, j: int| 0 <= i < j < entries.len() ==> entries[i].0 != entries[j].0
}

pub proof fn lemma_pair_index<V>(entries: Seq<((u64, u64), V)>, key: (u64, u64))
    ensures
        0 <= pair_index(entries, key) <= entries.len(),
        pair_has(entries, key) ==> entries[pair_index(entries, key)].0 == key,
        forall|j: int| 0 <= j < pair_index(entries, key) ==> entries[j].0 != key,
    decreases entries.len(),
{
    if entries.len() == 0 {
    } else if entries[0].0 == key {
    } else {
        lemma_pair_index(entries.drop_first(), key);
        assert forall|j: int| 0 <= j < pair_index(entries, key) implies entries[j].0 != key by {
            if j > 0 {
                assert(entries[j] == entries.drop_first()[j - 1]);
            }
        }
        if pair_has(entries, key) {
            assert(entries[pair_index(entries, key)]
                == entries.drop_first()[pair_index(entries.drop_first(), key)]);
        }
    }
}

/// The first match in a front-to-back scan is the entry that `pair_index` names.
pub proof fn lemma_pair_first_match<V>(entries: Seq<((u64, u64), V)>, key: (u64, u64), i: int)
    requires
        0 <= i < entries.len(),
        entries[i].0 == key,
        forall|j: int| 0 <= j < i ==> entries[j].0 != key,
    ensures
        pair_index(entries, key) == i,
{
    lemma_pair_index(entries, key);
}

/// Two lists with pointwise equal keys agree on every index.
pub proof fn lemma_pair_index_same_keys<V>(
    a: Seq<((u64, u64), V)>,
    b: Seq<((u64, u64), V)>,
    key: (u64, u64),
)
    requires
        a.len() == b.len(),
        forall|i: int| 0 <= i < a.len() ==> a[i].0 == b[i].0,
    ensures
        pair_index(a, key) == pair_index(b, key),
    decreases a.len(),
{
    if a.len() == 0 {
    } else if a[0].0 == key {
    } else {
        assert forall|i: int| 0 <= i < a.drop_first().len() implies a.drop_first()[i].0 == b
            .drop_first()[i].0 by {
            assert(a.drop_first()[i] == a[i + 1]);
            assert(b.drop_first()[i] == b[i + 1]);
        }
        lemma_pair_index_same_keys(a.drop_first(), b.drop_first(), key);
    }
}

/// How appending one entry moves the index of each key.
pub proof fn lemma_pair_index_push<V>(
    entries: Seq<((u64, u64), V)>,
    key: (u64, u64),
    value: V,
    k: (u64, u64),
)
    ensures
        pair_has(entries, k) ==> pair_index(entries.push((key, value)), k) == pair_index(
            entries,
            k,
        ),
        !pair_has(entries, k) && k != key ==> !pair_has(entries.push((key, value)), k),
        !pair_has(entries, k) && k == key ==> pair_index(entries.push((key, value)), k)
            == entries.len(),
    decreases entries.len(),
{
    let p = entries.push((key, value));
    if entries.len() == 0 {
        assert(p.len() == 1);
        assert(p[0].0 == key);
        if k != key {
            assert(pair_index(p, k) == 1 + pair_index(p.drop_first(), k));
            assert(p.drop_first().len() == 0);
        }
    } else if entries[0].0 == k {
        assert(p[0].0 == k);
    } else {
        assert(p[0] == entries[0]);
        assert(p.drop_first() =~= entries.drop_first().push((key, value)));
        lemma_pair_index_push(entries.drop_first(), key, value, k);
        lemma_pair_index(entries.drop_first().push((key, value)), k);
    }
}

/// What a write does to every later read, and that it keeps the keys distinct.
pub proof fn lemma_pair_write<V>(entries: Seq<((u64, u64), V)>, key: (u64, u64), value: V)
    requires
        pair_distinct(entries),
    ensures
        pair_distinct(pair_write(entries, key, value)),
        pair_has(pair_write(entries, key, value), key),
        pair_read(pair_write(entries, key, value), key) == Some(value),
        forall|k: (u64, u64)| k != key ==> pair_read(pair_write(entries, key, value), k)
            == pair_read(entries, k),
{
    let w = pair_write(entries, key, value);
    lemma_pair_index(entries, key);
    if pair_has(entries, key) {
        let i = pair_index(entries, key);
        assert(entries[i].0 == key);
        assert forall|a: int, b: int| 0 <= a < b < w.len() implies w[a].0 != w[b].0 by {
            assert(w[a].0 == entries[a].0);
            assert(w[b].0 == entries[b].0);
        }
        assert forall|k: (u64, u64)| true implies pair_index(w, k) == pair_index(entries, k) by {
            lemma_pair_index_same_keys(w, entries, k);
        }
        lemma_pair_index(w, key);
        assert forall|k: (u64, u64)| k != key implies pair_read(w, k) == pair_read(entries, k) by {
            lemma_pair_index(entries, k);
            if pair_has(entries, k) {
                let j = pair_index(entries, k);
                assert(entries[j].0 == k);
                assert(j != i);
                assert(w[j] == entries[j]);
            }
        }
    } else {
        assert(forall|j: int| 0 <= j < entries.len() ==> entries[j].0 != key);
        assert forall|a: int, b: int| 0 <= a < b < w.len() implies w[a].0 != w[b].0 by {
            assert(w[a].0 == entries[a].0);
            if b < entries.len() {
                assert(w[b].0 == entries[b].0);
            } else {
                assert(w[b].0 == key);
            }
        }
        lemma_pair_index_push(entries, key, value, key);
        assert(pair_index(w, key) == entries.len());
        assert(w[entries.len() as int].1 == value);
        assert forall|k: (u64, u64)| k != key implies pair_read(w, k) == pair_read(entries, k) by {
            lemma_pair_index_push(entries, key, value, k);
            lemma_pair_index(entries, k);
            if pair_has(entries, k) {
                assert(w[pair_index(entries, k)] == entries[pair_index(entries, k)]);
            }
        }
    }
}

/// Look the value under `key` up, scanning front to back.
pub fn pair_get<V: Copy>(entries: &Vec<((u64, u64), V)>, key: (u64, u64)) -> (r: Option<V>)
    ensures
        r == pair_read(entries@, key),
{
    let n: usize = entries.len();
    let mut i: usize = 0;
    while i < n
        invariant
            n == entries@.len(),
            0 <= i <= n,
            forall|j: int| 0 <= j < i ==> entries@[j].0 != key,
        decreases n - i,
    {
        let k: (u64, u64) = entries[i].0;
        if k.0 == key.0 && k.1 == key.1 {
            proof {
                lemma_pair_first_match(entries@, key, i as int);
            }
            return Some(entries[i].1);
        }
        i = i + 1;
    }
    proof {
        lemma_pair_index(entries@, key);
    }
    None
}

/// Set the value under `key`, materializing the entry on first write.
pub fn pair_set<V: Copy>(entries: &mut Vec<((u64, u64), V)>, key: (u64, u64), value: V)
    ensures
        final(entries)@ == pair_write(old(entries)@, key, value),
{
    let n: usize = entries.len();
    let mut i: usize = 0;
    while i < n
        invariant
            entries@ == old(entries)@,
            n == entries@.len(),
            0 <= i <= n,
            forall|j: int| 0 <= j < i ==> entries@[j].0 != key,
        decreases n - i,
    {
        let k: (u64, u64) = entries[i].0;
        if k.0 == key.0 && k.1 == key.1 {
            proof {
                lemma_pair_first_match(entries@, key, i as int);
            }
            entries[i] = (key, value);
            return;
        }
        i = i + 1;
    }
    proof {
        lemma_pair_index(entries@, key);
    }
    entries.push((key, value));
}

} // verus!

//! Association lists keyed by `u64`, with first-match semantics.
//!
//! The heartbeat queue and the ongoing-delta accounting both keep small
//! keyed tables; this module gives them one verified lookup/update
//! vocabulary. All tables maintain unique keys, so the first match is the
//! only one.

use vstd::prelude::*;

verus! {

/// Whether some entry has the key.
pub open spec fn spec_has_key<V>(m: Seq<(u64, V)>, key: u64) -> bool {
    exists|i: int| 0 <= i < m.len() && (#[trigger] m[i]).0 == key
}

/// The value of the first entry with the key.
pub open spec fn spec_lookup<V>(m: Seq<(u64, V)>, key: u64) -> Option<V>
    decreases m.len(),
{
    if m.len() == 0 {
        None
    } else if m[0].0 == key {
        Some(m[0].1)
    } else {
        spec_lookup(m.drop_first(), key)
    }
}

/// Replaces the value of the first entry with the key.
pub open spec fn spec_set<V>(m: Seq<(u64, V)>, key: u64, v: V) -> Seq<(u64, V)>
    decreases m.len(),
{
    if m.len() == 0 {
        m
    } else if m[0].0 == key {
        seq![(key, v)] + m.drop_first()
    } else {
        seq![m[0]] + spec_set(m.drop_first(), key, v)
    }
}

/// Drops the first entry with the key.
pub open spec fn spec_unset<V>(m: Seq<(u64, V)>, key: u64) -> Seq<(u64, V)>
    decreases m.len(),
{
    if m.len() == 0 {
        m
    } else if m[0].0 == key {
        m.drop_first()
    } else {
        seq![m[0]] + spec_unset(m.drop_first(), key)
    }
}

/// No key appears twice.
pub open spec fn spec_unique_keys<V>(m: Seq<(u64, V)>) -> bool {
    forall|i: int, j: int|
        0 <= i < m.len() && 0 <= j < m.len() && i != j ==> (#[trigger] m[i]).0 != (
        #[trigger] m[j]).0
}

/// Where `idx` holds the first entry with the key, `spec_lookup` returns
/// its value.
pub proof fn lemma_lookup_at<V>(m: Seq<(u64, V)>, key: u64, idx: int)
    requires
        0 <= idx < m.len(),
        m[idx].0 == key,
        forall|j: int| 0 <= j < idx ==> (#[trigger] m[j]).0 != key,
    ensures
        spec_lookup(m, key) == Some(m[idx].1),
    decreases idx,
{
    if idx > 0 {
        lemma_lookup_at(m.drop_first(), key, idx - 1);
    }
}

/// Where no entry has the key, `spec_lookup` returns nothing.
pub proof fn lemma_lookup_absent<V>(m: Seq<(u64, V)>, key: u64)
    requires
        forall|j: int| 0 <= j < m.len() ==> (#[trigger] m[j]).0 != key,
    ensures
        spec_lookup(m, key) is None,
    decreases m.len(),
{
    if m.len() > 0 {
        lemma_lookup_absent(m.drop_first(), key);
    }
}

/// Appending an entry for a fresh key is visible only under that key.
pub proof fn lemma_lookup_push<V>(m: Seq<(u64, V)>, key: u64, v: V, other: u64)
    ensures
        !spec_has_key(m, other) && other == key ==> spec_lookup(m.push((key, v)), other) == Some(v),
        spec_lookup(m, other) is Some ==> spec_lookup(m.push((key, v)), other) == spec_lookup(
            m,
            other,
        ),
        other != key && spec_lookup(m, other) is None ==> spec_lookup(m.push((key, v)), other)
            is None,
    decreases m.len(),
{
    if m.len() == 0 {
        assert(m.push((key, v)).drop_first() =~= Seq::<(u64, V)>::empty());
        if other != key {
            lemma_lookup_absent(m.push((key, v)), other);
        }
    } else {
        assert(m.push((key, v)).drop_first() =~= m.drop_first().push((key, v)));
        if m[0].0 == other {
        } else {
            assert forall|j: int| 0 <= j < m.len() && (#[trigger] m[j]).0 == other implies
                spec_has_key(m, other) by {}
            if !spec_has_key(m, other) {
                assert(forall|j: int|
                    0 <= j < m.drop_first().len() ==> (#[trigger] m.drop_first()[j]).0 != other);
                assert(!spec_has_key(m.drop_first(), other));
            } else {
                let w = choose|i: int| 0 <= i < m.len() && (#[trigger] m[i]).0 == other;
                assert(w > 0);
                assert(m.drop_first()[w - 1].0 == other);
                assert(spec_has_key(m.drop_first(), other));
            }
            lemma_lookup_push(m.drop_first(), key, v, other);
        }
    }
}

/// Replacing under `idx` (the first match) updates that entry in place,
/// and `spec_lookup` afterwards sees the new value there and old values
/// elsewhere.
pub proof fn lemma_set_at<V>(m: Seq<(u64, V)>, key: u64, v: V, idx: int)
    requires
        0 <= idx < m.len(),
        m[idx].0 == key,
        forall|j: int| 0 <= j < idx ==> (#[trigger] m[j]).0 != key,
    ensures
        spec_set(m, key, v) == m.update(idx, (key, v)),
    decreases idx,
{
    if idx == 0 {
        assert(spec_set(m, key, v) =~= m.update(0, (key, v)));
    } else {
        lemma_set_at(m.drop_first(), key, v, idx - 1);
        assert(spec_set(m, key, v) =~= m.update(idx, (key, v))) by {
            assert(spec_set(m, key, v) == seq![m[0]] + spec_set(m.drop_first(), key, v));
            assert(seq![m[0]] + m.drop_first().update(idx - 1, (key, v)) =~= m.update(
                idx,
                (key, v),
            ));
        }
    }
}

/// After an in-place update at `idx`, lookups of other keys are unchanged
/// when keys are unique.
pub proof fn lemma_lookup_update<V>(m: Seq<(u64, V)>, idx: int, key: u64, v: V, other: u64)
    requires
        spec_unique_keys(m),
        0 <= idx < m.len(),
        m[idx].0 == key,
    ensures
        spec_lookup(m.update(idx, (key, v)), key) == Some(v),
        other != key ==> spec_lookup(m.update(idx, (key, v)), other) == spec_lookup(m, other),
        spec_unique_keys(m.update(idx, (key, v))),
    decreases idx,
{
    let m2 = m.update(idx, (key, v));
    assert(m2.len() == m.len());
    if idx == 0 {
        assert(m2[0].0 == key);
        if other != key {
            assert(m2.drop_first() =~= m.drop_first());
        }
    } else {
        assert(m2[0] == m[0]);
        assert(m2.drop_first() =~= m.drop_first().update(idx - 1, (key, v)));
        assert(spec_unique_keys(m.drop_first()));
        lemma_lookup_update(m.drop_first(), idx - 1, key, v, other);
        assert(m[0].0 != key);
    }
}

/// Finds the index of the first entry with the key.
pub fn find_key<V>(entries: &Vec<(u64, V)>, key: u64) -> (r: Option<usize>)
    ensures
        match r {
            Some(i) => 0 <= i < entries@.len() && entries@[i as int].0 == key && (forall|j: int|
                0 <= j < i ==> (#[trigger] entries@[j]).0 != key),
            None => !spec_has_key(entries@, key),
        },
{
    let n = entries.len();
    let mut i: usize = 0;
    while i < n
        invariant
            i <= n,
            n == entries@.len(),
            forall|j: int| 0 <= j < i ==> (#[trigger] entries@[j]).0 != key,
        decreases n - i,
    {
        if entries[i].0 == key {
            return Some(i);
        }
        i = i + 1;
    }
    None
}

} // verus!

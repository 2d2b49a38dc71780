//! The ordered maps of the index: `IndexMap`s from strings to positions
//! in the index's own vectors.

use vstd::prelude::*;

use indexmap::IndexMap;

verus! {

#[verifier::external_type_specification]
#[verifier::external_body]
#[verifier::reject_recursive_types(K)]
#[verifier::reject_recursive_types(V)]
#[verifier::reject_recursive_types(S)]
pub struct ExIndexMap<K, V, S>(IndexMap<K, V, S>);

/// The entries of an `IndexMap` from strings to positions, in the map's order.
pub uninterp spec fn slot_entries(m: IndexMap<String, usize>) -> Seq<(Seq<char>, usize)>;

/// The position of the first entry with key `k`, or -1.
pub open spec fn key_index(e: Seq<(Seq<char>, usize)>, k: Seq<char>) -> int
    decreases e.len(),
{
    if e.len() == 0 {
        -1
    } else {
        let p = key_index(e.drop_last(), k);
        if p >= 0 {
            p
        } else if e.last().0 == k {
            e.len() - 1
        } else {
            -1
        }
    }
}

/// The entries after an insert: a present key keeps its place and takes the
/// new value; a new key goes last.
pub open spec fn entries_insert(e: Seq<(Seq<char>, usize)>, k: Seq<char>, v: usize) -> Seq<
    (Seq<char>, usize),
> {
    if key_index(e, k) >= 0 {
        e.update(key_index(e, k), (k, v))
    } else {
        e.push((k, v))
    }
}

/// The value stored under `k`, if any.
pub open spec fn entries_get(e: Seq<(Seq<char>, usize)>, k: Seq<char>) -> Option<usize> {
    if key_index(e, k) >= 0 {
        Some(e[key_index(e, k)].1)
    } else {
        None
    }
}

/// Relies on `IndexMap::new`: a map with no entries.
#[verifier::external_body]
pub(crate) fn slots_new() -> (r: IndexMap<String, usize>)
    ensures
        slot_entries(r) == Seq::<(Seq<char>, usize)>::empty(),
{
    IndexMap::new()
}

/// Relies on `IndexMap::insert`: where an equal key is present it keeps its
/// place in the order and its value is replaced; otherwise the entry goes last.
#[verifier::external_body]
pub(crate) fn slots_insert(m: &mut IndexMap<String, usize>, key: String, value: usize)
    ensures
        slot_entries(*final(m)) == entries_insert(slot_entries(*old(m)), key@, value),
{
    m.insert(key, value);
}

/// Relies on `IndexMap::get`: the value stored under an equal key, if any.
#[verifier::external_body]
pub(crate) fn slots_get(m: &IndexMap<String, usize>, key: &str) -> (r: Option<usize>)
    ensures
        r == entries_get(slot_entries(*m), key@),
{
    m.get(key).copied()
}

/// The entries of a map whose `i`-th entry holds key `keys[i]` and value `i`.
pub open spec fn positional(e: Seq<(Seq<char>, usize)>, keys: Seq<Seq<char>>) -> bool {
    &&& e.len() == keys.len()
    &&& forall|i: int| 0 <= i < e.len() ==> #[trigger] e[i] == (keys[i], i as usize)
    &&& keys.no_duplicates()
}

/// In a positional map the key `k` sits at its place in `keys`.
pub proof fn lemma_key_index_positional(e: Seq<(Seq<char>, usize)>, keys: Seq<Seq<char>>, k: Seq<char>)
    requires
        positional(e, keys),
    ensures
        keys.contains(k) ==> 0 <= key_index(e, k) < keys.len() && keys[key_index(e, k)] == k,
        !keys.contains(k) ==> key_index(e, k) == -1,
    decreases e.len(),
{
    if e.len() > 0 {
        let e0 = e.drop_last();
        let k0 = keys.drop_last();
        assert(positional(e0, k0)) by {
            assert forall|i: int| 0 <= i < e0.len() implies #[trigger] e0[i] == (k0[i], i as usize) by {
                assert(e[i] == (keys[i], i as usize));
            }
        }
        lemma_key_index_positional(e0, k0, k);
        assert(e.last() == (keys.last(), (e.len() - 1) as usize));
        if keys.contains(k) {
            let j = choose|j: int| 0 <= j < keys.len() && keys[j] == k;
            if j < keys.len() - 1 {
                assert(k0[j] == k);
            }
        }
        if k0.contains(k) {
            let j = choose|j: int| 0 <= j < k0.len() && k0[j] == k;
            assert(keys[j] == k);
        }
    }
}

/// Inserting a new key with the next position, or a present key with its own
/// position, keeps a map positional.
pub proof fn lemma_insert_positional(e: Seq<(Seq<char>, usize)>, keys: Seq<Seq<char>>, k: Seq<char>)
    requires
        positional(e, keys),
    ensures
        !keys.contains(k) ==> positional(entries_insert(e, k, keys.len() as usize), keys.push(k)),
        keys.contains(k) ==> entries_insert(e, k, key_index(e, k) as usize) == e,
{
    lemma_key_index_positional(e, keys, k);
    if !keys.contains(k) {
        let e2 = entries_insert(e, k, keys.len() as usize);
        let k2 = keys.push(k);
        assert forall|i: int| 0 <= i < e2.len() implies #[trigger] e2[i] == (k2[i], i as usize) by {
            if i < e.len() {
                assert(e[i] == (keys[i], i as usize));
            }
        }
        assert forall|a: int, b: int| 0 <= a < b < k2.len() implies k2[a] != k2[b] by {
            if b == k2.len() - 1 {
                assert(keys[a] == k2[a]);
            }
        }
    } else {
        let j = key_index(e, k);
        assert(e[j] == (keys[j], j as usize));
        assert(e.update(j, (k, j as usize)) =~= e);
    }
}

} // verus!

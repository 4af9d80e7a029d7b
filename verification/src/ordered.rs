//! Insertion-ordered maps keyed by text.
//!
//! The maps themselves are `indexmap::IndexMap` values. What one holds is modelled as the
//! sequence of its `(key, value)` entries in insertion order, and the functions below say how a
//! lookup and an insertion act on such a sequence.

use vstd::prelude::*;
use indexmap::IndexMap;

verus! {

/// The values of one line by key, in the order in which the keys were first seen.
pub type Pairs = IndexMap<String, String>;

/// Occurrences by field value, in the order in which the values were first seen.
pub type Counts = IndexMap<String, usize>;

/// The counts of one subject by field name, in the order in which the fields were first seen.
pub type Fields = IndexMap<String, Counts>;

/// The frequency table: the fields of every subject, in the order in which the subjects were
/// first seen.
pub type Stats = IndexMap<String, Fields>;

/// The entries of a `Counts` map.
pub type CountEntries = Seq<(Seq<char>, nat)>;

/// The entries of a `Fields` map.
pub type FieldEntries = Seq<(Seq<char>, CountEntries)>;

/// The entries of a `Stats` map.
pub type StatsEntries = Seq<(Seq<char>, FieldEntries)>;

/// The entries of a `Pairs` map.
pub type PairEntries = Seq<(Seq<char>, Seq<char>)>;

/// `indexmap::IndexMap`, a hash map that keeps its entries in insertion order. Nothing is
/// known of a value of it but what the functions below say.
#[verifier::external_type_specification]
#[verifier::external_body]
#[verifier::reject_recursive_types(K)]
#[verifier::reject_recursive_types(V)]
#[verifier::reject_recursive_types(S)]
pub struct ExIndexMap<K, V, S>(IndexMap<K, V, S>);

/// The entries of a `Pairs` map, in the map's order.
pub uninterp spec fn pair_entries(map: IndexMap<String, String>) -> Seq<(Seq<char>, Seq<char>)>;

/// The entries of a `Counts` map, in the map's order.
pub uninterp spec fn count_entries(map: IndexMap<String, usize>) -> Seq<(Seq<char>, nat)>;

/// The entries of a `Fields` map, in the map's order, each with the entries of its inner map.
pub uninterp spec fn field_entries(map: IndexMap<String, IndexMap<String, usize>>) -> Seq<
    (Seq<char>, Seq<(Seq<char>, nat)>),
>;

/// The entries of a `Stats` map, in the map's order, each with the entries of its inner maps.
pub uninterp spec fn stats_entries(
    map: IndexMap<String, IndexMap<String, IndexMap<String, usize>>>,
) -> Seq<(Seq<char>, Seq<(Seq<char>, Seq<(Seq<char>, nat)>)>)>;

/// `IndexMap::new` makes a map without entries.
#[verifier::external_body]
pub(crate) fn new_pairs() -> (map: Pairs)
    ensures
        pair_entries(map) == Seq::<(Seq<char>, Seq<char>)>::empty(),
{
    IndexMap::new()
}

/// `IndexMap::insert` replaces the value of a key that the map holds and leaves the key where it
/// stands; a key that the map does not hold becomes its last entry.
#[verifier::external_body]
pub(crate) fn insert_pair(map: &mut Pairs, key: String, value: String)
    ensures
        pair_entries(*final(map)) == store(pair_entries(*old(map)), key@, value@),
{
    map.insert(key, value);
}

/// `IndexMap::get` gives the value stored for a key, and `None` for a key that the map does not
/// hold.
#[verifier::external_body]
pub(crate) fn get_pair<'a>(map: &'a Pairs, key: &str) -> (value: Option<&'a String>)
    ensures
        match value {
            Some(text) => lookup(pair_entries(*map), key@) == Some(text@),
            None => lookup(pair_entries(*map), key@) is None,
        },
{
    map.get(key)
}

/// `IndexMap::new` makes a map without entries.
#[verifier::external_body]
pub(crate) fn new_stats() -> (stats: Stats)
    ensures
        stats_entries(stats) == Seq::<(Seq<char>, FieldEntries)>::empty(),
{
    IndexMap::new()
}

/// `IndexMap::entry` followed by `Entry::or_default` gives access to the value of a key. A key
/// that the map does not hold becomes its last entry first, with an empty map as its value.
/// Whatever the caller leaves in the slot is the key's value afterwards; nothing else changes.
#[verifier::external_body]
pub(crate) fn fields_slot<'a>(stats: &'a mut Stats, subject: &str) -> (slot: &'a mut Fields)
    ensures
        field_entries(*slot) == lookup_or(stats_entries(*old(stats)), subject@, Seq::empty()),
        stats_entries(*final(stats)) == store(
            stats_entries(*old(stats)),
            subject@,
            field_entries(*final(slot)),
        ),
{
    stats.entry(subject.to_owned()).or_default()
}

/// `IndexMap::entry` followed by `Entry::or_default` gives access to the value of a key. A key
/// that the map does not hold becomes its last entry first, with an empty map as its value.
/// Whatever the caller leaves in the slot is the key's value afterwards; nothing else changes.
#[verifier::external_body]
pub(crate) fn counts_slot<'a>(fields: &'a mut Fields, name: &str) -> (slot: &'a mut Counts)
    ensures
        count_entries(*slot) == lookup_or(field_entries(*old(fields)), name@, Seq::empty()),
        field_entries(*final(fields)) == store(
            field_entries(*old(fields)),
            name@,
            count_entries(*final(slot)),
        ),
{
    fields.entry(name.to_owned()).or_default()
}

/// `IndexMap::entry` followed by `Entry::or_default` gives access to the value of a key. A key
/// that the map does not hold becomes its last entry first, with 0 as its value. Whatever the
/// caller leaves in the slot is the key's value afterwards; nothing else changes.
#[verifier::external_body]
pub(crate) fn count_slot<'a>(counts: &'a mut Counts, value: &str) -> (slot: &'a mut usize)
    ensures
        *slot as nat == lookup_or(count_entries(*old(counts)), value@, 0nat),
        count_entries(*final(counts)) == store(
            count_entries(*old(counts)),
            value@,
            *final(slot) as nat,
        ),
{
    counts.entry(value.to_owned()).or_default()
}

/// Index `i` is the first one of `entries` that holds `key`.
pub open spec fn holds_first<V>(entries: Seq<(Seq<char>, V)>, key: Seq<char>, i: int) -> bool {
    &&& 0 <= i < entries.len()
    &&& entries[i].0 == key
    &&& forall|j: int| 0 <= j < i ==> (#[trigger] entries[j]).0 != key
}

/// The index at which `entries` holds `key`, if it holds it.
pub open spec fn position<V>(entries: Seq<(Seq<char>, V)>, key: Seq<char>) -> Option<int> {
    if exists|i: int| holds_first(entries, key, i) {
        Some(choose|i: int| holds_first(entries, key, i))
    } else {
        None
    }
}

/// The value that `entries` holds for `key`, if any.
pub open spec fn lookup<V>(entries: Seq<(Seq<char>, V)>, key: Seq<char>) -> Option<V> {
    match position(entries, key) {
        Some(i) => Some(entries[i].1),
        None => None,
    }
}

/// The value that `entries` holds for `key`, or `default` where it holds none.
pub open spec fn lookup_or<V>(entries: Seq<(Seq<char>, V)>, key: Seq<char>, default: V) -> V {
    match position(entries, key) {
        Some(i) => entries[i].1,
        None => default,
    }
}

/// `entries` after `value` is stored for `key`: in the place of the old value where the key was
/// there, else as a new last entry.
pub open spec fn store<V>(entries: Seq<(Seq<char>, V)>, key: Seq<char>, value: V) -> Seq<
    (Seq<char>, V),
> {
    match position(entries, key) {
        Some(i) => entries.update(i, (key, value)),
        None => entries.push((key, value)),
    }
}

/// No key stands twice in `entries`.
pub open spec fn distinct_keys<V>(entries: Seq<(Seq<char>, V)>) -> bool {
    forall|i: int, j: int|
        0 <= i < j < entries.len() ==> (#[trigger] entries[i]).0 != (#[trigger] entries[j]).0
}

/// A key stands first at one index at most, and `position` is that index.
pub proof fn lemma_position_is<V>(entries: Seq<(Seq<char>, V)>, key: Seq<char>, i: int)
    requires
        holds_first(entries, key, i),
    ensures
        position(entries, key) == Some(i),
{
}

/// `position` finds a key exactly where some entry holds it, and then at its first entry.
pub proof fn lemma_position<V>(entries: Seq<(Seq<char>, V)>, key: Seq<char>)
    ensures
        match position(entries, key) {
            Some(i) => holds_first(entries, key, i),
            None => forall|j: int| 0 <= j < entries.len() ==> (#[trigger] entries[j]).0 != key,
        },
{
    if position(entries, key) is None {
        assert forall|j: int| 0 <= j < entries.len() implies (#[trigger] entries[j]).0 != key by {
            if entries[j].0 == key {
                lemma_first_among(entries, key, j);
            }
        }
    }
}

/// Where some entry up to index `j` holds `key`, one of them holds it first.
proof fn lemma_first_among<V>(entries: Seq<(Seq<char>, V)>, key: Seq<char>, j: int)
    requires
        0 <= j < entries.len(),
        entries[j].0 == key,
    ensures
        exists|i: int| holds_first(entries, key, i),
    decreases j,
{
    if exists|k: int| 0 <= k < j && (#[trigger] entries[k]).0 == key {
        let k = choose|k: int| 0 <= k < j && (#[trigger] entries[k]).0 == key;
        lemma_first_among(entries, key, k);
    } else {
        assert(holds_first(entries, key, j));
    }
}

/// After `store`, the key holds the stored value and every other key holds what it held.
pub proof fn lemma_store_lookup<V>(
    entries: Seq<(Seq<char>, V)>,
    key: Seq<char>,
    value: V,
    other: Seq<char>,
)
    ensures
        lookup(store(entries, key, value), key) == Some(value),
        other != key ==> lookup(store(entries, key, value), other) == lookup(entries, other),
        other != key ==> position(store(entries, key, value), other) == position(entries, other),
        forall|default: V| #[trigger] lookup_or(store(entries, key, value), key, default) == value,
        other != key ==> forall|default: V| #[trigger]
                lookup_or(store(entries, key, value), other, default) == lookup_or(
                    entries,
                    other,
                    default,
                ),
{
    let after = store(entries, key, value);
    lemma_position(entries, key);
    lemma_position(entries, other);
    match position(entries, key) {
        Some(i) => {
            assert(holds_first(after, key, i));
            lemma_position_is(after, key, i);
        },
        None => {
            assert(holds_first(after, key, entries.len() as int));
            lemma_position_is(after, key, entries.len() as int);
        },
    }
    if other != key {
        match position(entries, other) {
            Some(k) => {
                assert(holds_first(after, other, k));
                lemma_position_is(after, other, k);
            },
            None => {
                lemma_position(after, other);
            },
        }
    }
}

/// `store` keeps the keys distinct.
pub proof fn lemma_store_distinct<V>(entries: Seq<(Seq<char>, V)>, key: Seq<char>, value: V)
    requires
        distinct_keys(entries),
    ensures
        distinct_keys(store(entries, key, value)),
{
    let after = store(entries, key, value);
    lemma_position(entries, key);
    assert forall|i: int, j: int| 0 <= i < j < after.len() implies (#[trigger] after[i]).0 != (
    #[trigger] after[j]).0 by {}
}

/// Every entry after `store` is the stored one or an entry that was there before, and the
/// stored one is among them.
pub proof fn lemma_store_entries<V>(entries: Seq<(Seq<char>, V)>, key: Seq<char>, value: V)
    ensures
        store(entries, key, value).len() >= entries.len(),
        forall|j: int|
            0 <= j < store(entries, key, value).len() ==> {
                ||| (#[trigger] store(entries, key, value)[j]) == (key, value)
                ||| (j < entries.len() && store(entries, key, value)[j] == entries[j])
            },
        exists|j: int|
            0 <= j < store(entries, key, value).len() && #[trigger] store(entries, key, value)[j]
                == (key, value),
{
    lemma_position(entries, key);
    let after = store(entries, key, value);
    match position(entries, key) {
        Some(i) => {
            assert(after[i] == (key, value));
        },
        None => {
            assert(after[entries.len() as int] == (key, value));
        },
    }
}

/// What `lookup_or` gives is the default or the value of one of the entries.
pub proof fn lemma_lookup_or<V>(entries: Seq<(Seq<char>, V)>, key: Seq<char>, default: V)
    ensures
        lookup_or(entries, key, default) == default || exists|i: int|
            0 <= i < entries.len() && (#[trigger] entries[i]).1 == lookup_or(
                entries,
                key,
                default,
            ),
{
    lemma_position(entries, key);
}

} // verus!

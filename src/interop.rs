use vstd::prelude::*;

use indexmap::{IndexMap, IndexSet};
use std::collections::hash_map::RandomState;

use crate::block::Transaction;

verus! {

#[verifier::external_type_specification]
#[verifier::external_body]
#[verifier::reject_recursive_types(K)]
#[verifier::reject_recursive_types(V)]
#[verifier::reject_recursive_types(S)]
pub struct ExIndexMap<K, V, S>(IndexMap<K, V, S>);

#[verifier::external_type_specification]
#[verifier::external_body]
#[verifier::reject_recursive_types(T)]
#[verifier::reject_recursive_types(S)]
pub struct ExIndexSet<T, S>(IndexSet<T, S>);

/// The entries of a transaction pool, in insertion order.
pub uninterp spec fn pool_entries(m: IndexMap<u64, Transaction, RandomState>) -> Seq<(u64, Transaction)>;

/// The addresses held by a validator set.
pub uninterp spec fn validator_set(s: IndexSet<u64, RandomState>) -> Set<u64>;

/// The prover solutions `(address, nonce, commitment)` of a solution pool, in insertion order.
pub uninterp spec fn solution_entries(s: IndexSet<(u64, u64, u64), RandomState>) -> Seq<(u64, u64, u64)>;

/// Some entry of `entries` has the key `k`.
pub open spec fn has_key(entries: Seq<(u64, Transaction)>, k: u64) -> bool {
    exists|i: int| 0 <= i < entries.len() && (#[trigger] entries[i]).0 == k
}

/// Relies on IndexMap::new: a new map is empty.
#[verifier::external_body]
pub(crate) fn pool_new() -> (r: IndexMap<u64, Transaction, RandomState>)
    ensures
        pool_entries(r) == Seq::<(u64, Transaction)>::empty(),
{
    IndexMap::new()
}

/// Relies on IndexMap::contains_key: whether an entry has the key.
#[verifier::external_body]
pub(crate) fn pool_contains(m: &IndexMap<u64, Transaction, RandomState>, k: u64) -> (r: bool)
    ensures
        r == has_key(pool_entries(*m), k),
{
    m.contains_key(&k)
}

/// Relies on IndexMap::insert: a key not yet present is inserted last in order.
#[verifier::external_body]
pub(crate) fn pool_insert(m: &mut IndexMap<u64, Transaction, RandomState>, k: u64, v: Transaction)
    requires
        !has_key(pool_entries(*old(m)), k),
    ensures
        pool_entries(*final(m)) == pool_entries(*old(m)).push((k, v)),
{
    m.insert(k, v);
}

/// Relies on IndexMap::len: the number of entries.
#[verifier::external_body]
pub(crate) fn pool_len(m: &IndexMap<u64, Transaction, RandomState>) -> (r: usize)
    ensures
        r == pool_entries(*m).len(),
{
    m.len()
}

/// Relies on IndexMap's `Index<usize>`: the value of the entry at position `i`.
#[verifier::external_body]
pub(crate) fn pool_value_at(m: &IndexMap<u64, Transaction, RandomState>, i: usize) -> (r: &Transaction)
    requires
        i < pool_entries(*m).len(),
    ensures
        *r == pool_entries(*m)[i as int].1,
{
    &m[i]
}

/// Relies on IndexMap::drain over the full range: every entry is handed out in
/// order and the map is left empty.
#[verifier::external_body]
pub(crate) fn pool_drain(m: &mut IndexMap<u64, Transaction, RandomState>) -> (r: Vec<(u64, Transaction)>)
    ensures
        r@ == pool_entries(*old(m)),
        pool_entries(*final(m)) == Seq::<(u64, Transaction)>::empty(),
{
    m.drain(..).collect()
}

/// Relies on IndexSet::new: a new set is empty.
#[verifier::external_body]
pub(crate) fn validators_new() -> (r: IndexSet<u64, RandomState>)
    ensures
        validator_set(r) == Set::<u64>::empty(),
{
    IndexSet::new()
}

/// Relies on IndexSet::insert: the value is added, and `true` comes back iff it was absent.
#[verifier::external_body]
pub(crate) fn validators_insert(s: &mut IndexSet<u64, RandomState>, a: u64) -> (r: bool)
    ensures
        validator_set(*final(s)) == validator_set(*old(s)).insert(a),
        r == !validator_set(*old(s)).contains(a),
{
    s.insert(a)
}

/// Relies on IndexSet::shift_remove: the value is removed, and `true` comes back iff it was present.
#[verifier::external_body]
pub(crate) fn validators_remove(s: &mut IndexSet<u64, RandomState>, a: u64) -> (r: bool)
    ensures
        validator_set(*final(s)) == validator_set(*old(s)).remove(a),
        r == validator_set(*old(s)).contains(a),
{
    s.shift_remove(&a)
}

/// Relies on IndexSet::contains: membership.
#[verifier::external_body]
pub(crate) fn validators_contains(s: &IndexSet<u64, RandomState>, a: u64) -> (r: bool)
    ensures
        r == validator_set(*s).contains(a),
{
    s.contains(&a)
}

/// Relies on IndexSet::new: a new set is empty.
#[verifier::external_body]
pub(crate) fn solutions_new() -> (r: IndexSet<(u64, u64, u64), RandomState>)
    ensures
        solution_entries(r) == Seq::<(u64, u64, u64)>::empty(),
{
    IndexSet::new()
}

/// Relies on IndexSet::insert: an absent value is appended and `true` comes back;
/// a present one leaves the set as it was and `false` comes back.
#[verifier::external_body]
pub(crate) fn solutions_insert(s: &mut IndexSet<(u64, u64, u64), RandomState>, x: (u64, u64, u64)) -> (r: bool)
    ensures
        r == !solution_entries(*old(s)).contains(x),
        r ==> solution_entries(*final(s)) == solution_entries(*old(s)).push(x),
        !r ==> solution_entries(*final(s)) == solution_entries(*old(s)),
{
    s.insert(x)
}

/// Relies on IndexSet::len: the number of values.
#[verifier::external_body]
pub(crate) fn solutions_len(s: &IndexSet<(u64, u64, u64), RandomState>) -> (r: usize)
    ensures
        r == solution_entries(*s).len(),
{
    s.len()
}

/// Relies on IndexSet's `Index<usize>`: the value at position `i`.
#[verifier::external_body]
pub(crate) fn solutions_at(s: &IndexSet<(u64, u64, u64), RandomState>, i: usize) -> (r: (u64, u64, u64))
    requires
        i < solution_entries(*s).len(),
    ensures
        r == solution_entries(*s)[i as int],
{
    s[i]
}

/// Relies on IndexSet::clear: the set is left empty.
#[verifier::external_body]
pub(crate) fn solutions_clear(s: &mut IndexSet<(u64, u64, u64), RandomState>)
    ensures
        solution_entries(*final(s)) == Seq::<(u64, u64, u64)>::empty(),
{
    s.clear()
}

/// Relies on `String: FromIterator<char>`: the string of the characters, in order.
#[verifier::external_body]
pub(crate) fn string_from_chars(chars: &Vec<char>) -> (r: String)
    ensures
        r@ == chars@,
{
    chars.iter().collect()
}

/// Relies on time::OffsetDateTime::now_utc and its unix_timestamp: the current
/// time in seconds. Nothing is known of the value.
#[verifier::external_body]
pub(crate) fn now_unix_timestamp() -> (r: i64) {
    time::OffsetDateTime::now_utc().unix_timestamp()
}

} // verus!

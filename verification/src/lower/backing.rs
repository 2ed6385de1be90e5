//! What the interner and the scopes are stored in: a bump arena and hash
//! tables with a fast hasher. None of this is verified; each item says what is
//! taken on trust.

use vstd::prelude::*;
use vstd::std_specs::hash::obeys_key_model;
use bumpalo::Bump;
use core::hash::{BuildHasherDefault, Hash};
use rustc_hash::{FxHashMap, FxHasher};

verus! {

/// `bumpalo::Bump`, an arena that hands out references which live as long as
/// the arena itself. Nothing of its inside is visible to the verifier.
#[verifier::external_type_specification]
#[verifier::external_body]
pub struct ExBump<const MIN_ALIGN: usize>(Bump<MIN_ALIGN>);

/// `rustc_hash::FxHasher`, the hasher of the tables below.
#[verifier::external_type_specification]
#[verifier::external_body]
pub struct ExFxHasher(FxHasher);

/// `core::hash::BuildHasherDefault`, which makes a fresh hasher by `Default`.
#[verifier::external_type_specification]
#[verifier::external_body]
#[verifier::reject_recursive_types(H)]
pub struct ExBuildHasherDefault<H>(BuildHasherDefault<H>);

/// `bumpalo::Bump::alloc`: moves `value` into the arena and returns a
/// reference to where it now lives. Taken on trust: the reference points at a
/// value equal to the one given. The call panics when the arena cannot reserve
/// the space: when memory runs out, or when the arena was given an allocation
/// limit (`Bump::set_allocation_limit`) and the limit is reached.
#[verifier::external_body]
pub(crate) fn arena_alloc<'cx, T>(arena: &'cx Bump, value: T) -> (slot: &'cx T)
    ensures
        *slot == value,
{
    arena.alloc(value)
}

/// `HashMap::get` on a table that hashes with `rustc_hash::FxHasher`. Taken on
/// trust: that hasher is deterministic, so for a key type that hashes and
/// compares by value the lookup finds the entry of `key` if and only if the
/// table has one.
#[verifier::external_body]
pub(crate) fn table_get<'a, K: Hash + Eq, V>(table: &'a FxHashMap<K, V>, key: &K) -> (found: Option<
    &'a V,
>)
    ensures
        obeys_key_model::<K>() ==> found == (if table@.contains_key(*key) {
            Some(&table@[*key])
        } else {
            None
        }),
{
    table.get(key)
}

/// `HashMap::insert` on a table that hashes with `rustc_hash::FxHasher`. Taken
/// on trust: for a key type that hashes and compares by value, afterwards the
/// table maps `key` to `value` and is otherwise as before.
#[verifier::external_body]
pub(crate) fn table_insert<K: Hash + Eq, V>(table: &mut FxHashMap<K, V>, key: K, value: V)
    ensures
        obeys_key_model::<K>() ==> final(table)@ == old(table)@.insert(key, value),
{
    table.insert(key, value);
}

} // verus!

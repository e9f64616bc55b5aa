//! Trusted boundary around the `rustc_hash` hash tables that hold the
//! per-symbol state: the symbol set of a book and the symbol-to-slot index.
//!
//! `FxHashSet` and `FxHashMap` are `std`'s tables with rustc-hash's
//! `FxBuildHasher`. vstd ties the views of `std`'s tables to their operations
//! only for hashers it knows to be valid, so the operations the engine calls
//! are wrapped here, with contracts over the tables' vstd views. They rely on
//! `FxBuildHasher` being a deterministic, well-behaved `BuildHasher`, which
//! the rustc-hash source shows.

use vstd::prelude::*;

use crate::order::SymbolId;

verus! {

#[verifier::external_type_specification]
#[verifier::external_body]
pub struct ExFxBuildHasher(rustc_hash::FxBuildHasher);

/// Relies on `HashSet::insert` with the Fx hasher: afterwards the set also
/// contains the given symbol.
#[verifier::external_body]
pub(crate) fn fx_set_insert(s: &mut rustc_hash::FxHashSet<SymbolId>, sym: SymbolId)
    ensures
        final(s)@ == old(s)@.insert(sym),
{
    s.insert(sym);
}

/// Relies on `HashSet::contains` with the Fx hasher.
#[verifier::external_body]
pub(crate) fn fx_set_contains(s: &rustc_hash::FxHashSet<SymbolId>, sym: SymbolId) -> (r: bool)
    ensures
        r == s@.contains(sym),
{
    s.contains(&sym)
}

/// Relies on `HashSet::iter` with the Fx hasher: the elements come out once
/// each, in an unspecified order.
#[verifier::external_body]
pub(crate) fn fx_set_to_vec(s: &rustc_hash::FxHashSet<SymbolId>) -> (v: Vec<SymbolId>)
    ensures
        v@.no_duplicates(),
        forall|sym: SymbolId| #[trigger] v@.contains(sym) <==> s@.contains(sym),
{
    s.iter().copied().collect()
}

/// Relies on `HashMap::insert` with the Fx hasher: afterwards the map takes
/// the given key to the given value.
#[verifier::external_body]
pub(crate) fn fx_map_insert(m: &mut rustc_hash::FxHashMap<SymbolId, usize>, k: SymbolId, v: usize)
    ensures
        final(m)@ == old(m)@.insert(k, v),
{
    m.insert(k, v);
}

/// Relies on `HashMap::get` with the Fx hasher: the value under the key, if
/// the key is present.
#[verifier::external_body]
pub(crate) fn fx_map_get(m: &rustc_hash::FxHashMap<SymbolId, usize>, k: SymbolId) -> (r: Option<
    usize,
>)
    ensures
        match r {
            Some(v) => m@.contains_key(k) && m@[k] == v,
            None => !m@.contains_key(k),
        },
{
    m.get(&k).copied()
}

} // verus!

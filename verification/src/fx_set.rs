//! The hash set of voice group ids.
//!
//! `rustc_hash::FxHashSet` is the standard library's hash set with the Fx hasher, which hashes an
//! integer to a value that depends on the integer alone. The functions here are the calls that the
//! library makes to it, each with what it does to the set of ids.

use vstd::prelude::*;
use rustc_hash::FxHashSet;

verus! {

/// The builder of Fx hashers, which the type of the set names.
#[verifier::external_type_specification]
#[verifier::external_body]
pub struct ExFxBuildHasher(rustc_hash::FxBuildHasher);

/// `FxHashSet::contains`: tells whether the set holds the id.
#[verifier::external_body]
pub(crate) fn set_contains(set: &FxHashSet<usize>, id: usize) -> (held: bool)
    ensures
        held == set@.contains(id),
{
    set.contains(&id)
}

/// `FxHashSet::insert`: the set holds the id afterwards, and every other id as before.
#[verifier::external_body]
pub(crate) fn set_insert(set: &mut FxHashSet<usize>, id: usize) -> (fresh: bool)
    ensures
        final(set)@ == old(set)@.insert(id),
        fresh == !old(set)@.contains(id),
{
    set.insert(id)
}

/// `FxHashSet::remove`: the set no longer holds the id, and holds every other id as before.
#[verifier::external_body]
pub(crate) fn set_remove(set: &mut FxHashSet<usize>, id: usize) -> (held: bool)
    ensures
        final(set)@ == old(set)@.remove(id),
        held == old(set)@.contains(id),
{
    set.remove(&id)
}

} // verus!

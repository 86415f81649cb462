//! The hash collections that the analyses keep their results in: those of
//! std with the hasher of the rustc-hash crate, keyed by numbers.
//!
//! What vstd specifies of std's hash collections holds for the hashers that
//! it knows to behave. Of the hasher of rustc-hash it knows nothing, so the
//! calls are made here, and what is stated of them is taken on trust: the
//! hasher has no seed and hashes equal numbers alike, so the collections
//! behave as sets and maps of numbers.

use rustc_hash::{FxHashSet, FxHasher};
use std::hash::BuildHasherDefault;
use vstd::prelude::*;

verus! {

/// The hasher of the rustc-hash crate. It is made by `Default` and holds no
/// seed, so equal keys hash alike in every map and set.
#[verifier::external_type_specification]
#[verifier::external_body]
pub struct ExFxHasher(FxHasher);

/// `BuildHasherDefault` of std: it makes the hasher `H` by `Default`.
#[verifier::external_type_specification]
#[verifier::external_body]
#[verifier::reject_recursive_types(H)]
pub struct ExBuildHasherDefault<H>(BuildHasherDefault<H>);

/// `Default::default` of std's `HashSet` with the hasher of rustc-hash: a
/// set that holds nothing.
#[verifier::external_body]
pub(crate) fn set_new() -> (r: FxHashSet<usize>)
    ensures
        r@ == Set::<usize>::empty(),
{
    FxHashSet::default()
}

/// `HashSet::insert` of std on a set with the hasher of rustc-hash: after
/// the call the set holds `value` besides what it held.
#[verifier::external_body]
pub(crate) fn set_insert(set: &mut FxHashSet<usize>, value: usize)
    ensures
        final(set)@ == old(set)@.insert(value),
{
    set.insert(value);
}

/// `HashSet::contains` of std on a set with the hasher of rustc-hash:
/// whether the set holds `value`.
#[verifier::external_body]
pub(crate) fn set_contains(set: &FxHashSet<usize>, value: usize) -> (r: bool)
    ensures
        r == set@.contains(value),
{
    set.contains(&value)
}

} // verus!

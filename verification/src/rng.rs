//! Trusted boundary around the `rand` crate.
//!
//! Every random choice the mixer makes goes through one of the wrappers
//! below.  Their contracts state only what holds of every possible outcome
//! (a drawn index is in range, a shuffle rearranges without adding or
//! dropping elements); nothing about which outcome is drawn.

use vstd::prelude::*;

verus! {

/// Declares `rand::rngs::ThreadRng` so the mixer can hold and pass a
/// generator handle; the type stays opaque.
#[verifier::external_type_specification]
#[verifier::external_body]
pub struct ExThreadRng(rand::rngs::ThreadRng);

/// Relies on `rand::thread_rng`: a handle to the thread-local generator.
/// Nothing is promised of the values it will produce.
#[verifier::external_body]
pub(crate) fn fresh_rng() -> rand::rngs::ThreadRng {
    rand::thread_rng()
}

/// Relies on `rand::Rng::gen_range` over `0..n`: it returns a value of the
/// range.  It panics on an empty range, which the precondition excludes.
#[verifier::external_body]
pub(crate) fn rand_below(rng: &mut rand::rngs::ThreadRng, n: usize) -> (r: usize)
    requires
        n > 0,
    ensures
        r < n,
{
    rand::Rng::gen_range(rng, 0..n)
}

/// Relies on `rand::seq::SliceRandom::shuffle`: a Fisher-Yates pass of
/// in-place swaps, so the new contents are a permutation of the old.
#[verifier::external_body]
pub(crate) fn shuffle_vec<T>(rng: &mut rand::rngs::ThreadRng, items: &mut Vec<T>)
    ensures
        final(items)@.len() == old(items)@.len(),
        final(items)@.to_multiset() == old(items)@.to_multiset(),
        forall|i: int|
            0 <= i < final(items)@.len() ==> old(items)@.contains(#[trigger] final(items)@[i]),
        old(items)@.no_duplicates() ==> final(items)@.no_duplicates(),
{
    rand::seq::SliceRandom::shuffle(items.as_mut_slice(), rng)
}

} // verus!

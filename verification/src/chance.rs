//! The source of chance for new tiles.

use vstd::prelude::*;

verus! {

/// A number drawn by `rand::random::<usize>()`, which asks the generator of
/// the current thread for a `usize`. Nothing is claimed of the number: every
/// `usize` may come back, and two calls may differ. The generator is seeded
/// from the operating system on its first use in a thread, and `rand` gives
/// up with a panic there if the operating system has no randomness to give.
#[verifier::external_body]
pub(crate) fn random_usize() -> usize {
    rand::random::<usize>()
}

} // verus!

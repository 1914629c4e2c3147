//! Numbers that differ from start to start.

use vstd::prelude::*;

verus! {

/// A number from `std::hash::RandomState`, which is seeded anew each time:
/// the hash of `salt`. Nothing is claimed of it.
#[verifier::external_body]
pub(crate) fn random_number(salt: u64) -> u64 {
    std::hash::BuildHasher::hash_one(&std::hash::RandomState::new(), salt)
}

} // verus!

//! The one source of nondeterminism in the machine: the random byte
//! consumed by the `Cxnn` instruction.

use vstd::prelude::*;

verus! {

/// Relies on rand::random: a byte sampled from the uniform
/// distribution. Nothing is promised of the result; every caller is
/// verified for every value it may take.
#[verifier::external_body]
pub(crate) fn random_byte() -> u8 {
    rand::random::<u8>()
}

} // verus!

//! The one source of randomness the connection core uses: initial
//! sequence numbers and connection identifiers are drawn at random.

use vstd::prelude::*;

verus! {

/// Relies on rand::random::<u16>: draws one random 16-bit value.
/// Nothing is assumed of the result; every caller must be correct for
/// every value that comes back.
#[verifier::external_body]
pub(crate) fn random_u16() -> u16 {
    rand::random()
}

} // verus!

//! Where the engine's randomness comes from.

use vstd::prelude::*;

verus! {

/// Calls `rand::RngCore::fill_bytes` on the thread's generator, over the array it
/// is handed. Nothing is promised of the bytes.
#[verifier::external_body]
pub(crate) fn random_bytes<const N: usize>(blank: [u8; N]) -> (bytes: [u8; N]) {
    let mut bytes = blank;
    rand::RngCore::fill_bytes(&mut rand::rng(), &mut bytes);
    bytes
}

/// Calls `rand::Rng::random_range` on the thread's generator: some number from
/// `low` to `high`, which two calls need not agree on.
#[verifier::external_body]
pub(crate) fn random_port(low: u16, high: u16) -> (r: u16)
    requires
        low <= high,
    ensures
        low <= r <= high,
{
    rand::Rng::random_range(&mut rand::rng(), low..=high)
}

} // verus!

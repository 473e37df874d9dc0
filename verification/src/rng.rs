//! The engine's only source of randomness, kept behind one trusted call.

use vstd::prelude::*;

verus! {

/// Relies on rand::Rng::gen_range over a thread-local generator to draw one
/// number from the full unsigned 32-bit range; nothing is assumed of its
/// value.
#[verifier::external_body]
pub(crate) fn random_u32() -> u32 {
    rand::Rng::gen_range(&mut rand::thread_rng(), 0..=u32::MAX)
}

} // verus!

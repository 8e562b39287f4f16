//! The one place where chance enters: fresh bytes for message IDs, and the
//! jitter of the first ping.

use rand::Rng;
use vstd::prelude::*;

verus! {

/// Draws `n` bytes from the thread's random number generator.
///
/// Calls `rand::thread_rng` and takes the first `n` items of the endless
/// iterator that `Rng::gen_iter` returns. Nothing is claimed of the bytes but
/// their number.
#[verifier::external_body]
pub(crate) fn random_bytes(n: usize) -> (bytes: Vec<u8>)
    ensures
        bytes@.len() == n,
{
    rand::thread_rng().gen_iter::<u8>().take(n).collect()
}

/// Draws a number from `low` up to, but not including, `high`.
///
/// Calls `Rng::gen_range` on the thread's random number generator, which
/// samples from the half-open range and panics unless `low < high`.
#[verifier::external_body]
pub(crate) fn random_between(low: u32, high: u32) -> (n: u32)
    requires
        low < high,
    ensures
        low <= n < high,
{
    rand::thread_rng().gen_range(low, high)
}

} // verus!

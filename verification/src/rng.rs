//! The random source of the simulation: the thread-local generator of the
//! `rand` crate, reached through two small functions whose contracts are
//! taken on trust.

use rand::Rng;
use vstd::prelude::*;

verus! {

/// `rand::rngs::ThreadRng`, the handle to the generator of a thread. It is
/// only carried along; nothing is known of what it holds.
#[verifier::external_type_specification]
#[verifier::external_body]
pub struct ExThreadRng(rand::rngs::ThreadRng);

/// Calls `rand::thread_rng`, which hands out a handle to the generator of
/// the current thread. Nothing is claimed of the handle.
#[verifier::external_body]
pub(crate) fn thread_rng() -> rand::rngs::ThreadRng {
    rand::thread_rng()
}

/// Calls `Rng::gen_range` on integers. The crate documents the value as
/// lying in `[low, high)` and the call as panicking when `low >= high`;
/// which value of the range comes out is left open.
#[verifier::external_body]
pub(crate) fn gen_range(rng: &mut rand::rngs::ThreadRng, low: i32, high: i32) -> (value: i32)
    requires
        low < high,
    ensures
        low <= value < high,
{
    rng.gen_range(low, high)
}

} // verus!

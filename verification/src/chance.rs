//! The source of randomness that mine placement draws from.

use rand::Rng;
use vstd::prelude::*;

verus! {

/// `rand::ThreadRng`, the thread-local generator. Its state is opaque here.
#[verifier::external_type_specification]
#[verifier::external_body]
pub struct ExThreadRng(rand::ThreadRng);

/// `rand::thread_rng` hands out the calling thread's generator, seeded by
/// the system. Nothing is claimed about the value it returns. It fails
/// only where the system offers no entropy at all.
pub assume_specification[ rand::thread_rng ]() -> (rng: rand::ThreadRng);

/// `rand::Rng::choose` on a slice of `u32`: `None` for an empty slice,
/// otherwise one of the slice's elements. Which element is not specified.
#[verifier::external_body]
pub(crate) fn pick(rng: &mut rand::ThreadRng, values: &Vec<u32>) -> (picked: Option<u32>)
    ensures
        values@.len() == 0 ==> picked is None,
        values@.len() > 0 ==> picked is Some && values@.contains(picked->0),
{
    rng.choose(values).copied()
}

} // verus!

//! The random draws of the game, from the `rand` crate's thread-local
//! generator.

use rand::rngs::ThreadRng;
use rand::Rng;
use vstd::prelude::*;

verus! {

/// The generator that `rand::thread_rng` hands out.
#[verifier::external_type_specification]
#[verifier::external_body]
pub struct ExThreadRng(rand::rngs::ThreadRng);

/// `rand::thread_rng`: a handle to this thread's generator. Nothing is
/// claimed of it. (Its first use in a thread seeds the generator from the
/// operating system and panics if that source fails; no clause here can say
/// when that happens.)
#[verifier::external_body]
pub(crate) fn thread_rng() -> ThreadRng {
    rand::thread_rng()
}

/// `Rng::gen_range` on the inclusive range `low..=high` of `u8`: by the crate's
/// documentation a value in that range (the range must not be empty, else it
/// panics). Which value comes back is left open. (When the generator reseeds
/// and the operating system's source fails, it panics; no clause can say when.)
#[verifier::external_body]
pub(crate) fn gen_range_u8(rng: &mut ThreadRng, low: u8, high: u8) -> (r: u8)
    requires
        low <= high,
    ensures
        low <= r <= high,
{
    rng.gen_range(low..=high)
}

/// `Rng::gen_range` on the half-open range `low..high` of `usize`: by the
/// crate's documentation a value in that range (the range must not be empty,
/// else it panics). Which value comes back is left open. (When the generator
/// reseeds and the operating system's source fails, it panics; no clause can
/// say when.)
#[verifier::external_body]
pub(crate) fn gen_range_usize(rng: &mut ThreadRng, low: usize, high: usize) -> (r: usize)
    requires
        low < high,
    ensures
        low <= r < high,
{
    rng.gen_range(low..high)
}

} // verus!

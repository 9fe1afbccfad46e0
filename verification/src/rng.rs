//! A bit source backed by the thread-local random number generator of the
//! rand crate, as the benchmark harness draws its trial inputs.

use vstd::prelude::*;

use crate::frame::BitSource;

verus! {

#[verifier::external_type_specification]
#[verifier::external_body]
pub struct ExThreadRng(rand::rngs::ThreadRng);

/// Relies on rand::thread_rng: returns a handle to the thread-local
/// generator. Nothing is promised of it.
#[verifier::external_body]
fn new_thread_rng() -> rand::rngs::ThreadRng {
    rand::thread_rng()
}

/// Relies on rand::Rng::gen::<bool>: draws one pseudorandom bit. The value
/// depends on the generator's hidden state, so nothing is promised of the
/// outcome.
#[verifier::external_body]
fn random_bool(rng: &mut rand::rngs::ThreadRng) -> bool {
    rand::Rng::gen(rng)
}

/// A `BitSource` drawing from the thread-local pseudorandom generator.
pub struct ThreadRngSource {
    rng: rand::rngs::ThreadRng,
}

impl ThreadRngSource {
    /// A fresh handle to this thread's generator.
    pub fn new() -> ThreadRngSource {
        ThreadRngSource { rng: new_thread_rng() }
    }
}

impl BitSource for ThreadRngSource {
    fn next_bit(&mut self) -> bool {
        random_bool(&mut self.rng)
    }
}

} // verus!

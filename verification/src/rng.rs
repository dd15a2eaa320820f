use vstd::prelude::*;

verus! {

/// A source of random bytes for the `RND` instruction.  Nothing is promised
/// of the bytes it yields: the machine's contracts hold whatever comes back.
pub trait RandomSource: Sized {
    fn random_byte(&mut self) -> u8;
}

/// The default source: the thread-local generator of the `rand` crate.
pub struct ThreadRandom;

/// Relies on rand::thread_rng and rand::Rng::gen to draw one uniformly
/// random byte; no contract states what comes back.
#[verifier::external_body]
fn thread_random_byte() -> u8 {
    rand::Rng::gen::<u8>(&mut rand::thread_rng())
}

impl RandomSource for ThreadRandom {
    fn random_byte(&mut self) -> u8 {
        thread_random_byte()
    }
}

/// A deterministic source for tests: yields the low byte of a counter that
/// advances by a fixed step, wrapping on overflow.
pub struct StepRandom {
    pub value: u64,
    pub step: u64,
}

impl StepRandom {
    pub fn new(value: u64, step: u64) -> (r: Self)
        ensures
            r.value == value,
            r.step == step,
    {
        StepRandom { value, step }
    }
}

impl RandomSource for StepRandom {
    fn random_byte(&mut self) -> (r: u8)
        ensures
            r as nat == old(self).value as nat % 256,
            final(self).value == vstd::wrapping::u64_specs::wrapping_add(
                old(self).value,
                old(self).step,
            ),
            final(self).step == old(self).step,
    {
        let b = (self.value % 256) as u8;
        self.value = self.value.wrapping_add(self.step);
        b
    }
}

} // verus!

//! A single die and the random source it draws from.

use vstd::prelude::*;
use rand::Rng;

verus! {

/// The thread-local random number generator of the rand crate; opaque here.
#[verifier::external_type_specification]
#[verifier::external_body]
pub struct ExThreadRng(rand::rngs::ThreadRng);

/// Relies on rand::thread_rng: yields a handle to the calling thread's
/// random number generator. Nothing is assumed about the values it gives.
#[verifier::external_body]
pub(crate) fn fresh_rng() -> rand::rngs::ThreadRng {
    rand::thread_rng()
}

/// A die with a fixed number of sides.
pub struct Die {
    sides: u16,
}

impl Die {
    /// The number of sides.
    pub closed spec fn spec_sides(&self) -> u16 {
        self.sides
    }

    pub fn new(sides: u16) -> (d: Die)
        ensures
            d.spec_sides() == sides,
    {
        Die { sides }
    }

    /// One draw from the die. Relies on rand::Rng::gen_range over the
    /// inclusive range 1..=sides: the result lies in that range, whatever
    /// the generator produced; the range must not be empty, or the call
    /// panics, so a die needs at least one side.
    #[verifier::external_body]
    pub fn roll(&self, rng: &mut rand::rngs::ThreadRng) -> (r: u16)
        requires
            self.spec_sides() >= 1,
        ensures
            1 <= r <= self.spec_sides(),
    {
        rng.gen_range(1..=self.sides)
    }
}

} // verus!

//! A secret group element of an equation together with the coins of its
//! commitment.
use vstd::prelude::*;
use ark_std::rand::rngs::StdRng;
use crate::group::SourceGroup;
use crate::randomness::Randomness;

verus! {

/// A variable `x` (or `y`) of a pairing product equation: the value the
/// prover hides, and the coins that its commitment uses.
pub struct Variable<G> {
    pub value: G,
    pub rand: Randomness<G>,
}

impl<G: SourceGroup> Clone for Variable<G> {
    fn clone(&self) -> (r: Variable<G>)
        ensures
            r == *self,
    {
        *self
    }
}

impl<G: SourceGroup> Copy for Variable<G> {}

impl<G: SourceGroup> Variable<G> {
    /// A variable of the given value with coins drawn at random.
    pub fn new(rng: &mut StdRng, value: G) -> (r: Variable<G>)
        ensures
            r.value == value,
    {
        Self::with_randomness(value, Randomness::rand(rng))
    }

    /// A variable of the given value whose coins are zero.
    pub fn with_zero_randomness(value: G) -> (r: Variable<G>)
        ensures
            r.value == value,
            r.rand.0@ == 0,
            r.rand.1@ == 0,
    {
        Self::with_randomness(value, Randomness::zero())
    }

    /// A variable of the given value and coins.
    pub fn with_randomness(value: G, rand: Randomness<G>) -> (r: Variable<G>)
        ensures
            r.value == value,
            r.rand == rand,
    {
        Variable { value, rand }
    }
}

} // verus!

//! The random coins `(r1, r2)` of a commitment, tagged with the source group
//! whose commitments they belong to.
use vstd::prelude::*;
use core::marker::PhantomData;
use ark_std::rand::rngs::StdRng;
use crate::group::{md, Scalar, SourceGroup};

verus! {

/// A pair of scalars used as the coins of a commitment in the group `G`.
pub struct Randomness<G>(pub Scalar, pub Scalar, pub PhantomData<G>);

impl<G: SourceGroup> Clone for Randomness<G> {
    fn clone(&self) -> (r: Randomness<G>)
        ensures
            r == *self,
    {
        *self
    }
}

impl<G: SourceGroup> Copy for Randomness<G> {}

impl<G: SourceGroup> Randomness<G> {
    /// The coins `(r1, r2)`.
    pub fn new(r1: Scalar, r2: Scalar) -> (r: Randomness<G>)
        ensures
            r.0 == r1,
            r.1 == r2,
    {
        Randomness(r1, r2, PhantomData)
    }

    /// Coins drawn uniformly at random.
    pub fn rand(rng: &mut StdRng) -> (r: Randomness<G>) {
        let r1 = Scalar::rand(rng);
        let r2 = Scalar::rand(rng);
        Randomness(r1, r2, PhantomData)
    }

    /// The coins `(0, 0)`.
    pub fn zero() -> (r: Randomness<G>)
        ensures
            r.0@ == 0,
            r.1@ == 0,
    {
        Randomness(Scalar::zero(), Scalar::zero(), PhantomData)
    }

    /// The coins added pairwise.
    pub fn add(self, other: Randomness<G>) -> (r: Randomness<G>)
        ensures
            r.0@ == md(self.0@ + other.0@),
            r.1@ == md(self.1@ + other.1@),
    {
        Randomness(self.0.plus(&other.0), self.1.plus(&other.1), PhantomData)
    }

    /// The coins negated.
    pub fn neg(self) -> (r: Randomness<G>)
        ensures
            r.0@ == md(-self.0@),
            r.1@ == md(-self.1@),
    {
        Randomness(self.0.negate(), self.1.negate(), PhantomData)
    }
}

} // verus!

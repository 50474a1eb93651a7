//! SXDH commitments: a pair of elements of one source group.
use vstd::prelude::*;
use ark_std::rand::rngs::StdRng;
use crate::commit::CommitmentKey;
use crate::group::{lemma_md_add, md, SourceGroup};
use crate::randomness::Randomness;

verus! {

/// A commitment `(c1, c2)` in the source group `G`.
pub struct Com<G>(pub G, pub G);

impl<G: SourceGroup> Clone for Com<G> {
    fn clone(&self) -> (r: Com<G>)
        ensures
            r == *self,
    {
        *self
    }
}

impl<G: SourceGroup> Copy for Com<G> {}

/// A commitment before it was randomized, and the coins it was randomized with.
pub type ComRandomness<G> = (Com<G>, Randomness<G>);

impl<G: SourceGroup> Com<G> {
    /// Randomizes the commitment in place by adding a commitment to zero
    /// with fresh coins `(r1, r2)`; returns the commitment as it was, and
    /// those coins.
    pub fn randomize(&mut self, rng: &mut StdRng, ck: &CommitmentKey<G>) -> (r: ComRandomness<G>)
        ensures
            r.0 == *old(self),
            final(self).0.log() == md(old(self).0.log() + ck.0.0.log() * r.1.0@ + ck.1.0.log() * r.1.1@),
            final(self).1.log() == md(old(self).1.log() + ck.0.1.log() * r.1.0@ + ck.1.1.log() * r.1.1@),
    {
        let rand = Randomness::<G>::rand(rng);
        let previous = *self;
        let a = ck.0.0.times(&rand.0).plus(&ck.1.0.times(&rand.1));
        let b = ck.0.1.times(&rand.0).plus(&ck.1.1.times(&rand.1));
        self.0 = self.0.plus(&a);
        self.1 = self.1.plus(&b);
        proof {
            let (r1, r2) = (rand.0@, rand.1@);
            lemma_md_add(ck.0.0.log() * r1, ck.1.0.log() * r2);
            lemma_md_add(ck.0.1.log() * r1, ck.1.1.log() * r2);
            lemma_md_add(previous.0.log(), ck.0.0.log() * r1 + ck.1.0.log() * r2);
            lemma_md_add(previous.1.log(), ck.0.1.log() * r1 + ck.1.1.log() * r2);
        }
        (previous, rand)
    }
}

} // verus!

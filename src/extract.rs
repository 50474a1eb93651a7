//! The extraction key of the binding setup, which opens commitments.
use vstd::prelude::*;
use crate::com::Com;
use crate::commit::{com_first, com_second, is_binding_key, CommitmentKey};
use crate::group::{
    lemma_cong_add, lemma_cong_mul, lemma_cong_sub, lemma_md_add, lemma_md_md, lemma_md_mul,
    lemma_md_neg, md, order, G1Point, G2Point, Scalar, SourceGroup,
};

verus! {

/// The trapdoor `(a1, a2)` of keys of the binding setup.
#[derive(Clone, Copy)]
pub struct ExtractKey(pub Scalar, pub Scalar);

/// What extraction with the trapdoor `a` makes of a commitment `(c1, c2)`:
/// `c2 - a c1`.
pub open spec fn extracted(c1: int, c2: int, a: int) -> int {
    md(c2 - a * c1)
}

/// `c2 - a c1` in the group `G`.
fn open_with<G: SourceGroup>(c: &Com<G>, a: &Scalar) -> (r: G)
    ensures
        r.log() == extracted(c.0.log(), c.1.log(), a@),
{
    let r = c.0.times(&a.negate()).plus(&c.1);
    proof {
        lemma_md_neg(a@);
        lemma_md_mul(c.0.log(), -a@);
        lemma_md_add(c.0.log() * -a@, c.1.log());
        assert(c.0.log() * -a@ + c.1.log() == c.1.log() - a@ * c.0.log()) by (nonlinear_arith);
    }
    r
}

/// Extraction undoes commitment: under a key of the binding setup with the
/// trapdoor `a`, the commitment to any value `x` with any coins `(r1, r2)`
/// extracts to `x`.
pub proof fn lemma_extract_commit<G: SourceGroup>(
    ck: CommitmentKey<G>,
    g: int,
    a: int,
    t: int,
    x: int,
    r1: int,
    r2: int,
)
    requires
        is_binding_key(ck, g, a, t),
        0 <= x < order(),
    ensures
        extracted(com_first(ck, r1, r2), com_second(ck, x, r1, r2), a) == x,
{
    let (k00, k01, k10, k11) = (ck.0.0.log(), ck.0.1.log(), ck.1.0.log(), ck.1.1.log());
    lemma_md_md(g);
    lemma_md_md(g * a);
    lemma_md_md(g * t);
    lemma_md_md(g * a * t);
    lemma_md_md(x);
    // the first element is congruent to g r1 + g t r2
    lemma_cong_mul(k00, g, r1);
    lemma_cong_mul(k10, g * t, r2);
    lemma_cong_add(k00 * r1, g * r1, k10 * r2, g * t * r2);
    let c0 = k00 * r1 + k10 * r2;
    let e0 = g * r1 + g * t * r2;
    // the second element is congruent to x + g a r1 + g a t r2
    lemma_cong_mul(k01, g * a, r1);
    lemma_cong_mul(k11, g * a * t, r2);
    lemma_cong_add(k01 * r1, g * a * r1, k11 * r2, g * a * t * r2);
    lemma_cong_add(x, x, k01 * r1 + k11 * r2, g * a * r1 + g * a * t * r2);
    let c1 = x + k01 * r1 + k11 * r2;
    let e1 = x + g * a * r1 + g * a * t * r2;
    assert(c1 == x + (k01 * r1 + k11 * r2));
    assert(e1 == x + (g * a * r1 + g * a * t * r2));
    // c2 - a c1 is congruent to x
    lemma_md_md(c0);
    lemma_md_md(c1);
    lemma_cong_mul(md(c0), e0, a);
    lemma_cong_sub(md(c1), e1, a * md(c0), a * e0);
    assert(e1 - a * e0 == x) by (nonlinear_arith)
        requires
            e1 == x + g * a * r1 + g * a * t * r2,
            e0 == g * r1 + g * t * r2,
    ;
}

impl ExtractKey {
    /// The value committed to in G1: `c2 - a1 c1`.
    pub fn extract_1(&self, c: &Com<G1Point>) -> (r: G1Point)
        ensures
            r@ == extracted(c.0@, c.1@, self.0@),
    {
        open_with(c, &self.0)
    }

    /// The value committed to in G2: `c2 - a2 c1`.
    pub fn extract_2(&self, c: &Com<G2Point>) -> (r: G2Point)
        ensures
            r@ == extracted(c.0@, c.1@, self.1@),
    {
        open_with(c, &self.1)
    }
}

} // verus!

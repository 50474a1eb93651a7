//! Commitment keys of the SXDH commitment scheme, in their binding and their
//! perfectly hiding form, and the commitment function.
use vstd::prelude::*;
use ark_std::rand::rngs::StdRng;
use crate::com::Com;
use crate::extract::ExtractKey;
use crate::group::{
    lemma_cong_add, lemma_cong_mul, lemma_cong_sub, lemma_md_add, lemma_md_md, lemma_md_mul, lemma_md_sub, md,
    G1Point, G2Point, Scalar, SourceGroup,
};
use crate::variable::Variable;

verus! {

/// A commitment key `((u11, u12), (u21, u22))` in the source group `G`.
pub struct CommitmentKey<G>(pub (G, G), pub (G, G));

impl<G: SourceGroup> Clone for CommitmentKey<G> {
    fn clone(&self) -> (r: CommitmentKey<G>)
        ensures
            r == *self,
    {
        *self
    }
}

impl<G: SourceGroup> Copy for CommitmentKey<G> {}

/// The commitment keys `u` in G1 and `v` in G2.
#[derive(Clone, Copy)]
pub struct CommitmentKeys {
    pub u: CommitmentKey<G1Point>,
    pub v: CommitmentKey<G2Point>,
}

/// The key of the binding setup over the base `g` with the scalars `a` and
/// `t`: `u1 = (g, a g)` and `u2 = t u1`.
pub open spec fn is_binding_key<G: SourceGroup>(k: CommitmentKey<G>, g: int, a: int, t: int) -> bool {
    &&& k.0.0.log() == md(g)
    &&& k.0.1.log() == md(g * a)
    &&& k.1.0.log() == md(g * t)
    &&& k.1.1.log() == md(g * a * t)
}

/// The key of the perfectly hiding setup over the base `g` with the scalars
/// `a` and `t`: `u1 = (g, a g)` and `u2 = t u1 - (0, g)`.
pub open spec fn is_hiding_key<G: SourceGroup>(k: CommitmentKey<G>, g: int, a: int, t: int) -> bool {
    &&& k.0.0.log() == md(g)
    &&& k.0.1.log() == md(g * a)
    &&& k.1.0.log() == md(g * t)
    &&& k.1.1.log() == md(g * (a * t - 1))
}

/// Both keys come from the binding setup over the bases `g1` and `g2`.
pub open spec fn is_binding_setup(cks: CommitmentKeys, g1: int, g2: int) -> bool {
    exists|a1: int, t1: int, a2: int, t2: int|
        #[trigger] is_binding_key(cks.u, g1, a1, t1) && #[trigger] is_binding_key(cks.v, g2, a2, t2)
}

/// Both keys come from the perfectly hiding setup over the bases `g1` and `g2`.
pub open spec fn is_hiding_setup(cks: CommitmentKeys, g1: int, g2: int) -> bool {
    exists|a1: int, t1: int, a2: int, t2: int|
        #[trigger] is_hiding_key(cks.u, g1, a1, t1) && #[trigger] is_hiding_key(cks.v, g2, a2, t2)
}

/// The first element of the commitment to a value with coins `(r1, r2)`:
/// `r1 u11 + r2 u21`.
pub open spec fn com_first<G: SourceGroup>(ck: CommitmentKey<G>, r1: int, r2: int) -> int {
    md(ck.0.0.log() * r1 + ck.1.0.log() * r2)
}

/// The second element of the commitment to `x` with coins `(r1, r2)`:
/// `x + r1 u12 + r2 u22`.
pub open spec fn com_second<G: SourceGroup>(ck: CommitmentKey<G>, x: int, r1: int, r2: int) -> int {
    md(x + ck.0.1.log() * r1 + ck.1.1.log() * r2)
}

/// The key of the binding setup over `g`.
fn binding_key<G: SourceGroup>(g: G, a: &Scalar, t: &Scalar) -> (r: CommitmentKey<G>)
    ensures
        is_binding_key(r, g.log(), a@, t@),
{
    let u1 = (g, g.times(a));
    let u2 = (g.times(t), u1.1.times(t));
    proof {
        g.lemma_log_bounded();
        lemma_md_md(g.log());
        lemma_md_mul(g.log() * a@, t@);
    }
    CommitmentKey(u1, u2)
}

/// The key of the perfectly hiding setup over `g`.
fn hiding_key<G: SourceGroup>(g: G, a: &Scalar, t: &Scalar) -> (r: CommitmentKey<G>)
    ensures
        is_hiding_key(r, g.log(), a@, t@),
{
    let u1 = (g, g.times(a));
    let e = a.times(t).minus(&Scalar::one());
    let u2 = (g.times(t), g.times(&e));
    proof {
        g.lemma_log_bounded();
        lemma_md_md(g.log());
        lemma_md_sub(a@ * t@, 1);
        lemma_md_mul(g.log(), a@ * t@ - 1);
    }
    CommitmentKey(u1, u2)
}

impl CommitmentKeys {
    /// The keys of the binding setup over `g1` and `g2`, with the scalars
    /// `a1, t1` in G1 and `a2, t2` in G2.
    pub fn new(g1: G1Point, g2: G2Point, a1: Scalar, a2: Scalar, t1: Scalar, t2: Scalar) -> (r: CommitmentKeys)
        ensures
            is_binding_key(r.u, g1@, a1@, t1@),
            is_binding_key(r.v, g2@, a2@, t2@),
    {
        CommitmentKeys { u: binding_key(g1, &a1, &t1), v: binding_key(g2, &a2, &t2) }
    }

    /// The keys of the perfectly hiding setup over `g1` and `g2`, with the
    /// scalars `a1, t1` in G1 and `a2, t2` in G2.
    pub fn new_wi(g1: G1Point, g2: G2Point, a1: Scalar, a2: Scalar, t1: Scalar, t2: Scalar) -> (r: CommitmentKeys)
        ensures
            is_hiding_key(r.u, g1@, a1@, t1@),
            is_hiding_key(r.v, g2@, a2@, t2@),
    {
        CommitmentKeys { u: hiding_key(g1, &a1, &t1), v: hiding_key(g2, &a2, &t2) }
    }

    /// Random keys of the binding setup.
    pub fn rand(rng: &mut StdRng) -> (r: CommitmentKeys)
        ensures
            exists|g1: int, g2: int| #[trigger] is_binding_setup(r, g1, g2),
    {
        let g1 = G1Point::rand(rng);
        let g2 = G2Point::rand(rng);
        let r = Self::setup(rng, g1, g2);
        assert(is_binding_setup(r, g1@, g2@));
        r
    }

    /// Keys of the binding setup over `g1` and `g2`, with random scalars.
    pub fn setup(rng: &mut StdRng, g1: G1Point, g2: G2Point) -> (r: CommitmentKeys)
        ensures
            is_binding_setup(r, g1@, g2@),
    {
        let a1 = Scalar::rand(rng);
        let a2 = Scalar::rand(rng);
        let t1 = Scalar::rand(rng);
        let t2 = Scalar::rand(rng);
        let r = CommitmentKeys::new(g1, g2, a1, a2, t1, t2);
        assert(is_binding_key(r.u, g1@, a1@, t1@) && is_binding_key(r.v, g2@, a2@, t2@));
        r
    }

    /// Random keys of the binding setup, with their extraction key.
    pub fn rand_ex(rng: &mut StdRng) -> (r: (CommitmentKeys, ExtractKey))
        ensures
            exists|g1: int, t1: int, g2: int, t2: int|
                #[trigger] is_binding_key(r.0.u, g1, r.1.0@, t1) && #[trigger] is_binding_key(r.0.v, g2, r.1.1@, t2),
    {
        let g1 = G1Point::rand(rng);
        let g2 = G2Point::rand(rng);
        Self::setup_ex(rng, g1, g2)
    }

    /// Keys of the binding setup over `g1` and `g2` with random scalars, and
    /// the extraction key `(a1, a2)`.
    pub fn setup_ex(rng: &mut StdRng, g1: G1Point, g2: G2Point) -> (r: (CommitmentKeys, ExtractKey))
        ensures
            exists|t1: int, t2: int|
                #[trigger] is_binding_key(r.0.u, g1@, r.1.0@, t1) && #[trigger] is_binding_key(r.0.v, g2@, r.1.1@, t2),
    {
        let a1 = Scalar::rand(rng);
        let a2 = Scalar::rand(rng);
        let t1 = Scalar::rand(rng);
        let t2 = Scalar::rand(rng);
        let r = (CommitmentKeys::new(g1, g2, a1, a2, t1, t2), ExtractKey(a1, a2));
        assert(is_binding_key(r.0.u, g1@, r.1.0@, t1@) && is_binding_key(r.0.v, g2@, r.1.1@, t2@));
        r
    }

    /// Random keys of the perfectly hiding setup.
    pub fn rand_wi(rng: &mut StdRng) -> (r: CommitmentKeys)
        ensures
            exists|g1: int, g2: int| #[trigger] is_hiding_setup(r, g1, g2),
    {
        let g1 = G1Point::rand(rng);
        let g2 = G2Point::rand(rng);
        let r = Self::setup_wi(rng, g1, g2);
        assert(is_hiding_setup(r, g1@, g2@));
        r
    }

    /// Keys of the perfectly hiding setup over `g1` and `g2`, with random scalars.
    pub fn setup_wi(rng: &mut StdRng, g1: G1Point, g2: G2Point) -> (r: CommitmentKeys)
        ensures
            is_hiding_setup(r, g1@, g2@),
    {
        let a1 = Scalar::rand(rng);
        let a2 = Scalar::rand(rng);
        let t1 = Scalar::rand(rng);
        let t2 = Scalar::rand(rng);
        let r = CommitmentKeys::new_wi(g1, g2, a1, a2, t1, t2);
        assert(is_hiding_key(r.u, g1@, a1@, t1@) && is_hiding_key(r.v, g2@, a2@, t2@));
        r
    }
}

/// The coin shift of perfect hiding, as integers.
proof fn lemma_hiding_shift(g: int, a: int, t: int, x2: int, k: int, r1: int, r2: int) by (nonlinear_arith)
    ensures
        g * (r1 - t * k) + g * t * (r2 + k) == g * r1 + g * t * r2,
        x2 + g * a * (r1 - t * k) + g * (a * t - 1) * (r2 + k) == (x2 - k * g) + g * a * r1 + g * (a * t - 1) * r2,
{
}

/// Perfect hiding: under a key of the hiding setup over `g` with the
/// scalars `a`, `t`, when `x2 - x1 = k g` the commitment to `x2` with the
/// coins `(r1 - t k, r2 + k)` is the commitment to `x1` with `(r1, r2)`, so
/// that a commitment says nothing of the value it holds.
pub proof fn lemma_hiding_commitments_coincide<G: SourceGroup>(
    ck: CommitmentKey<G>,
    g: int,
    a: int,
    t: int,
    x1: int,
    x2: int,
    k: int,
    r1: int,
    r2: int,
)
    requires
        is_hiding_key(ck, g, a, t),
        md(x2 - x1) == md(k * g),
    ensures
        com_first(ck, r1 - t * k, r2 + k) == com_first(ck, r1, r2),
        com_second(ck, x2, r1 - t * k, r2 + k) == com_second(ck, x1, r1, r2),
{
    let (k00, k01, k10, k11) = (ck.0.0.log(), ck.0.1.log(), ck.1.0.log(), ck.1.1.log());
    let (n1, n2) = (r1 - t * k, r2 + k);
    let (ga, gt, gat) = (g * a, g * t, g * (a * t - 1));
    lemma_md_md(g);
    lemma_md_md(ga);
    lemma_md_md(gt);
    lemma_md_md(gat);
    lemma_hiding_shift(g, a, t, x2, k, r1, r2);
    // the first element
    lemma_cong_mul(k00, g, n1);
    lemma_cong_mul(k10, gt, n2);
    lemma_cong_add(k00 * n1, g * n1, k10 * n2, gt * n2);
    lemma_cong_mul(k00, g, r1);
    lemma_cong_mul(k10, gt, r2);
    lemma_cong_add(k00 * r1, g * r1, k10 * r2, gt * r2);
    assert(gt * n2 == g * t * (r2 + k)) by (nonlinear_arith)
        requires
            gt == g * t,
            n2 == r2 + k,
    ;
    assert(gt * r2 == g * t * r2) by (nonlinear_arith)
        requires
            gt == g * t,
    ;
    // the second element
    lemma_cong_mul(k01, ga, n1);
    lemma_cong_mul(k11, gat, n2);
    lemma_cong_add(k01 * n1, ga * n1, k11 * n2, gat * n2);
    lemma_cong_add(x2, x2, k01 * n1 + k11 * n2, ga * n1 + gat * n2);
    lemma_cong_mul(k01, ga, r1);
    lemma_cong_mul(k11, gat, r2);
    lemma_cong_add(k01 * r1, ga * r1, k11 * r2, gat * r2);
    lemma_cong_sub(x2, x2, k * g, x2 - x1);
    lemma_cong_add(x2 - k * g, x1, ga * r1 + gat * r2, ga * r1 + gat * r2);
    lemma_cong_add(x1, x1, k01 * r1 + k11 * r2, ga * r1 + gat * r2);
    assert(ga * n1 == g * a * (r1 - t * k)) by (nonlinear_arith)
        requires
            ga == g * a,
            n1 == r1 - t * k,
    ;
    assert(gat * n2 == g * (a * t - 1) * (r2 + k)) by (nonlinear_arith)
        requires
            gat == g * (a * t - 1),
            n2 == r2 + k,
    ;
    assert(ga * r1 == g * a * r1) by (nonlinear_arith)
        requires
            ga == g * a,
    ;
    assert(gat * r2 == g * (a * t - 1) * r2) by (nonlinear_arith)
        requires
            gat == g * (a * t - 1),
    ;
}

impl<G: SourceGroup> CommitmentKey<G> {
    /// The commitment `(r1 u11 + r2 u21, x + r1 u12 + r2 u22)` to the variable
    /// `x` with coins `(r1, r2)`.
    pub fn commit(&self, x: &Variable<G>) -> (r: Com<G>)
        ensures
            r.0.log() == com_first(*self, x.rand.0@, x.rand.1@),
            r.1.log() == com_second(*self, x.value.log(), x.rand.0@, x.rand.1@),
    {
        let r1 = x.rand.0;
        let r2 = x.rand.1;
        let a = self.0.0.times(&r1).plus(&self.1.0.times(&r2));
        let b = self.0.1.times(&r1).plus(&self.1.1.times(&r2));
        let c = Com(a, x.value.plus(&b));
        proof {
            lemma_md_add(self.0.0.log() * r1@, self.1.0.log() * r2@);
            lemma_md_add(self.0.1.log() * r1@, self.1.1.log() * r2@);
            lemma_md_add(x.value.log(), self.0.1.log() * r1@ + self.1.1.log() * r2@);
        }
        c
    }
}

} // verus!

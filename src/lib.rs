//! Groth-Sahai non-interactive proofs for pairing product equations over
//! BLS12-381, with SXDH commitments: setup of the commitment keys, proving,
//! verification, randomization of proofs, homomorphic addition of proof
//! systems, and extraction under the binding setup.
pub mod com;
pub mod completeness;
pub mod commit;
pub mod equation;
pub mod extract;
pub mod group;
pub mod matrix;
pub mod prove;
pub mod randomness;
pub mod sums;
pub mod variable;

pub use com::Com;
pub use commit::{CommitmentKey, CommitmentKeys};
pub use equation::Equation;
pub use extract::ExtractKey;
pub use group::{G1Point, G2Point, Gt, Scalar, SourceGroup};
pub use matrix::Matrix;
pub use prove::Proof;
pub use randomness::Randomness;
pub use variable::Variable;

use vstd::prelude::*;
use ark_std::rand::rngs::StdRng;
use crate::commit::{com_first, com_second};
use crate::group::{lemma_cong_add, lemma_md_md, md};
use crate::completeness::{lemma_honest_proof_verifies, lemma_randomized_verifies, lemma_sum_verifies, target_for};
use crate::equation::{checks_hold, shapes_fit};
use crate::prove::{is_adapted_with, is_proof_with, values};
use crate::sums::{bilt, col_dot, dot, lemma_prod_cong, logs};

verus! {

/// The proof system for one pairing product equation: the equation, the
/// commitments `c` to its `x` and `d` to its `y`, and the proof.
pub struct ProofSystem {
    pub equation: Equation,
    pub c: Vec<Com<G1Point>>,
    pub d: Vec<Com<G2Point>>,
    pub proof: Proof,
}

/// The logarithms of the constants `a` of `ay`.
pub open spec fn a_logs(ay: Seq<(G1Point, Variable<G2Point>)>) -> Seq<int> {
    ay.map_values(|p: (G1Point, Variable<G2Point>)| p.0@)
}

/// The logarithms of the values of the variables `y` of `ay`.
pub open spec fn y_logs(ay: Seq<(G1Point, Variable<G2Point>)>) -> Seq<int> {
    ay.map_values(|p: (G1Point, Variable<G2Point>)| p.1.value@)
}

/// The logarithms of the values of the variables `x` of `xb`.
pub open spec fn x_logs(xb: Seq<(Variable<G1Point>, G2Point)>) -> Seq<int> {
    xb.map_values(|p: (Variable<G1Point>, G2Point)| p.0.value@)
}

/// The logarithms of the constants `b` of `xb`.
pub open spec fn b_logs(xb: Seq<(Variable<G1Point>, G2Point)>) -> Seq<int> {
    xb.map_values(|p: (Variable<G1Point>, G2Point)| p.1@)
}

/// The target `prod e(a, y) * prod e(x, b) * prod e(x, y)^gamma` that the
/// witnesses give, as a discrete logarithm.
pub open spec fn target_model(
    ay: Seq<(G1Point, Variable<G2Point>)>,
    xb: Seq<(Variable<G1Point>, G2Point)>,
    gamma: Matrix<Scalar>,
) -> int {
    dot(a_logs(ay), y_logs(ay), ay.len()) + dot(x_logs(xb), b_logs(xb), xb.len()) + bilt(
        gamma,
        x_logs(xb),
        y_logs(ay),
        xb.len(),
        ay.len(),
    )
}

/// The variables `x` of `xb`.
pub open spec fn xs_of(xb: Seq<(Variable<G1Point>, G2Point)>) -> Seq<Variable<G1Point>> {
    xb.map_values(|p: (Variable<G1Point>, G2Point)| p.0)
}

/// The variables `y` of `ay`.
pub open spec fn ys_of(ay: Seq<(G1Point, Variable<G2Point>)>) -> Seq<Variable<G2Point>> {
    ay.map_values(|p: (G1Point, Variable<G2Point>)| p.1)
}

/// `e(a, b)`, `e(a, b)^k`.
fn pair_term(a: &G1Point, b: &G2Point, k: &Scalar) -> (r: Gt)
    ensures
        md(r@) == md(a@ * b@ * k@),
{
    let r = Gt::pairing(a, b).times(k);
    proof {
        lemma_md_md(a@ * b@);
        lemma_prod_cong(k@, md(a@ * b@), a@ * b@);
        lemma_md_md(md(md(a@ * b@) * k@));
    }
    r
}

/// The target of the equation that the witnesses satisfy.
fn target_of(
    ay: &[(G1Point, Variable<G2Point>)],
    xb: &[(Variable<G1Point>, G2Point)],
    gamma: &Matrix<Scalar>,
) -> (t: Gt)
    requires
        gamma.wf(),
        gamma.nrows() == xb@.len(),
        gamma.ncols() == ay@.len(),
    ensures
        t@ == md(target_model(ay@, xb@, *gamma)),
{
    let one = Scalar::one();
    let mut ay_sum = Gt::zero();
    let mut j: usize = 0;
    proof {
        assert(dot(a_logs(ay@), y_logs(ay@), 0) == 0);
        lemma_md_md(0);
    }
    while j < ay.len()
        invariant
            j <= ay@.len(),
            one@ == 1,
            ay_sum@ == md(dot(a_logs(ay@), y_logs(ay@), j as nat)),
        decreases ay@.len() - j,
    {
        let term = pair_term(&ay[j].0, &ay[j].1.value, &one);
        proof {
            let s = dot(a_logs(ay@), y_logs(ay@), j as nat);
            let t = ay@[j as int].0@ * ay@[j as int].1.value@;
            assert(dot(a_logs(ay@), y_logs(ay@), (j + 1) as nat) == s + t);
            assert(t * 1 == t);
            lemma_md_md(s);
            lemma_cong_add(ay_sum@, s, term@, t);
        }
        ay_sum = ay_sum.plus(&term);
        j = j + 1;
    }
    let mut xb_sum = Gt::zero();
    let mut i: usize = 0;
    proof {
        assert(dot(x_logs(xb@), b_logs(xb@), 0) == 0);
    }
    while i < xb.len()
        invariant
            i <= xb@.len(),
            one@ == 1,
            xb_sum@ == md(dot(x_logs(xb@), b_logs(xb@), i as nat)),
        decreases xb@.len() - i,
    {
        let term = pair_term(&xb[i].0.value, &xb[i].1, &one);
        proof {
            let s = dot(x_logs(xb@), b_logs(xb@), i as nat);
            let t = xb@[i as int].0.value@ * xb@[i as int].1@;
            assert(dot(x_logs(xb@), b_logs(xb@), (i + 1) as nat) == s + t);
            assert(t * 1 == t);
            lemma_md_md(s);
            lemma_cong_add(xb_sum@, s, term@, t);
        }
        xb_sum = xb_sum.plus(&term);
        i = i + 1;
    }
    let mut xy_sum = Gt::zero();
    let mut j: usize = 0;
    proof {
        assert(bilt(*gamma, x_logs(xb@), y_logs(ay@), xb@.len(), 0) == 0);
    }
    while j < ay.len()
        invariant
            gamma.wf(),
            gamma.nrows() == xb@.len(),
            gamma.ncols() == ay@.len(),
            j <= ay@.len(),
            xy_sum@ == md(bilt(*gamma, x_logs(xb@), y_logs(ay@), xb@.len(), j as nat)),
        decreases ay@.len() - j,
    {
        let mut col = Gt::zero();
        let mut i: usize = 0;
        proof {
            assert(col_dot(*gamma, x_logs(xb@), j as int, 0) == 0);
            assert(ay@[j as int].1.value@ * 0 == 0);
            lemma_md_md(0);
        }
        while i < xb.len()
            invariant
                gamma.wf(),
                gamma.nrows() == xb@.len(),
                gamma.ncols() == ay@.len(),
                j < ay@.len(),
                i <= xb@.len(),
                col@ == md(ay@[j as int].1.value@ * col_dot(*gamma, x_logs(xb@), j as int, i as nat)),
            decreases xb@.len() - i,
        {
            let term = pair_term(&xb[i].0.value, &ay[j].1.value, &gamma.get(i, j));
            proof {
                let yj = ay@[j as int].1.value@;
                let cd = col_dot(*gamma, x_logs(xb@), j as int, i as nat);
                let s = yj * cd;
                let xi = xb@[i as int].0.value@;
                let gij = gamma.at(i as int, j as int)@;
                let t = xi * yj * gij;
                assert(col_dot(*gamma, x_logs(xb@), j as int, (i + 1) as nat) == cd + xi * gij);
                assert(yj * (cd + xi * gij) == yj * cd + xi * yj * gij) by (nonlinear_arith);
                lemma_md_md(s);
                lemma_cong_add(col@, s, term@, t);
            }
            col = col.plus(&term);
            i = i + 1;
        }
        proof {
            let s = bilt(*gamma, x_logs(xb@), y_logs(ay@), xb@.len(), j as nat);
            let t = ay@[j as int].1.value@ * col_dot(*gamma, x_logs(xb@), j as int, xb@.len());
            assert(bilt(*gamma, x_logs(xb@), y_logs(ay@), xb@.len(), (j + 1) as nat) == s + t);
            lemma_md_md(s);
            lemma_md_md(t);
            lemma_cong_add(xy_sum@, s, col@, t);
        }
        xy_sum = xy_sum.plus(&col);
        j = j + 1;
    }
    let t = ay_sum.plus(&xb_sum).plus(&xy_sum);
    proof {
        let (p, q, r) = (
            dot(a_logs(ay@), y_logs(ay@), ay@.len()),
            dot(x_logs(xb@), b_logs(xb@), xb@.len()),
            bilt(*gamma, x_logs(xb@), y_logs(ay@), xb@.len(), ay@.len()),
        );
        lemma_md_md(p);
        lemma_md_md(q);
        lemma_md_md(r);
        lemma_cong_add(ay_sum@, p, xb_sum@, q);
        lemma_md_md(p + q);
        lemma_cong_add(md(ay_sum@ + xb_sum@), p + q, xy_sum@, r);
    }
    t
}

/// `new` is `old` with each commitment randomized with the fresh coins of
/// `cr` (and `ds`), which also hold the commitments as they were, and the
/// proof adapted to them by `RdProof` with the matrix `z`.
pub open spec fn is_randomized(
    new: ProofSystem,
    old: ProofSystem,
    cks: CommitmentKeys,
    cr: Seq<com::ComRandomness<G1Point>>,
    ds: Seq<com::ComRandomness<G2Point>>,
    z: Matrix<Scalar>,
) -> bool {
    &&& new.equation == old.equation
    &&& cr.len() == old.c@.len() && new.c@.len() == old.c@.len()
    &&& ds.len() == old.d@.len() && new.d@.len() == old.d@.len()
    &&& forall|i: int| 0 <= i < cr.len() ==> {
        &&& (#[trigger] cr[i]).0 == old.c@[i]
        &&& new.c@[i].0@ == md(old.c@[i].0@ + cks.u.0.0@ * cr[i].1.0@ + cks.u.1.0@ * cr[i].1.1@)
        &&& new.c@[i].1@ == md(old.c@[i].1@ + cks.u.0.1@ * cr[i].1.0@ + cks.u.1.1@ * cr[i].1.1@)
    }
    &&& forall|j: int| 0 <= j < ds.len() ==> {
        &&& (#[trigger] ds[j]).0 == old.d@[j]
        &&& new.d@[j].0@ == md(old.d@[j].0@ + cks.v.0.0@ * ds[j].1.0@ + cks.v.1.0@ * ds[j].1.1@)
        &&& new.d@[j].1@ == md(old.d@[j].1@ + cks.v.0.1@ * ds[j].1.0@ + cks.v.1.1@ * ds[j].1.1@)
    }
    &&& z.wf() && z.nrows() == 2 && z.ncols() == 2
    &&& is_adapted_with(new.proof, old.proof, cks, old.equation, cr, ds, z)
}

/// `r` is the homomorphic sum of `a` and `b`: the composed equation (the
/// constants of both one after the other, the block-diagonal exponents, the
/// sum of the targets), the commitments of both one after the other, and the
/// entrywise sum of the proofs.
pub open spec fn is_sum(r: ProofSystem, a: ProofSystem, b: ProofSystem) -> bool {
    &&& r.equation.wf()
    &&& r.equation.gamma.nrows() == a.equation.gamma.nrows() + b.equation.gamma.nrows()
    &&& r.equation.gamma.ncols() == a.equation.gamma.ncols() + b.equation.gamma.ncols()
    &&& r.equation.a@ == a.equation.a@ + b.equation.a@
    &&& r.equation.b@ == a.equation.b@ + b.equation.b@
    &&& r.equation.target@ == md(a.equation.target@ + b.equation.target@)
    &&& matrix::is_block_diag(r.equation.gamma, a.equation.gamma, b.equation.gamma)
    &&& r.c@ == a.c@ + b.c@
    &&& r.d@ == a.d@ + b.d@
    &&& r.proof.is_square()
    &&& forall|p: int, k: int| 0 <= p < 2 && 0 <= k < 2 ==> {
        &&& (#[trigger] r.proof.phi.at(p, k))@ == md(a.proof.phi.at(p, k)@ + b.proof.phi.at(p, k)@)
        &&& r.proof.theta.at(p, k)@ == md(a.proof.theta.at(p, k)@ + b.proof.theta.at(p, k)@)
    }
}

/// Sets up the proof system for the equation
/// `prod e(a, y) * prod e(x, b) * prod e(x, y)^gamma = T` whose target `T`
/// the witnesses give: the equation, the commitments to `x` and `y`, and the
/// proof. `gamma` must be `xb.len() x ay.len()`.
pub fn setup(
    rng: &mut StdRng,
    cks: &CommitmentKeys,
    ay: &[(G1Point, Variable<G2Point>)],
    xb: &[(Variable<G1Point>, G2Point)],
    gamma: &Matrix<Scalar>,
) -> (ps: ProofSystem)
    requires
        gamma.wf(),
        gamma.nrows() == xb@.len(),
        gamma.ncols() == ay@.len(),
    ensures
        ps.equation.wf(),
        ps.equation.a@ == ay@.map_values(|p: (G1Point, Variable<G2Point>)| p.0),
        ps.equation.b@ == xb@.map_values(|p: (Variable<G1Point>, G2Point)| p.1),
        ps.equation.gamma.entries() == gamma.entries(),
        ps.equation.target@ == md(target_model(ay@, xb@, ps.equation.gamma)),
        ps.c@.len() == xb@.len(),
        forall|i: int| 0 <= i < xb@.len() ==> {
            let x = #[trigger] xb@[i].0;
            &&& ps.c@[i].0@ == com_first(cks.u, x.rand.0@, x.rand.1@)
            &&& ps.c@[i].1@ == com_second(cks.u, x.value@, x.rand.0@, x.rand.1@)
        },
        ps.d@.len() == ay@.len(),
        forall|j: int| 0 <= j < ay@.len() ==> {
            let y = #[trigger] ay@[j].1;
            &&& ps.d@[j].0@ == com_first(cks.v, y.rand.0@, y.rand.1@)
            &&& ps.d@[j].1@ == com_second(cks.v, y.value@, y.rand.0@, y.rand.1@)
        },
        exists|z: Matrix<Scalar>|
            z.wf() && z.nrows() == 2 && z.ncols() == 2
                && #[trigger] is_proof_with(ps.proof, *cks, ps.equation, xs_of(xb@), ys_of(ay@), z),
        shapes_fit(ps.equation, ps.c@, ps.d@, ps.proof),
        checks_hold(ps.equation, *cks, ps.c@, ps.d@, ps.proof),
{
    let gamma_copy = gamma.clone();
    let target = target_of(ay, xb, &gamma_copy);
    let mut a: Vec<G1Point> = Vec::new();
    let mut y: Vec<Variable<G2Point>> = Vec::new();
    let mut d: Vec<Com<G2Point>> = Vec::new();
    let mut j: usize = 0;
    while j < ay.len()
        invariant
            j <= ay@.len(),
            a@ =~= ay@.map_values(|p: (G1Point, Variable<G2Point>)| p.0).subrange(0, j as int),
            y@ =~= ys_of(ay@).subrange(0, j as int),
            d@.len() == j,
            forall|k: int| 0 <= k < j ==> {
                let y = #[trigger] ay@[k].1;
                &&& d@[k].0@ == com_first(cks.v, y.rand.0@, y.rand.1@)
                &&& d@[k].1@ == com_second(cks.v, y.value@, y.rand.0@, y.rand.1@)
            },
        decreases ay@.len() - j,
    {
        a.push(ay[j].0);
        y.push(ay[j].1);
        d.push(cks.v.commit(&ay[j].1));
        j = j + 1;
    }
    let mut b: Vec<G2Point> = Vec::new();
    let mut x: Vec<Variable<G1Point>> = Vec::new();
    let mut c: Vec<Com<G1Point>> = Vec::new();
    let mut i: usize = 0;
    while i < xb.len()
        invariant
            i <= xb@.len(),
            b@ =~= xb@.map_values(|p: (Variable<G1Point>, G2Point)| p.1).subrange(0, i as int),
            x@ =~= xs_of(xb@).subrange(0, i as int),
            c@.len() == i,
            forall|k: int| 0 <= k < i ==> {
                let x = #[trigger] xb@[k].0;
                &&& c@[k].0@ == com_first(cks.u, x.rand.0@, x.rand.1@)
                &&& c@[k].1@ == com_second(cks.u, x.value@, x.rand.0@, x.rand.1@)
            },
        decreases xb@.len() - i,
    {
        b.push(xb[i].1);
        x.push(xb[i].0);
        c.push(cks.u.commit(&xb[i].0));
        i = i + 1;
    }
    assert(a@ =~= ay@.map_values(|p: (G1Point, Variable<G2Point>)| p.0));
    assert(b@ =~= xb@.map_values(|p: (Variable<G1Point>, G2Point)| p.1));
    assert(x@ =~= xs_of(xb@));
    assert(y@ =~= ys_of(ay@));
    let equation = Equation::new(a, b, gamma_copy, target);
    let proof = Proof::new(rng, cks, &equation, x.as_slice(), y.as_slice());
    let ghost z = choose|z: Matrix<Scalar>|
        z.wf() && z.nrows() == 2 && z.ncols() == 2 && #[trigger] is_proof_with(proof, *cks, equation, x@, y@, z);
    let ps = ProofSystem { equation, c, d, proof };
    assert(is_proof_with(ps.proof, *cks, ps.equation, xs_of(xb@), ys_of(ay@), z));
    proof {
        let e = ps.equation;
        let (xs, ys) = (xs_of(xb@), ys_of(ay@));
        assert(logs(e.a@) =~= a_logs(ay@));
        assert(logs(e.b@) =~= b_logs(xb@));
        assert(logs(values(xs)) =~= x_logs(xb@));
        assert(logs(values(ys)) =~= y_logs(ay@));
        assert(target_for(e, values(xs), values(ys)) == target_model(ay@, xb@, gamma_copy));
        lemma_honest_proof_verifies(*cks, e, xs, ys, ps.c@, ps.d@, z, ps.proof);
    }
    ps
}

impl ProofSystem {
    /// Randomizes the commitments `c` and `d` with fresh coins (`RdCom`) and
    /// adapts the proof to them (`RdProof`).
    pub fn randomize(self, rng: &mut StdRng, cks: &CommitmentKeys) -> (r: ProofSystem)
        requires
            self.equation.wf(),
            self.proof.is_square(),
            self.c@.len() == self.equation.b@.len(),
            self.d@.len() == self.equation.a@.len(),
        ensures
            exists|cr: Seq<com::ComRandomness<G1Point>>, ds: Seq<com::ComRandomness<G2Point>>, z: Matrix<Scalar>|
                #[trigger] is_randomized(r, self, *cks, cr, ds, z),
            shapes_fit(self.equation, self.c@, self.d@, self.proof) && checks_hold(
                self.equation,
                *cks,
                self.c@,
                self.d@,
                self.proof,
            ) ==> shapes_fit(r.equation, r.c@, r.d@, r.proof) && checks_hold(r.equation, *cks, r.c@, r.d@, r.proof),
    {
        let ghost old_ps = self;
        let ProofSystem { equation, mut c, mut d, mut proof } = self;
        let mut cr: Vec<com::ComRandomness<G1Point>> = Vec::new();
        let mut i: usize = 0;
        while i < c.len()
            invariant
                c@.len() == old_ps.c@.len(),
                i <= c@.len(),
                cr@.len() == i,
                forall|k: int| i <= k < c@.len() ==> c@[k] == old_ps.c@[k],
                forall|k: int| 0 <= k < i ==> {
                    &&& (#[trigger] cr@[k]).0 == old_ps.c@[k]
                    &&& c@[k].0@ == md(old_ps.c@[k].0@ + cks.u.0.0@ * cr@[k].1.0@ + cks.u.1.0@ * cr@[k].1.1@)
                    &&& c@[k].1@ == md(old_ps.c@[k].1@ + cks.u.0.1@ * cr@[k].1.0@ + cks.u.1.1@ * cr@[k].1.1@)
                },
            decreases c@.len() - i,
        {
            let mut ci = c[i];
            let fresh = ci.randomize(rng, &cks.u);
            c.set(i, ci);
            cr.push(fresh);
            i = i + 1;
        }
        let mut ds: Vec<com::ComRandomness<G2Point>> = Vec::new();
        let mut j: usize = 0;
        while j < d.len()
            invariant
                d@.len() == old_ps.d@.len(),
                j <= d@.len(),
                ds@.len() == j,
                forall|k: int| j <= k < d@.len() ==> d@[k] == old_ps.d@[k],
                forall|k: int| 0 <= k < j ==> {
                    &&& (#[trigger] ds@[k]).0 == old_ps.d@[k]
                    &&& d@[k].0@ == md(old_ps.d@[k].0@ + cks.v.0.0@ * ds@[k].1.0@ + cks.v.1.0@ * ds@[k].1.1@)
                    &&& d@[k].1@ == md(old_ps.d@[k].1@ + cks.v.0.1@ * ds@[k].1.0@ + cks.v.1.1@ * ds@[k].1.1@)
                },
            decreases d@.len() - j,
        {
            let mut dj = d[j];
            let fresh = dj.randomize(rng, &cks.v);
            d.set(j, dj);
            ds.push(fresh);
            j = j + 1;
        }
        let z = Matrix::<Scalar>::rand(rng, 2, 2);
        proof.randomize_with(&z, cks, &equation, cr.as_slice(), ds.as_slice());
        let r = ProofSystem { equation, c, d, proof };
        assert(is_randomized(r, old_ps, *cks, cr@, ds@, z));
        proof {
            if shapes_fit(old_ps.equation, old_ps.c@, old_ps.d@, old_ps.proof) && checks_hold(
                old_ps.equation,
                *cks,
                old_ps.c@,
                old_ps.d@,
                old_ps.proof,
            ) {
                lemma_randomized_verifies(*cks, r, old_ps, cr@, ds@, z);
            }
        }
        r
    }

    /// The homomorphic sum (section 7.2 of Fuchsbauer's paper): the composed
    /// equation, the commitments of both one after the other, and the sum of
    /// the proofs.
    pub fn add(self, other: ProofSystem) -> (r: ProofSystem)
        requires
            self.equation.wf(),
            other.equation.wf(),
            self.proof.is_square(),
            other.proof.is_square(),
            self.equation.a@.len() + other.equation.a@.len() <= usize::MAX,
            self.equation.b@.len() + other.equation.b@.len() <= usize::MAX,
        ensures
            is_sum(r, self, other),
            forall|cks: CommitmentKeys|
                shapes_fit(self.equation, self.c@, self.d@, self.proof) && checks_hold(
                    self.equation,
                    cks,
                    self.c@,
                    self.d@,
                    self.proof,
                ) && shapes_fit(other.equation, other.c@, other.d@, other.proof) && checks_hold(
                    other.equation,
                    cks,
                    other.c@,
                    other.d@,
                    other.proof,
                ) ==> shapes_fit(r.equation, r.c@, r.d@, r.proof) && #[trigger] checks_hold(
                    r.equation,
                    cks,
                    r.c@,
                    r.d@,
                    r.proof,
                ),
    {
        let ProofSystem { equation, mut c, mut d, proof } = self;
        let ProofSystem { equation: equation2, c: mut c2, d: mut d2, proof: proof2 } = other;
        let equation = equation.add(equation2);
        c.append(&mut c2);
        d.append(&mut d2);
        let proof = proof.add(proof2);
        let r = ProofSystem { equation, c, d, proof };
        assert forall|cks: CommitmentKeys|
            shapes_fit(self.equation, self.c@, self.d@, self.proof) && checks_hold(
                self.equation,
                cks,
                self.c@,
                self.d@,
                self.proof,
            ) && shapes_fit(other.equation, other.c@, other.d@, other.proof) && checks_hold(
                other.equation,
                cks,
                other.c@,
                other.d@,
                other.proof,
            ) implies shapes_fit(r.equation, r.c@, r.d@, r.proof) && #[trigger] checks_hold(
                r.equation,
                cks,
                r.c@,
                r.d@,
                r.proof,
            ) by {
            lemma_sum_verifies(cks, r, self, other);
        }
        r
    }
}

} // verus!

//! Pairing product equations, their composition, and the verification of
//! proofs for them.
use vstd::prelude::*;
use crate::com::Com;
use crate::commit::{CommitmentKey, CommitmentKeys};
use crate::group::{
    lemma_cong_add, lemma_md_add, lemma_md_md, md, G1Point, G2Point, Gt, Scalar, SourceGroup,
};
use crate::matrix::{is_block_diag, Matrix};
use crate::prove::Proof;
use crate::sums::{bil, bilt, col_dot, dot, lemma_prod_cong, logs, row_dot};

verus! {

/// The pairing product equation
/// `prod_j e(a_j, y_j) * prod_i e(x_i, b_i) * prod_ij e(x_i, y_j)^gamma_ij = target`
/// in the unknowns `x` (in G1, `m` of them) and `y` (in G2, `n` of them).
pub struct Equation {
    /// The constants `a`, one for each `y`.
    pub a: Vec<G1Point>,
    /// The constants `b`, one for each `x`.
    pub b: Vec<G2Point>,
    /// The exponents, `m x n`.
    pub gamma: Matrix<Scalar>,
    pub target: Gt,
}

impl Equation {
    /// `gamma` is `m x n`, where `m` is the length of `b` and `n` that of `a`.
    pub open spec fn wf(&self) -> bool {
        &&& self.gamma.wf()
        &&& self.gamma.nrows() == self.b@.len()
        &&& self.gamma.ncols() == self.a@.len()
    }

    /// The exponent `gamma_ij`.
    pub open spec fn gam(&self, i: int, j: int) -> int {
        self.gamma.at(i, j)@
    }
}

/// The element `k` (0 or 1) of a commitment.
pub open spec fn part<G: SourceGroup>(c: Com<G>, k: int) -> int {
    if k == 0 {
        c.0.log()
    } else {
        c.1.log()
    }
}

/// The elements `k` of a sequence of commitments.
pub open spec fn com_logs<G: SourceGroup>(c: Seq<Com<G>>, k: int) -> Seq<int> {
    c.map_values(|x: Com<G>| part(x, k))
}

/// `sum_{j < len} gamma_ij d_jk`.
pub open spec fn d_comb(e: Equation, d: Seq<Com<G2Point>>, i: int, k: int, len: nat) -> int {
    row_dot(e.gamma, com_logs(d, k), i, len)
}

/// `sum_{i < len} gamma_ij c_ik`.
pub open spec fn c_comb(e: Equation, c: Seq<Com<G1Point>>, j: int, k: int, len: nat) -> int {
    col_dot(e.gamma, com_logs(c, k), j, len)
}

/// `b_i + sum_j gamma_ij d_j2`.
pub open spec fn b_d(e: Equation, d: Seq<Com<G2Point>>, i: int) -> int {
    e.b@[i]@ + d_comb(e, d, i, 1, d.len())
}

/// The left side of the first check, over the first `len` commitments `c`:
/// `sum_i e(c_i1, sum_j gamma_ij d_j1)`.
pub open spec fn lhs_1(e: Equation, c: Seq<Com<G1Point>>, d: Seq<Com<G2Point>>, len: nat) -> int {
    bil(e.gamma, com_logs(c, 0), com_logs(d, 0), len, d.len())
}

/// `sum_i e(c_ik, b_i + sum_j gamma_ij d_j2)`, the left side of the second
/// check for `k = 0` and a part of that of the fourth one for `k = 1`.
pub open spec fn lhs_c_bd(e: Equation, c: Seq<Com<G1Point>>, d: Seq<Com<G2Point>>, k: int, len: nat) -> int {
    dot(com_logs(c, k), logs(e.b@), len) + bil(e.gamma, com_logs(c, k), com_logs(d, 1), len, d.len())
}

/// The left side of the third check: `sum_j e(a_j + sum_i gamma_ij c_i2, d_j1)`.
pub open spec fn lhs_3(e: Equation, c: Seq<Com<G1Point>>, d: Seq<Com<G2Point>>, len: nat) -> int {
    dot(logs(e.a@), com_logs(d, 0), len) + bilt(e.gamma, com_logs(c, 1), com_logs(d, 0), c.len(), len)
}

/// `sum_j e(a_j, d_j2)`, a part of the left side of the fourth check.
pub open spec fn lhs_a_d(e: Equation, d: Seq<Com<G2Point>>, len: nat) -> int {
    dot(logs(e.a@), com_logs(d, 1), len)
}

/// The element `p` of the row `row` of a commitment key.
pub open spec fn key<G: SourceGroup>(k: CommitmentKey<G>, row: int, p: int) -> int {
    if row == 0 {
        if p == 0 { k.0.0.log() } else { k.0.1.log() }
    } else {
        if p == 0 { k.1.0.log() } else { k.1.1.log() }
    }
}

/// The right side of the check `(p, q)` without the target:
/// `e(u_1p, phi_1q) + e(u_2p, phi_2q) + e(theta_1p, v_1q) + e(theta_2p, v_2q)`.
pub open spec fn rhs(cks: CommitmentKeys, pi: Proof, p: int, q: int) -> int {
    key(cks.u, 0, p) * pi.phi.at(0, q)@ + key(cks.u, 1, p) * pi.phi.at(1, q)@
        + pi.theta.at(0, p)@ * key(cks.v, 0, q) + pi.theta.at(1, p)@ * key(cks.v, 1, q)
}

/// The shapes that verification asks for: `gamma` is `m x n`, there are `n`
/// constants `a` and commitments `d`, `m` constants `b` and commitments `c`,
/// and both halves of the proof are 2 x 2.
pub open spec fn shapes_fit(e: Equation, c: Seq<Com<G1Point>>, d: Seq<Com<G2Point>>, pi: Proof) -> bool {
    &&& e.wf()
    &&& c.len() == e.b@.len()
    &&& d.len() == e.a@.len()
    &&& pi.phi.wf() && pi.phi.nrows() == 2 && pi.phi.ncols() == 2
    &&& pi.theta.wf() && pi.theta.nrows() == 2 && pi.theta.ncols() == 2
}

/// The four pairing product checks of verification hold.
pub open spec fn checks_hold(
    e: Equation,
    cks: CommitmentKeys,
    c: Seq<Com<G1Point>>,
    d: Seq<Com<G2Point>>,
    pi: Proof,
) -> bool {
    &&& md(lhs_1(e, c, d, c.len())) == md(rhs(cks, pi, 0, 0))
    &&& md(lhs_c_bd(e, c, d, 0, c.len())) == md(rhs(cks, pi, 0, 1))
    &&& md(lhs_3(e, c, d, d.len())) == md(rhs(cks, pi, 1, 0))
    &&& md(lhs_a_d(e, d, d.len()) + lhs_c_bd(e, c, d, 1, c.len())) == md(e.target@ + rhs(cks, pi, 1, 1))
}

/// The element `k` of a commitment.
fn part_of<G: SourceGroup>(c: &Com<G>, k: usize) -> (r: G)
    requires
        k < 2,
    ensures
        r.log() == part(*c, k as int),
{
    if k == 0 {
        c.0
    } else {
        c.1
    }
}

/// The element `p` of the row `row` of a commitment key.
fn key_at<G: SourceGroup>(k: &CommitmentKey<G>, row: usize, p: usize) -> (r: G)
    requires
        row < 2,
        p < 2,
    ensures
        r.log() == key(*k, row as int, p as int),
{
    if row == 0 {
        if p == 0 { k.0.0 } else { k.0.1 }
    } else {
        if p == 0 { k.1.0 } else { k.1.1 }
    }
}

/// The right side of the check `(p, q)` without the target.
fn rhs_of(cks: &CommitmentKeys, pi: &Proof, p: usize, q: usize) -> (r: Gt)
    requires
        p < 2,
        q < 2,
        pi.phi.wf() && pi.phi.nrows() == 2 && pi.phi.ncols() == 2,
        pi.theta.wf() && pi.theta.nrows() == 2 && pi.theta.ncols() == 2,
    ensures
        r@ == md(rhs(*cks, *pi, p as int, q as int)),
{
    let u0 = key_at(&cks.u, 0, p);
    let u1 = key_at(&cks.u, 1, p);
    let v0 = key_at(&cks.v, 0, q);
    let v1 = key_at(&cks.v, 1, q);
    let x1 = Gt::pairing(&u0, &pi.phi.get(0, q));
    let x2 = Gt::pairing(&u1, &pi.phi.get(1, q));
    let x3 = Gt::pairing(&pi.theta.get(0, p), &v0);
    let x4 = Gt::pairing(&pi.theta.get(1, p), &v1);
    let r = x1.plus(&x2).plus(&x3).plus(&x4);
    proof {
        let (t1, t2, t3, t4) = (
            u0.log() * pi.phi.at(0, q as int)@,
            u1.log() * pi.phi.at(1, q as int)@,
            pi.theta.at(0, p as int)@ * v0.log(),
            pi.theta.at(1, p as int)@ * v1.log(),
        );
        lemma_md_md(t1);
        lemma_md_md(t2);
        lemma_md_md(t3);
        lemma_md_md(t4);
        lemma_cong_add(x1@, t1, x2@, t2);
        lemma_md_md(t1 + t2);
        lemma_cong_add(md(x1@ + x2@), t1 + t2, x3@, t3);
        lemma_md_md(t1 + t2 + t3);
        lemma_cong_add(md(md(x1@ + x2@) + x3@), t1 + t2 + t3, x4@, t4);
    }
    r
}

impl Equation {
    /// The equation with constants `a`, `b`, exponents `gamma` and target
    /// `target`; `gamma` must be `b.len() x a.len()`.
    pub fn new(a: Vec<G1Point>, b: Vec<G2Point>, gamma: Matrix<Scalar>, target: Gt) -> (r: Equation)
        requires
            gamma.wf(),
            gamma.nrows() == b@.len(),
            gamma.ncols() == a@.len(),
        ensures
            r.wf(),
            r.a == a,
            r.b == b,
            r.gamma == gamma,
            r.target == target,
    {
        Equation { a, b, gamma, target }
    }

    /// `sum_j gamma_ij d_jk`.
    fn d_product(&self, d: &[Com<G2Point>], i: usize, k: usize) -> (r: G2Point)
        requires
            self.wf(),
            d@.len() == self.a@.len(),
            i < self.b@.len(),
            k < 2,
        ensures
            r@ == md(d_comb(*self, d@, i as int, k as int, d@.len())),
    {
        let mut acc = G2Point::identity();
        let mut j: usize = 0;
        proof {
            assert(d_comb(*self, d@, i as int, k as int, 0) == 0);
            lemma_md_md(0);
        }
        while j < d.len()
            invariant
                self.wf(),
                d@.len() == self.a@.len(),
                i < self.b@.len(),
                k < 2,
                j <= d@.len(),
                acc@ == md(d_comb(*self, d@, i as int, k as int, j as nat)),
            decreases d@.len() - j,
        {
            let term = part_of(&d[j], k).times(&self.gamma.get(i, j));
            proof {
                let s = d_comb(*self, d@, i as int, k as int, j as nat);
                let t = part(d@[j as int], k as int) * self.gam(i as int, j as int);
                assert(d_comb(*self, d@, i as int, k as int, (j + 1) as nat) == s + t);
                lemma_md_md(s);
                lemma_md_md(t);
                lemma_cong_add(acc@, s, term@, t);
            }
            acc = acc.plus(&term);
            j = j + 1;
        }
        acc
    }

    /// `sum_i gamma_ij c_ik`.
    fn c_product(&self, c: &[Com<G1Point>], j: usize, k: usize) -> (r: G1Point)
        requires
            self.wf(),
            c@.len() == self.b@.len(),
            j < self.a@.len(),
            k < 2,
        ensures
            r@ == md(c_comb(*self, c@, j as int, k as int, c@.len())),
    {
        let mut acc = G1Point::identity();
        let mut i: usize = 0;
        proof {
            assert(c_comb(*self, c@, j as int, k as int, 0) == 0);
            lemma_md_md(0);
        }
        while i < c.len()
            invariant
                self.wf(),
                c@.len() == self.b@.len(),
                j < self.a@.len(),
                k < 2,
                i <= c@.len(),
                acc@ == md(c_comb(*self, c@, j as int, k as int, i as nat)),
            decreases c@.len() - i,
        {
            let term = part_of(&c[i], k).times(&self.gamma.get(i, j));
            proof {
                let s = c_comb(*self, c@, j as int, k as int, i as nat);
                let t = part(c@[i as int], k as int) * self.gam(i as int, j as int);
                assert(c_comb(*self, c@, j as int, k as int, (i + 1) as nat) == s + t);
                lemma_md_md(s);
                lemma_md_md(t);
                lemma_cong_add(acc@, s, term@, t);
            }
            acc = acc.plus(&term);
            i = i + 1;
        }
        acc
    }

    /// `b_i + sum_j gamma_ij d_j2` for each `i`, computed once for the second
    /// and the fourth check.
    fn b_plus_d(&self, d: &[Com<G2Point>]) -> (r: Vec<G2Point>)
        requires
            self.wf(),
            d@.len() == self.a@.len(),
        ensures
            r@.len() == self.b@.len(),
            forall|i: int| 0 <= i < self.b@.len() ==> (#[trigger] r@[i])@ == md(b_d(*self, d@, i)),
    {
        let mut out: Vec<G2Point> = Vec::new();
        let mut i: usize = 0;
        while i < self.b.len()
            invariant
                self.wf(),
                d@.len() == self.a@.len(),
                i <= self.b@.len(),
                out@.len() == i,
                forall|k: int| 0 <= k < i ==> (#[trigger] out@[k])@ == md(b_d(*self, d@, k)),
            decreases self.b@.len() - i,
        {
            let dp = self.d_product(d, i, 1);
            let t = self.b[i].plus(&dp);
            proof {
                lemma_md_add(self.b@[i as int]@, d_comb(*self, d@, i as int, 1, d@.len()));
            }
            out.push(t);
            i = i + 1;
        }
        out
    }

    /// The left side of the first check.
    fn lhs_first(&self, c: &[Com<G1Point>], d: &[Com<G2Point>]) -> (r: Gt)
        requires
            self.wf(),
            c@.len() == self.b@.len(),
            d@.len() == self.a@.len(),
        ensures
            r@ == md(lhs_1(*self, c@, d@, c@.len())),
    {
        let mut acc = Gt::zero();
        let mut i: usize = 0;
        proof {
            assert(lhs_1(*self, c@, d@, 0) == 0);
            lemma_md_md(0);
        }
        while i < c.len()
            invariant
                self.wf(),
                c@.len() == self.b@.len(),
                d@.len() == self.a@.len(),
                i <= c@.len(),
                acc@ == md(lhs_1(*self, c@, d@, i as nat)),
            decreases c@.len() - i,
        {
            let dp = self.d_product(d, i, 0);
            let term = Gt::pairing(&c[i].0, &dp);
            proof {
                let s = lhs_1(*self, c@, d@, i as nat);
                let dc = d_comb(*self, d@, i as int, 0, d@.len());
                let t = part(c@[i as int], 0) * dc;
                assert(lhs_1(*self, c@, d@, (i + 1) as nat) == s + t);
                lemma_md_md(dc);
                lemma_prod_cong(c@[i as int].0@, dp@, dc);
                lemma_md_md(s);
                lemma_cong_add(acc@, s, term@, t);
            }
            acc = acc.plus(&term);
            i = i + 1;
        }
        acc
    }

    /// `sum_i e(c_ik, bd_i)`, where `bd` holds `b_i + sum_j gamma_ij d_j2`.
    fn lhs_with_bd(&self, c: &[Com<G1Point>], d: &[Com<G2Point>], bd: &Vec<G2Point>, k: usize) -> (r: Gt)
        requires
            self.wf(),
            c@.len() == self.b@.len(),
            d@.len() == self.a@.len(),
            k < 2,
            bd@.len() == self.b@.len(),
            forall|i: int| 0 <= i < self.b@.len() ==> (#[trigger] bd@[i])@ == md(b_d(*self, d@, i)),
        ensures
            r@ == md(lhs_c_bd(*self, c@, d@, k as int, c@.len())),
    {
        let mut acc = Gt::zero();
        let mut i: usize = 0;
        proof {
            assert(lhs_c_bd(*self, c@, d@, k as int, 0) == 0);
            lemma_md_md(0);
        }
        while i < c.len()
            invariant
                self.wf(),
                c@.len() == self.b@.len(),
                d@.len() == self.a@.len(),
                k < 2,
                bd@.len() == self.b@.len(),
                forall|i: int| 0 <= i < self.b@.len() ==> (#[trigger] bd@[i])@ == md(b_d(*self, d@, i)),
                i <= c@.len(),
                acc@ == md(lhs_c_bd(*self, c@, d@, k as int, i as nat)),
            decreases c@.len() - i,
        {
            let term = Gt::pairing(&part_of(&c[i], k), &bd[i]);
            proof {
                let s = lhs_c_bd(*self, c@, d@, k as int, i as nat);
                let x = b_d(*self, d@, i as int);
                let ci = part(c@[i as int], k as int);
                let t = ci * x;
                let bi = self.b@[i as int]@;
                let di = d_comb(*self, d@, i as int, 1, d@.len());
                assert(ci * (bi + di) == ci * bi + ci * di) by (nonlinear_arith);
                assert(lhs_c_bd(*self, c@, d@, k as int, (i + 1) as nat) == s + t);
                lemma_md_md(x);
                lemma_prod_cong(part(c@[i as int], k as int), bd@[i as int]@, x);
                lemma_md_md(s);
                lemma_cong_add(acc@, s, term@, t);
            }
            acc = acc.plus(&term);
            i = i + 1;
        }
        acc
    }

    /// The left side of the third check.
    fn lhs_third(&self, c: &[Com<G1Point>], d: &[Com<G2Point>]) -> (r: Gt)
        requires
            self.wf(),
            c@.len() == self.b@.len(),
            d@.len() == self.a@.len(),
        ensures
            r@ == md(lhs_3(*self, c@, d@, d@.len())),
    {
        let mut acc = Gt::zero();
        let mut j: usize = 0;
        proof {
            assert(lhs_3(*self, c@, d@, 0) == 0);
            lemma_md_md(0);
        }
        while j < d.len()
            invariant
                self.wf(),
                c@.len() == self.b@.len(),
                d@.len() == self.a@.len(),
                j <= d@.len(),
                acc@ == md(lhs_3(*self, c@, d@, j as nat)),
            decreases d@.len() - j,
        {
            let cp = self.c_product(c, j, 1);
            let ac = self.a[j].plus(&cp);
            let term = Gt::pairing(&ac, &d[j].0);
            proof {
                let s = lhs_3(*self, c@, d@, j as nat);
                let x = self.a@[j as int]@ + c_comb(*self, c@, j as int, 1, c@.len());
                let dj = part(d@[j as int], 0);
                let t = x * dj;
                let aj = self.a@[j as int]@;
                let cj = c_comb(*self, c@, j as int, 1, c@.len());
                assert((aj + cj) * dj == aj * dj + dj * cj) by (nonlinear_arith);
                assert(lhs_3(*self, c@, d@, (j + 1) as nat) == s + t);
                lemma_md_add(self.a@[j as int]@, c_comb(*self, c@, j as int, 1, c@.len()));
                lemma_md_md(x);
                lemma_prod_cong(d@[j as int].0@, ac@, x);
                lemma_md_md(s);
                lemma_cong_add(acc@, s, term@, t);
            }
            acc = acc.plus(&term);
            j = j + 1;
        }
        acc
    }

    /// `sum_j e(a_j, d_j2)`.
    fn lhs_a_with_d(&self, d: &[Com<G2Point>]) -> (r: Gt)
        requires
            self.wf(),
            d@.len() == self.a@.len(),
        ensures
            r@ == md(lhs_a_d(*self, d@, d@.len())),
    {
        let mut acc = Gt::zero();
        let mut j: usize = 0;
        proof {
            assert(lhs_a_d(*self, d@, 0) == 0);
            lemma_md_md(0);
        }
        while j < d.len()
            invariant
                self.wf(),
                d@.len() == self.a@.len(),
                j <= d@.len(),
                acc@ == md(lhs_a_d(*self, d@, j as nat)),
            decreases d@.len() - j,
        {
            let term = Gt::pairing(&self.a[j], &d[j].1);
            proof {
                let s = lhs_a_d(*self, d@, j as nat);
                let t = self.a@[j as int]@ * part(d@[j as int], 1);
                assert(lhs_a_d(*self, d@, (j + 1) as nat) == s + t);
                lemma_md_md(t);
                lemma_md_md(s);
                lemma_cong_add(acc@, s, term@, t);
            }
            acc = acc.plus(&term);
            j = j + 1;
        }
        acc
    }

    /// The composition `E + E'`: the constants of both, one after the other,
    /// the block-diagonal `[[gamma, 0], [0, gamma']]`, and the sum of the
    /// targets. It holds for `(x || x', y || y')` when each holds for its own.
    pub fn add(self, rhs: Equation) -> (r: Equation)
        requires
            self.wf(),
            rhs.wf(),
            self.a@.len() + rhs.a@.len() <= usize::MAX,
            self.b@.len() + rhs.b@.len() <= usize::MAX,
        ensures
            r.wf(),
            r.a@ == self.a@ + rhs.a@,
            r.b@ == self.b@ + rhs.b@,
            r.target@ == md(self.target@ + rhs.target@),
            is_block_diag(r.gamma, self.gamma, rhs.gamma),
    {
        let gamma = match self.gamma.block_diag(&rhs.gamma) {
            Ok(g) => g,
            Err(_) => {
                proof {
                    assert(false);
                }
                Matrix::zeros(0, 0)
            },
        };
        let target = self.target.plus(&rhs.target);
        let Equation { mut a, mut b, .. } = self;
        let Equation { a: mut a2, b: mut b2, .. } = rhs;
        a.append(&mut a2);
        b.append(&mut b2);
        Equation { a, b, gamma, target }
    }

    /// Verification `Verify(ck, E, c, d, (phi, theta))`: whether the shapes
    /// fit and the four pairing product checks hold. It returns false on
    /// inputs of the wrong shape and never fails otherwise.
    pub fn verify(&self, cks: &CommitmentKeys, c: &[Com<G1Point>], d: &[Com<G2Point>], proof: &Proof) -> (r: bool)
        ensures
            r == (shapes_fit(*self, c@, d@, *proof) && checks_hold(*self, *cks, c@, d@, *proof)),
    {
        if !self.gamma.is_well_formed() || !proof.phi.is_well_formed() || !proof.theta.is_well_formed() {
            return false;
        }
        let (m, n) = self.gamma.dim();
        let (phi_rows, phi_cols) = proof.phi.dim();
        let (theta_rows, theta_cols) = proof.theta.dim();
        if self.a.len() != n || self.b.len() != m || c.len() != m || d.len() != n || phi_rows != 2
            || phi_cols != 2 || theta_rows != 2 || theta_cols != 2 {
            return false;
        }
        let lhs = self.lhs_first(c, d);
        let right = rhs_of(cks, proof, 0, 0);
        if !lhs.equals(&right) {
            return false;
        }
        let bd = self.b_plus_d(d);
        let lhs = self.lhs_with_bd(c, d, &bd, 0);
        let right = rhs_of(cks, proof, 0, 1);
        if !lhs.equals(&right) {
            return false;
        }
        let lhs = self.lhs_third(c, d);
        let right = rhs_of(cks, proof, 1, 0);
        if !lhs.equals(&right) {
            return false;
        }
        let ad = self.lhs_a_with_d(d);
        let cbd = self.lhs_with_bd(c, d, &bd, 1);
        let lhs = ad.plus(&cbd);
        let right = self.target.plus(&rhs_of(cks, proof, 1, 1));
        proof {
            lemma_md_add(lhs_a_d(*self, d@, d@.len()), lhs_c_bd(*self, c@, d@, 1, c@.len()));
            lemma_md_add(self.target@, rhs(*cks, *proof, 1, 1));
        }
        lhs.equals(&right)
    }
}

} // verus!

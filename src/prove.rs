//! Groth-Sahai proofs for pairing product equations: proving, randomizing
//! and adding proofs.
use vstd::prelude::*;
use ark_std::rand::rngs::StdRng;
use crate::com::ComRandomness;
use crate::commit::{CommitmentKey, CommitmentKeys};
use crate::equation::{key, Equation};
use crate::group::{
    lemma_cong_add, lemma_md_add, lemma_md_md, lemma_md_mul, lemma_md_neg, md, G1Point,
    G2Point, Scalar, SourceGroup,
};
use crate::matrix::Matrix;
use crate::randomness::Randomness;
use crate::sums::{bil, bilt, col_dot, dot, logs, row_dot, vals};
use crate::variable::Variable;

verus! {

/// A proof `(phi, theta)`: a 2 x 2 matrix of G2 points and one of G1 points.
pub struct Proof {
    pub phi: Matrix<G2Point>,
    pub theta: Matrix<G1Point>,
}

impl Clone for Proof {
    fn clone(&self) -> (r: Proof)
        ensures
            r.phi.nrows() == self.phi.nrows() && r.phi.ncols() == self.phi.ncols(),
            r.phi.entries() == self.phi.entries(),
            r.theta.nrows() == self.theta.nrows() && r.theta.ncols() == self.theta.ncols(),
            r.theta.entries() == self.theta.entries(),
    {
        Proof { phi: self.phi.clone(), theta: self.theta.clone() }
    }
}

/// `sum_{k < len} w_k pts_k`.
pub open spec fn lin<G: SourceGroup>(pts: Seq<G>, w: Seq<Scalar>, len: nat) -> int {
    dot(logs(pts), vals(w), len)
}

/// The coins `p` (0 or 1) of each element of `r`.
pub open spec fn coins<G>(r: Seq<Randomness<G>>, p: int) -> Seq<Scalar> {
    r.map_values(|x: Randomness<G>| if p == 0 { x.0 } else { x.1 })
}

/// `sum_{i < len} gamma_ij r_i`.
pub open spec fn col_w(g: Matrix<Scalar>, r: Seq<Scalar>, j: int, len: nat) -> int {
    col_dot(g, vals(r), j, len)
}

/// `sum_{j < len} gamma_ij s_j`.
pub open spec fn row_w(g: Matrix<Scalar>, s: Seq<Scalar>, i: int, len: nat) -> int {
    row_dot(g, vals(s), i, len)
}

/// `sum_{j < len} (sum_i gamma_ij r_i) pts_j`.
pub open spec fn pts_col<G: SourceGroup>(pts: Seq<G>, g: Matrix<Scalar>, r: Seq<Scalar>, len: nat) -> int {
    bilt(g, vals(r), logs(pts), r.len(), len)
}

/// `sum_{i < len} (sum_j gamma_ij s_j) pts_i`.
pub open spec fn pts_row<G: SourceGroup>(pts: Seq<G>, g: Matrix<Scalar>, s: Seq<Scalar>, len: nat) -> int {
    bil(g, logs(pts), vals(s), len, s.len())
}

/// The scalar `t_pq = sum_ij gamma_ij r_ip s_jq`, summed as
/// `sum_j (sum_i gamma_ij r_ip) s_jq`.
pub open spec fn t_model(
    g: Matrix<Scalar>,
    r: Seq<Randomness<G1Point>>,
    s: Seq<Randomness<G2Point>>,
    p: int,
    q: int,
) -> int {
    bilt(g, vals(coins(r, p)), vals(coins(s, q)), r.len(), s.len())
}

/// The entry `(p, k)` of `Z (x) u`: `z_p1 u_1k + z_p2 u_2k`.
pub open spec fn zu_model(u: CommitmentKey<G1Point>, z: Matrix<Scalar>, p: int, k: int) -> int {
    key(u, 0, k) * z.at(p, 0)@ + key(u, 1, k) * z.at(p, 1)@
}

/// The entry `(p, k)` of `Z (x) v`: `-z_1p v_1k - z_2p v_2k`.
pub open spec fn zv_model(v: CommitmentKey<G2Point>, z: Matrix<Scalar>, p: int, k: int) -> int {
    key(v, 0, k) * (-z.at(0, p)@) + key(v, 1, k) * (-z.at(1, p)@)
}

/// `v_1k t_p1 + v_2k t_p2`.
pub open spec fn vt_model(
    v: CommitmentKey<G2Point>,
    g: Matrix<Scalar>,
    r: Seq<Randomness<G1Point>>,
    s: Seq<Randomness<G2Point>>,
    p: int,
    k: int,
) -> int {
    key(v, 0, k) * t_model(g, r, s, p, 0) + key(v, 1, k) * t_model(g, r, s, p, 1)
}

/// The entry `(p, k)` of `phi` made by `Prove` from the values `ys` and the
/// coins `r`, `s`, before `Z (x) v` is added.
pub open spec fn phi_model(
    cks: CommitmentKeys,
    e: Equation,
    ys: Seq<G2Point>,
    r: Seq<Randomness<G1Point>>,
    s: Seq<Randomness<G2Point>>,
    p: int,
    k: int,
) -> int {
    vt_model(cks.v, e.gamma, r, s, p, k) + if k == 0 {
        0
    } else {
        lin(e.b@, coins(r, p), r.len()) + pts_col(ys, e.gamma, coins(r, p), ys.len())
    }
}

/// The entry `(p, k)` of `theta` made by `Prove` from the values `xs` and the
/// coins `s`, before `Z (x) u` is added.
pub open spec fn theta_model(e: Equation, xs: Seq<G1Point>, s: Seq<Randomness<G2Point>>, p: int, k: int) -> int {
    if k == 0 {
        0
    } else {
        lin(e.a@, coins(s, p), s.len()) + pts_row(xs, e.gamma, coins(s, p), xs.len())
    }
}

/// The values of the variables.
pub open spec fn values<G>(x: Seq<Variable<G>>) -> Seq<G> {
    x.map_values(|v: Variable<G>| v.value)
}

/// The coins of the variables.
pub open spec fn rands<G>(x: Seq<Variable<G>>) -> Seq<Randomness<G>> {
    x.map_values(|v: Variable<G>| v.rand)
}

/// The proof made by `Prove` with the matrix `z` from the variables `x` and `y`.
pub open spec fn is_proof_with(
    pi: Proof,
    cks: CommitmentKeys,
    e: Equation,
    x: Seq<Variable<G1Point>>,
    y: Seq<Variable<G2Point>>,
    z: Matrix<Scalar>,
) -> bool {
    &&& pi.phi.wf() && pi.phi.nrows() == 2 && pi.phi.ncols() == 2
    &&& pi.theta.wf() && pi.theta.nrows() == 2 && pi.theta.ncols() == 2
    &&& forall|p: int, k: int| 0 <= p < 2 && 0 <= k < 2 ==> {
        &&& (#[trigger] pi.phi.at(p, k))@ == md(
            phi_model(cks, e, values(y), rands(x), rands(y), p, k) + zv_model(cks.v, z, p, k),
        )
        &&& pi.theta.at(p, k)@ == md(theta_model(e, values(x), rands(y), p, k) + zu_model(cks.u, z, p, k))
    }
}

/// The element `k` of each commitment of `cr`.
pub open spec fn parts<G: SourceGroup>(cr: Seq<ComRandomness<G>>, k: int) -> Seq<G> {
    cr.map_values(|x: ComRandomness<G>| if k == 0 { x.0.0 } else { x.0.1 })
}

/// The coins of each element of `cr`.
pub open spec fn fresh<G>(cr: Seq<ComRandomness<G>>) -> Seq<Randomness<G>> {
    cr.map_values(|x: ComRandomness<G>| x.1)
}

/// The entry `(p, k)` that `RdProof` adds to `phi`, before `Z' (x) v`, for
/// the commitments `d` and the fresh coins `r`, `s`.
pub open spec fn phi_rd_model(
    cks: CommitmentKeys,
    e: Equation,
    d: Seq<G2Point>,
    r: Seq<Randomness<G1Point>>,
    s: Seq<Randomness<G2Point>>,
    p: int,
    k: int,
) -> int {
    vt_model(cks.v, e.gamma, r, s, p, k) + pts_col(d, e.gamma, coins(r, p), d.len()) + if k == 0 {
        0
    } else {
        lin(e.b@, coins(r, p), r.len())
    }
}

/// The entry `(p, k)` that `RdProof` adds to `theta`, before `Z' (x) u`, for
/// the commitments `c` and the fresh coins `s`.
pub open spec fn theta_rd_model(e: Equation, c: Seq<G1Point>, s: Seq<Randomness<G2Point>>, p: int, k: int) -> int {
    pts_row(c, e.gamma, coins(s, p), c.len()) + if k == 0 {
        0
    } else {
        lin(e.a@, coins(s, p), s.len())
    }
}

/// `new` is the proof `old` adapted by `RdProof` with the matrix `z` to the
/// commitments and fresh coins of `cr` and `ds`.
pub open spec fn is_adapted_with(
    new: Proof,
    old: Proof,
    cks: CommitmentKeys,
    e: Equation,
    cr: Seq<ComRandomness<G1Point>>,
    ds: Seq<ComRandomness<G2Point>>,
    z: Matrix<Scalar>,
) -> bool {
    &&& new.phi.wf() && new.phi.nrows() == 2 && new.phi.ncols() == 2
    &&& new.theta.wf() && new.theta.nrows() == 2 && new.theta.ncols() == 2
    &&& forall|p: int, k: int| 0 <= p < 2 && 0 <= k < 2 ==> {
        &&& (#[trigger] new.phi.at(p, k))@ == md(
            old.phi.at(p, k)@ + phi_rd_model(cks, e, parts(ds, k), fresh(cr), fresh(ds), p, k)
                + zv_model(cks.v, z, p, k),
        )
        &&& new.theta.at(p, k)@ == md(
            old.theta.at(p, k)@ + theta_rd_model(e, parts(cr, k), fresh(ds), p, k) + zu_model(cks.u, z, p, k),
        )
    }
}

/// `sum_k w_k pts_k`.
fn lin_comb<G: SourceGroup>(pts: &[G], w: &[Scalar]) -> (r: G)
    requires
        pts@.len() == w@.len(),
    ensures
        r.log() == md(lin(pts@, w@, pts@.len())),
{
    let mut acc = G::identity();
    let mut k: usize = 0;
    proof {
        assert(lin(pts@, w@, 0) == 0);
        lemma_md_md(0);
    }
    while k < pts.len()
        invariant
            pts@.len() == w@.len(),
            k <= pts@.len(),
            acc.log() == md(lin(pts@, w@, k as nat)),
        decreases pts@.len() - k,
    {
        let term = pts[k].times(&w[k]);
        proof {
            let s = lin(pts@, w@, k as nat);
            let t = pts@[k as int].log() * w@[k as int]@;
            assert(lin(pts@, w@, (k + 1) as nat) == s + t);
            lemma_md_md(s);
            lemma_md_md(t);
            lemma_cong_add(acc.log(), s, term.log(), t);
        }
        acc = acc.plus(&term);
        k = k + 1;
    }
    acc
}

/// The coins `p` of each element of `r`.
fn coins_of<G: SourceGroup>(r: &[Randomness<G>], p: usize) -> (out: Vec<Scalar>)
    requires
        p < 2,
    ensures
        out@ == coins(r@, p as int),
{
    let mut out: Vec<Scalar> = Vec::new();
    let mut i: usize = 0;
    while i < r.len()
        invariant
            p < 2,
            i <= r@.len(),
            out@ =~= coins(r@, p as int).subrange(0, i as int),
        decreases r@.len() - i,
    {
        let c = if p == 0 { r[i].0 } else { r[i].1 };
        out.push(c);
        i = i + 1;
    }
    assert(out@ =~= coins(r@, p as int));
    out
}

/// The values of the variables.
fn values_of<G: SourceGroup>(x: &[Variable<G>]) -> (out: Vec<G>)
    ensures
        out@ == values(x@),
{
    let mut out: Vec<G> = Vec::new();
    let mut i: usize = 0;
    while i < x.len()
        invariant
            i <= x@.len(),
            out@ =~= values(x@).subrange(0, i as int),
        decreases x@.len() - i,
    {
        out.push(x[i].value);
        i = i + 1;
    }
    assert(out@ =~= values(x@));
    out
}

/// The coins of the variables.
fn rands_of<G: SourceGroup>(x: &[Variable<G>]) -> (out: Vec<Randomness<G>>)
    ensures
        out@ == rands(x@),
{
    let mut out: Vec<Randomness<G>> = Vec::new();
    let mut i: usize = 0;
    while i < x.len()
        invariant
            i <= x@.len(),
            out@ =~= rands(x@).subrange(0, i as int),
        decreases x@.len() - i,
    {
        out.push(x[i].rand);
        i = i + 1;
    }
    assert(out@ =~= rands(x@));
    out
}

/// `sum_i gamma_ij r_i` for each column `j`.
fn col_weights(g: &Matrix<Scalar>, r: &[Scalar]) -> (w: Vec<Scalar>)
    requires
        g.wf(),
        g.nrows() == r@.len(),
    ensures
        w@.len() == g.ncols(),
        forall|j: int| 0 <= j < g.ncols() ==> (#[trigger] w@[j])@ == md(col_w(*g, r@, j, r@.len())),
{
    let (rows, cols) = g.dim();
    let mut w: Vec<Scalar> = Vec::new();
    let mut j: usize = 0;
    while j < cols
        invariant
            g.wf(),
            g.nrows() == r@.len(),
            rows == g.nrows(),
            cols == g.ncols(),
            j <= cols,
            w@.len() == j,
            forall|l: int| 0 <= l < j ==> (#[trigger] w@[l])@ == md(col_w(*g, r@, l, r@.len())),
        decreases cols - j,
    {
        let mut acc = Scalar::zero();
        let mut i: usize = 0;
        proof {
            assert(col_w(*g, r@, j as int, 0) == 0);
            lemma_md_md(0);
        }
        while i < rows
            invariant
                g.wf(),
                g.nrows() == r@.len(),
                rows == g.nrows(),
                cols == g.ncols(),
                j < cols,
                i <= rows,
                acc@ == md(col_w(*g, r@, j as int, i as nat)),
            decreases rows - i,
        {
            let term = g.get(i, j).times(&r[i]);
            proof {
                let s = col_w(*g, r@, j as int, i as nat);
                let t = g.at(i as int, j as int)@ * r@[i as int]@;
                assert(g.at(i as int, j as int)@ * r@[i as int]@ == r@[i as int]@ * g.at(i as int, j as int)@) by (nonlinear_arith);
                assert(col_w(*g, r@, j as int, (i + 1) as nat) == s + t);
                lemma_md_md(s);
                lemma_md_md(t);
                lemma_cong_add(acc@, s, term@, t);
            }
            acc = acc.plus(&term);
            i = i + 1;
        }
        w.push(acc);
        j = j + 1;
    }
    w
}

/// `sum_j gamma_ij s_j` for each row `i`.
fn row_weights(g: &Matrix<Scalar>, s: &[Scalar]) -> (w: Vec<Scalar>)
    requires
        g.wf(),
        g.ncols() == s@.len(),
    ensures
        w@.len() == g.nrows(),
        forall|i: int| 0 <= i < g.nrows() ==> (#[trigger] w@[i])@ == md(row_w(*g, s@, i, s@.len())),
{
    let (rows, cols) = g.dim();
    let mut w: Vec<Scalar> = Vec::new();
    let mut i: usize = 0;
    while i < rows
        invariant
            g.wf(),
            g.ncols() == s@.len(),
            rows == g.nrows(),
            cols == g.ncols(),
            i <= rows,
            w@.len() == i,
            forall|l: int| 0 <= l < i ==> (#[trigger] w@[l])@ == md(row_w(*g, s@, l, s@.len())),
        decreases rows - i,
    {
        let mut acc = Scalar::zero();
        let mut j: usize = 0;
        proof {
            assert(row_w(*g, s@, i as int, 0) == 0);
            lemma_md_md(0);
        }
        while j < cols
            invariant
                g.wf(),
                g.ncols() == s@.len(),
                rows == g.nrows(),
                cols == g.ncols(),
                i < rows,
                j <= cols,
                acc@ == md(row_w(*g, s@, i as int, j as nat)),
            decreases cols - j,
        {
            let term = g.get(i, j).times(&s[j]);
            proof {
                let x = row_w(*g, s@, i as int, j as nat);
                let t = g.at(i as int, j as int)@ * s@[j as int]@;
                assert(g.at(i as int, j as int)@ * s@[j as int]@ == s@[j as int]@ * g.at(i as int, j as int)@) by (nonlinear_arith);
                assert(row_w(*g, s@, i as int, (j + 1) as nat) == x + t);
                lemma_md_md(x);
                lemma_md_md(t);
                lemma_cong_add(acc@, x, term@, t);
            }
            acc = acc.plus(&term);
            j = j + 1;
        }
        w.push(acc);
        i = i + 1;
    }
    w
}

/// Weights congruent to the column sums give a combination congruent to
/// `pts_col`.
proof fn lemma_lin_col<G: SourceGroup>(pts: Seq<G>, w: Seq<Scalar>, g: Matrix<Scalar>, r: Seq<Scalar>, len: nat)
    requires
        len <= pts.len(),
        len <= w.len(),
        forall|j: int| 0 <= j < len ==> (#[trigger] w[j])@ == md(col_w(g, r, j, r.len())),
    ensures
        md(lin(pts, w, len)) == md(pts_col(pts, g, r, len)),
    decreases len,
{
    if len > 0 {
        let k = len - 1;
        lemma_lin_col(pts, w, g, r, (len - 1) as nat);
        lemma_md_mul(pts[k].log(), col_w(g, r, k, r.len()));
        lemma_cong_add(
            lin(pts, w, (len - 1) as nat),
            pts_col(pts, g, r, (len - 1) as nat),
            pts[k].log() * w[k]@,
            pts[k].log() * col_w(g, r, k, r.len()),
        );
    }
}

/// Weights congruent to the row sums give a combination congruent to
/// `pts_row`.
proof fn lemma_lin_row<G: SourceGroup>(pts: Seq<G>, w: Seq<Scalar>, g: Matrix<Scalar>, s: Seq<Scalar>, len: nat)
    requires
        len <= pts.len(),
        len <= w.len(),
        forall|i: int| 0 <= i < len ==> (#[trigger] w[i])@ == md(row_w(g, s, i, s.len())),
    ensures
        md(lin(pts, w, len)) == md(pts_row(pts, g, s, len)),
    decreases len,
{
    if len > 0 {
        let k = len - 1;
        lemma_lin_row(pts, w, g, s, (len - 1) as nat);
        lemma_md_mul(pts[k].log(), row_w(g, s, k, s.len()));
        lemma_cong_add(
            lin(pts, w, (len - 1) as nat),
            pts_row(pts, g, s, (len - 1) as nat),
            pts[k].log() * w[k]@,
            pts[k].log() * row_w(g, s, k, s.len()),
        );
    }
}

/// Column sums used as points give a combination congruent to `t_pq`.
proof fn lemma_lin_t(
    w: Seq<Scalar>,
    g: Matrix<Scalar>,
    r: Seq<Randomness<G1Point>>,
    s: Seq<Randomness<G2Point>>,
    p: int,
    q: int,
    len: nat,
)
    requires
        len <= s.len(),
        len <= w.len(),
        forall|j: int| 0 <= j < len ==> (#[trigger] w[j])@ == md(col_w(g, coins(r, p), j, r.len())),
    ensures
        md(lin(w, coins(s, q), len)) == md(bilt(g, vals(coins(r, p)), vals(coins(s, q)), r.len(), len)),
    decreases len,
{
    if len > 0 {
        let k = len - 1;
        let cw = col_w(g, coins(r, p), k, r.len());
        let sq = coins(s, q)[k]@;
        lemma_lin_t(w, g, r, s, p, q, (len - 1) as nat);
        lemma_md_mul(cw, sq);
        assert(cw * sq == sq * cw) by (nonlinear_arith);
        lemma_cong_add(
            lin(w, coins(s, q), (len - 1) as nat),
            bilt(g, vals(coins(r, p)), vals(coins(s, q)), r.len(), (len - 1) as nat),
            w[k].log() * sq,
            sq * cw,
        );
    }
}

/// `sum_j (sum_i gamma_ij pts_j) r_i`, that is `pts_col`, computed.
fn col_combination<G: SourceGroup>(pts: &[G], g: &Matrix<Scalar>, r: &[Scalar]) -> (out: G)
    requires
        g.wf(),
        g.nrows() == r@.len(),
        g.ncols() == pts@.len(),
    ensures
        out.log() == md(pts_col(pts@, *g, r@, pts@.len())),
{
    let w = col_weights(g, r);
    let out = lin_comb(pts, w.as_slice());
    proof {
        lemma_lin_col(pts@, w@, *g, r@, pts@.len());
    }
    out
}

/// `sum_i (sum_j gamma_ij s_j) pts_i`, that is `pts_row`, computed.
fn row_combination<G: SourceGroup>(pts: &[G], g: &Matrix<Scalar>, s: &[Scalar]) -> (out: G)
    requires
        g.wf(),
        g.ncols() == s@.len(),
        g.nrows() == pts@.len(),
    ensures
        out.log() == md(pts_row(pts@, *g, s@, pts@.len())),
{
    let w = row_weights(g, s);
    let out = lin_comb(pts, w.as_slice());
    proof {
        lemma_lin_row(pts@, w@, *g, s@, pts@.len());
    }
    out
}

/// The scalar `t_pq`.
fn t_pq(r: &[Randomness<G1Point>], s: &[Randomness<G2Point>], gamma: &Matrix<Scalar>, p: usize, q: usize) -> (t: Scalar)
    requires
        gamma.wf(),
        gamma.nrows() == r@.len(),
        gamma.ncols() == s@.len(),
        p < 2,
        q < 2,
    ensures
        t@ == md(t_model(*gamma, r@, s@, p as int, q as int)),
{
    let rp = coins_of(r, p);
    let sq = coins_of(s, q);
    let w = col_weights(gamma, rp.as_slice());
    let t = lin_comb(w.as_slice(), sq.as_slice());
    proof {
        lemma_lin_t(w@, *gamma, r@, s@, p as int, q as int, s@.len());
    }
    t
}

/// The four scalars `t_11, t_12, t_21, t_22`.
fn t11_t12_t21_t22(r: &[Randomness<G1Point>], s: &[Randomness<G2Point>], gamma: &Matrix<Scalar>) -> (t: (
    Scalar,
    Scalar,
    Scalar,
    Scalar,
))
    requires
        gamma.wf(),
        gamma.nrows() == r@.len(),
        gamma.ncols() == s@.len(),
    ensures
        t.0@ == md(t_model(*gamma, r@, s@, 0, 0)),
        t.1@ == md(t_model(*gamma, r@, s@, 0, 1)),
        t.2@ == md(t_model(*gamma, r@, s@, 1, 0)),
        t.3@ == md(t_model(*gamma, r@, s@, 1, 1)),
{
    (t_pq(r, s, gamma, 0, 0), t_pq(r, s, gamma, 0, 1), t_pq(r, s, gamma, 1, 0), t_pq(r, s, gamma, 1, 1))
}

/// The element `p` of the row `row` of a commitment key.
fn key_entry<G: SourceGroup>(k: &CommitmentKey<G>, row: usize, p: usize) -> (r: G)
    requires
        row < 2,
        p < 2,
    ensures
        r.log() == key(*k, row as int, p as int),
{
    if row == 0 {
        if p == 0 { k.0.0 } else { k.0.1 }
    } else {
        if p == 0 { k.1.0 } else { k.1.1 }
    }
}

/// `k1 x1 + k2 x2` for two elements of a key row and two scalars.
fn combine2<G: SourceGroup>(x1: &G, s1: &Scalar, x2: &G, s2: &Scalar) -> (r: G)
    ensures
        r.log() == md(x1.log() * s1@ + x2.log() * s2@),
{
    let r = x1.times(s1).plus(&x2.times(s2));
    proof {
        lemma_md_add(x1.log() * s1@, x2.log() * s2@);
    }
    r
}

/// The matrix `Z (x) u`.
fn z_u(z: &Matrix<Scalar>, u: &CommitmentKey<G1Point>) -> (r: Matrix<G1Point>)
    requires
        z.wf() && z.nrows() == 2 && z.ncols() == 2,
    ensures
        r.wf() && r.nrows() == 2 && r.ncols() == 2,
        forall|p: int, k: int| 0 <= p < 2 && 0 <= k < 2 ==> (#[trigger] r.at(p, k))@ == md(zu_model(*u, *z, p, k)),
{
    let e00 = combine2(&u.0.0, &z.get(0, 0), &u.1.0, &z.get(0, 1));
    let e01 = combine2(&u.0.1, &z.get(0, 0), &u.1.1, &z.get(0, 1));
    let e10 = combine2(&u.0.0, &z.get(1, 0), &u.1.0, &z.get(1, 1));
    let e11 = combine2(&u.0.1, &z.get(1, 0), &u.1.1, &z.get(1, 1));
    let r = Matrix::new(&[[e00, e01], [e10, e11]]);
    assert forall|p: int, k: int| 0 <= p < 2 && 0 <= k < 2 implies (#[trigger] r.at(p, k))@ == md(zu_model(*u, *z, p, k)) by {
        if p == 0 && k == 0 {
            assert(r.at(p, k) == e00);
        } else if p == 0 {
            assert(r.at(p, k) == e01);
        } else if k == 0 {
            assert(r.at(p, k) == e10);
        } else {
            assert(r.at(p, k) == e11);
        }
    }
    r
}

/// The matrix `Z (x) v`, with `Z` transposed and negated.
fn z_v(z: &Matrix<Scalar>, v: &CommitmentKey<G2Point>) -> (r: Matrix<G2Point>)
    requires
        z.wf() && z.nrows() == 2 && z.ncols() == 2,
    ensures
        r.wf() && r.nrows() == 2 && r.ncols() == 2,
        forall|p: int, k: int| 0 <= p < 2 && 0 <= k < 2 ==> (#[trigger] r.at(p, k))@ == md(zv_model(*v, *z, p, k)),
{
    let n00 = z.get(0, 0).negate();
    let n01 = z.get(0, 1).negate();
    let n10 = z.get(1, 0).negate();
    let n11 = z.get(1, 1).negate();
    let e00 = combine2(&v.0.0, &n00, &v.1.0, &n10);
    let e01 = combine2(&v.0.1, &n00, &v.1.1, &n10);
    let e10 = combine2(&v.0.0, &n01, &v.1.0, &n11);
    let e11 = combine2(&v.0.1, &n01, &v.1.1, &n11);
    let r = Matrix::new(&[[e00, e01], [e10, e11]]);
    assert forall|p: int, k: int| 0 <= p < 2 && 0 <= k < 2 implies (#[trigger] r.at(p, k))@ == md(zv_model(*v, *z, p, k)) by {
        let a = key(*v, 0, k);
        let b = key(*v, 1, k);
        let (za, zb) = (z.at(0, p)@, z.at(1, p)@);
        lemma_md_neg(za);
        lemma_md_neg(zb);
        lemma_md_mul(a, -za);
        lemma_md_mul(b, -zb);
        lemma_cong_add(a * md(-za), a * (-za), b * md(-zb), b * (-zb));
        if p == 0 && k == 0 {
            assert(r.at(p, k) == e00);
        } else if p == 0 {
            assert(r.at(p, k) == e01);
        } else if k == 0 {
            assert(r.at(p, k) == e10);
        } else {
            assert(r.at(p, k) == e11);
        }
    }
    r
}

/// The entry `(p, k)` of `phi` before `Z (x) v` is added.
fn phi_entry(
    cks: &CommitmentKeys,
    equ: &Equation,
    ys: &[G2Point],
    r: &[Randomness<G1Point>],
    s: &[Randomness<G2Point>],
    t0: &Scalar,
    t1: &Scalar,
    p: usize,
    k: usize,
) -> (out: G2Point)
    requires
        equ.wf(),
        equ.b@.len() == r@.len(),
        equ.a@.len() == s@.len(),
        ys@.len() == s@.len(),
        p < 2,
        k < 2,
        t0@ == md(t_model(equ.gamma, r@, s@, p as int, 0)),
        t1@ == md(t_model(equ.gamma, r@, s@, p as int, 1)),
    ensures
        out@ == md(phi_model(*cks, *equ, ys@, r@, s@, p as int, k as int)),
{
    let v0 = key_entry(&cks.v, 0, k);
    let v1 = key_entry(&cks.v, 1, k);
    let vt = combine2(&v0, t0, &v1, t1);
    let ghost vtm = vt_model(cks.v, equ.gamma, r@, s@, p as int, k as int);
    proof {
        let (tm0, tm1) = (t_model(equ.gamma, r@, s@, p as int, 0), t_model(equ.gamma, r@, s@, p as int, 1));
        lemma_md_mul(v0.log(), tm0);
        lemma_md_mul(v1.log(), tm1);
        lemma_cong_add(v0.log() * t0@, v0.log() * tm0, v1.log() * t1@, v1.log() * tm1);
    }
    if k == 0 {
        vt
    } else {
        let rp = coins_of(r, p);
        let bl = lin_comb(equ.b.as_slice(), rp.as_slice());
        let yl = col_combination(ys, &equ.gamma, rp.as_slice());
        let out = vt.plus(&bl).plus(&yl);
        proof {
            let bm = lin(equ.b@, coins(r@, p as int), r@.len());
            let ym = pts_col(ys@, equ.gamma, coins(r@, p as int), ys@.len());
            lemma_md_md(vtm);
            lemma_md_md(bm);
            lemma_md_md(ym);
            lemma_cong_add(vt@, vtm, bl@, bm);
            lemma_md_md(vtm + bm);
            lemma_cong_add(md(vt@ + bl@), vtm + bm, yl@, ym);
        }
        out
    }
}

/// The entry `(p, k)` of `theta` before `Z (x) u` is added.
fn theta_entry(equ: &Equation, xs: &[G1Point], s: &[Randomness<G2Point>], p: usize, k: usize) -> (out: G1Point)
    requires
        equ.wf(),
        equ.a@.len() == s@.len(),
        equ.b@.len() == xs@.len(),
        p < 2,
        k < 2,
    ensures
        out@ == md(theta_model(*equ, xs@, s@, p as int, k as int)),
{
    if k == 0 {
        proof {
            lemma_md_md(0);
        }
        G1Point::identity()
    } else {
        let sp = coins_of(s, p);
        let al = lin_comb(equ.a.as_slice(), sp.as_slice());
        let xl = row_combination(xs, &equ.gamma, sp.as_slice());
        let out = al.plus(&xl);
        proof {
            lemma_md_add(
                lin(equ.a@, coins(s@, p as int), s@.len()),
                pts_row(xs@, equ.gamma, coins(s@, p as int), xs@.len()),
            );
        }
        out
    }
}

/// The 2 x 2 matrix `[[e00, e01], [e10, e11]]` plus `m`.
fn square_plus<G: SourceGroup>(e00: G, e01: G, e10: G, e11: G, m: &Matrix<G>) -> (r: Matrix<G>)
    requires
        m.wf() && m.nrows() == 2 && m.ncols() == 2,
    ensures
        r.wf() && r.nrows() == 2 && r.ncols() == 2,
        r.at(0, 0).log() == md(e00.log() + m.at(0, 0).log()),
        r.at(0, 1).log() == md(e01.log() + m.at(0, 1).log()),
        r.at(1, 0).log() == md(e10.log() + m.at(1, 0).log()),
        r.at(1, 1).log() == md(e11.log() + m.at(1, 1).log()),
{
    let base = Matrix::new(&[[e00, e01], [e10, e11]]);
    match base.add(m) {
        Ok(r) => r,
        Err(_) => {
            proof {
                assert(false);
            }
            base
        },
    }
}

impl Proof {
    /// `Prove(ck, E, (X, r), (Y, s))` with the random matrix `z`: the proof
    /// for the equation `equ` from the variables `x` and `y`.
    pub fn prove(
        z: &Matrix<Scalar>,
        cks: &CommitmentKeys,
        equ: &Equation,
        x: &[Variable<G1Point>],
        y: &[Variable<G2Point>],
    ) -> (pi: Proof)
        requires
            z.wf() && z.nrows() == 2 && z.ncols() == 2,
            equ.wf(),
            equ.a@.len() == y@.len(),
            equ.b@.len() == x@.len(),
        ensures
            is_proof_with(pi, *cks, *equ, x@, y@, *z),
    {
        let r = rands_of(x);
        let s = rands_of(y);
        let xs = values_of(x);
        let ys = values_of(y);
        let (t11, t12, t21, t22) = t11_t12_t21_t22(r.as_slice(), s.as_slice(), &equ.gamma);
        let zu = z_u(z, &cks.u);
        let zv = z_v(z, &cks.v);
        let phi11 = phi_entry(cks, equ, ys.as_slice(), r.as_slice(), s.as_slice(), &t11, &t12, 0, 0);
        let phi12 = phi_entry(cks, equ, ys.as_slice(), r.as_slice(), s.as_slice(), &t11, &t12, 0, 1);
        let phi21 = phi_entry(cks, equ, ys.as_slice(), r.as_slice(), s.as_slice(), &t21, &t22, 1, 0);
        let phi22 = phi_entry(cks, equ, ys.as_slice(), r.as_slice(), s.as_slice(), &t21, &t22, 1, 1);
        let phi = square_plus(phi11, phi12, phi21, phi22, &zv);
        let theta11 = theta_entry(equ, xs.as_slice(), s.as_slice(), 0, 0);
        let theta12 = theta_entry(equ, xs.as_slice(), s.as_slice(), 0, 1);
        let theta21 = theta_entry(equ, xs.as_slice(), s.as_slice(), 1, 0);
        let theta22 = theta_entry(equ, xs.as_slice(), s.as_slice(), 1, 1);
        let theta = square_plus(theta11, theta12, theta21, theta22, &zu);
        let pi = Proof { phi, theta };
        assert forall|p: int, k: int| 0 <= p < 2 && 0 <= k < 2 implies {
            &&& (#[trigger] pi.phi.at(p, k))@ == md(
                phi_model(*cks, *equ, values(y@), rands(x@), rands(y@), p, k) + zv_model(cks.v, *z, p, k),
            )
            &&& pi.theta.at(p, k)@ == md(theta_model(*equ, values(x@), rands(y@), p, k) + zu_model(cks.u, *z, p, k))
        } by {
            let pm = phi_model(*cks, *equ, values(y@), rands(x@), rands(y@), p, k);
            let tm = theta_model(*equ, values(x@), rands(y@), p, k);
            lemma_md_add(pm, zv_model(cks.v, *z, p, k));
            lemma_md_add(tm, zu_model(cks.u, *z, p, k));
        }
        pi
    }

    /// `Prove(ck, E, (X, r), (Y, s))`: the proof for the equation `equ` from
    /// the variables `x` and `y`, with a random matrix `Z`.
    pub fn new(
        rng: &mut StdRng,
        cks: &CommitmentKeys,
        equ: &Equation,
        x: &[Variable<G1Point>],
        y: &[Variable<G2Point>],
    ) -> (pi: Proof)
        requires
            equ.wf(),
            equ.a@.len() == y@.len(),
            equ.b@.len() == x@.len(),
        ensures
            exists|z: Matrix<Scalar>|
                z.wf() && z.nrows() == 2 && z.ncols() == 2 && #[trigger] is_proof_with(pi, *cks, *equ, x@, y@, z),
    {
        let z = Matrix::<Scalar>::rand(rng, 2, 2);
        Self::prove(&z, cks, equ, x, y)
    }
}

/// The element `k` of each commitment.
fn parts_of<G: SourceGroup>(cr: &[ComRandomness<G>], k: usize) -> (out: Vec<G>)
    requires
        k < 2,
    ensures
        out@ == parts(cr@, k as int),
{
    let mut out: Vec<G> = Vec::new();
    let mut i: usize = 0;
    while i < cr.len()
        invariant
            k < 2,
            i <= cr@.len(),
            out@ =~= parts(cr@, k as int).subrange(0, i as int),
        decreases cr@.len() - i,
    {
        let c = if k == 0 { cr[i].0.0 } else { cr[i].0.1 };
        out.push(c);
        i = i + 1;
    }
    assert(out@ =~= parts(cr@, k as int));
    out
}

/// The fresh coins of each commitment.
fn fresh_of<G: SourceGroup>(cr: &[ComRandomness<G>]) -> (out: Vec<Randomness<G>>)
    ensures
        out@ == fresh(cr@),
{
    let mut out: Vec<Randomness<G>> = Vec::new();
    let mut i: usize = 0;
    while i < cr.len()
        invariant
            i <= cr@.len(),
            out@ =~= fresh(cr@).subrange(0, i as int),
        decreases cr@.len() - i,
    {
        out.push(cr[i].1);
        i = i + 1;
    }
    assert(out@ =~= fresh(cr@));
    out
}

/// The entry `(p, k)` that `RdProof` adds to `phi` before `Z' (x) v`.
fn phi_rd_entry(
    cks: &CommitmentKeys,
    equ: &Equation,
    d: &[G2Point],
    r: &[Randomness<G1Point>],
    s: &[Randomness<G2Point>],
    t0: &Scalar,
    t1: &Scalar,
    p: usize,
    k: usize,
) -> (out: G2Point)
    requires
        equ.wf(),
        equ.b@.len() == r@.len(),
        equ.a@.len() == s@.len(),
        d@.len() == s@.len(),
        p < 2,
        k < 2,
        t0@ == md(t_model(equ.gamma, r@, s@, p as int, 0)),
        t1@ == md(t_model(equ.gamma, r@, s@, p as int, 1)),
    ensures
        out@ == md(phi_rd_model(*cks, *equ, d@, r@, s@, p as int, k as int)),
{
    let v0 = key_entry(&cks.v, 0, k);
    let v1 = key_entry(&cks.v, 1, k);
    let vt = combine2(&v0, t0, &v1, t1);
    let rp = coins_of(r, p);
    let dl = col_combination(d, &equ.gamma, rp.as_slice());
    let ghost vtm = vt_model(cks.v, equ.gamma, r@, s@, p as int, k as int);
    let ghost dm = pts_col(d@, equ.gamma, coins(r@, p as int), d@.len());
    proof {
        let (tm0, tm1) = (t_model(equ.gamma, r@, s@, p as int, 0), t_model(equ.gamma, r@, s@, p as int, 1));
        lemma_md_mul(v0.log(), tm0);
        lemma_md_mul(v1.log(), tm1);
        lemma_cong_add(v0.log() * t0@, v0.log() * tm0, v1.log() * t1@, v1.log() * tm1);
        lemma_md_md(vtm);
        lemma_md_md(dm);
        lemma_cong_add(vt@, vtm, dl@, dm);
    }
    let both = vt.plus(&dl);
    if k == 0 {
        both
    } else {
        let bl = lin_comb(equ.b.as_slice(), rp.as_slice());
        proof {
            let bm = lin(equ.b@, coins(r@, p as int), r@.len());
            lemma_md_md(bm);
            lemma_md_md(vtm + dm);
            lemma_cong_add(both@, vtm + dm, bl@, bm);
        }
        both.plus(&bl)
    }
}

/// The entry `(p, k)` that `RdProof` adds to `theta` before `Z' (x) u`.
fn theta_rd_entry(equ: &Equation, c: &[G1Point], s: &[Randomness<G2Point>], p: usize, k: usize) -> (out: G1Point)
    requires
        equ.wf(),
        equ.a@.len() == s@.len(),
        equ.b@.len() == c@.len(),
        p < 2,
        k < 2,
    ensures
        out@ == md(theta_rd_model(*equ, c@, s@, p as int, k as int)),
{
    let sp = coins_of(s, p);
    let cl = row_combination(c, &equ.gamma, sp.as_slice());
    if k == 0 {
        cl
    } else {
        let al = lin_comb(equ.a.as_slice(), sp.as_slice());
        proof {
            lemma_md_add(
                pts_row(c@, equ.gamma, coins(s@, p as int), c@.len()),
                lin(equ.a@, coins(s@, p as int), s@.len()),
            );
        }
        cl.plus(&al)
    }
}

/// `m` plus the 2 x 2 matrix `[[e00, e01], [e10, e11]]` plus `z`.
fn adapt_square<G: SourceGroup>(m: &Matrix<G>, e00: G, e01: G, e10: G, e11: G, z: &Matrix<G>) -> (r: Matrix<G>)
    requires
        m.wf() && m.nrows() == 2 && m.ncols() == 2,
        z.wf() && z.nrows() == 2 && z.ncols() == 2,
    ensures
        r.wf() && r.nrows() == 2 && r.ncols() == 2,
        r.at(0, 0).log() == md(m.at(0, 0).log() + e00.log() + z.at(0, 0).log()),
        r.at(0, 1).log() == md(m.at(0, 1).log() + e01.log() + z.at(0, 1).log()),
        r.at(1, 0).log() == md(m.at(1, 0).log() + e10.log() + z.at(1, 0).log()),
        r.at(1, 1).log() == md(m.at(1, 1).log() + e11.log() + z.at(1, 1).log()),
{
    let inc = square_plus(e00, e01, e10, e11, z);
    let r = match m.add(&inc) {
        Ok(r) => r,
        Err(_) => {
            proof {
                assert(false);
            }
            inc
        },
    };
    proof {
        lemma_md_add(m.at(0, 0).log(), e00.log() + z.at(0, 0).log());
        lemma_md_add(m.at(0, 1).log(), e01.log() + z.at(0, 1).log());
        lemma_md_add(m.at(1, 0).log(), e10.log() + z.at(1, 0).log());
        lemma_md_add(m.at(1, 1).log(), e11.log() + z.at(1, 1).log());
    }
    r
}

impl Proof {
    /// Both halves are 2 x 2.
    pub open spec fn is_square(&self) -> bool {
        &&& self.phi.wf() && self.phi.nrows() == 2 && self.phi.ncols() == 2
        &&& self.theta.wf() && self.theta.nrows() == 2 && self.theta.ncols() == 2
    }

    /// `RdProof(ck, E, (c, r), (d, s), pi)` with the random matrix `z`: adapts
    /// the proof to commitments that were randomized with the fresh coins of
    /// `cr` and `ds`, which hold the commitments as they were before.
    pub fn randomize_with(
        &mut self,
        z: &Matrix<Scalar>,
        cks: &CommitmentKeys,
        equ: &Equation,
        cr: &[ComRandomness<G1Point>],
        ds: &[ComRandomness<G2Point>],
    )
        requires
            z.wf() && z.nrows() == 2 && z.ncols() == 2,
            old(self).is_square(),
            equ.wf(),
            equ.a@.len() == ds@.len(),
            equ.b@.len() == cr@.len(),
        ensures
            is_adapted_with(*final(self), *old(self), *cks, *equ, cr@, ds@, *z),
    {
        let zu = z_u(z, &cks.u);
        let zv = z_v(z, &cks.v);
        let r = fresh_of(cr);
        let s = fresh_of(ds);
        let (t11, t12, t21, t22) = t11_t12_t21_t22(r.as_slice(), s.as_slice(), &equ.gamma);
        let c1 = parts_of(cr, 0);
        let c2 = parts_of(cr, 1);
        let d1 = parts_of(ds, 0);
        let d2 = parts_of(ds, 1);
        let phi11 = phi_rd_entry(cks, equ, d1.as_slice(), r.as_slice(), s.as_slice(), &t11, &t12, 0, 0);
        let phi12 = phi_rd_entry(cks, equ, d2.as_slice(), r.as_slice(), s.as_slice(), &t11, &t12, 0, 1);
        let phi21 = phi_rd_entry(cks, equ, d1.as_slice(), r.as_slice(), s.as_slice(), &t21, &t22, 1, 0);
        let phi22 = phi_rd_entry(cks, equ, d2.as_slice(), r.as_slice(), s.as_slice(), &t21, &t22, 1, 1);
        let theta11 = theta_rd_entry(equ, c1.as_slice(), s.as_slice(), 0, 0);
        let theta12 = theta_rd_entry(equ, c2.as_slice(), s.as_slice(), 0, 1);
        let theta21 = theta_rd_entry(equ, c1.as_slice(), s.as_slice(), 1, 0);
        let theta22 = theta_rd_entry(equ, c2.as_slice(), s.as_slice(), 1, 1);
        let phi = adapt_square(&self.phi, phi11, phi12, phi21, phi22, &zv);
        let theta = adapt_square(&self.theta, theta11, theta12, theta21, theta22, &zu);
        let ghost before = *self;
        self.phi = phi;
        self.theta = theta;
        assert forall|p: int, k: int| 0 <= p < 2 && 0 <= k < 2 implies {
            &&& (#[trigger] self.phi.at(p, k))@ == md(
                before.phi.at(p, k)@ + phi_rd_model(*cks, *equ, parts(ds@, k), fresh(cr@), fresh(ds@), p, k)
                    + zv_model(cks.v, *z, p, k),
            )
            &&& self.theta.at(p, k)@ == md(
                before.theta.at(p, k)@ + theta_rd_model(*equ, parts(cr@, k), fresh(ds@), p, k)
                    + zu_model(cks.u, *z, p, k),
            )
        } by {
            let pm = phi_rd_model(*cks, *equ, parts(ds@, k), fresh(cr@), fresh(ds@), p, k);
            let tm = theta_rd_model(*equ, parts(cr@, k), fresh(ds@), p, k);
            let zvm = zv_model(cks.v, *z, p, k);
            let zum = zu_model(cks.u, *z, p, k);
            let (pe, te) = if p == 0 {
                if k == 0 { (phi11, theta11) } else { (phi12, theta12) }
            } else {
                if k == 0 { (phi21, theta21) } else { (phi22, theta22) }
            };
            lemma_md_md(pm);
            lemma_md_md(zvm);
            lemma_md_md(tm);
            lemma_md_md(zum);
            lemma_cong_add(before.phi.at(p, k)@, before.phi.at(p, k)@, pe@, pm);
            lemma_cong_add(before.theta.at(p, k)@, before.theta.at(p, k)@, te@, tm);
            lemma_cong_add(before.phi.at(p, k)@ + pe@, before.phi.at(p, k)@ + pm, zv.at(p, k)@, zvm);
            lemma_cong_add(before.theta.at(p, k)@ + te@, before.theta.at(p, k)@ + tm, zu.at(p, k)@, zum);
        }
    }

    /// `RdProof(ck, E, (c, r), (d, s), pi)`: adapts the proof, with a random
    /// matrix `Z'`, to commitments that were randomized with the fresh coins
    /// of `cr` and `ds`.
    pub fn randomize(
        &mut self,
        rng: &mut StdRng,
        cks: &CommitmentKeys,
        equ: &Equation,
        cr: &[ComRandomness<G1Point>],
        ds: &[ComRandomness<G2Point>],
    )
        requires
            old(self).is_square(),
            equ.wf(),
            equ.a@.len() == ds@.len(),
            equ.b@.len() == cr@.len(),
        ensures
            exists|z: Matrix<Scalar>|
                z.wf() && z.nrows() == 2 && z.ncols() == 2
                    && #[trigger] is_adapted_with(*final(self), *old(self), *cks, *equ, cr@, ds@, z),
    {
        let z = Matrix::<Scalar>::rand(rng, 2, 2);
        self.randomize_with(&z, cks, equ, cr, ds);
    }

    /// The entrywise sum `(phi + phi', theta + theta')`.
    pub fn add(self, other: Proof) -> (r: Proof)
        requires
            self.is_square(),
            other.is_square(),
        ensures
            r.is_square(),
            forall|p: int, k: int| 0 <= p < 2 && 0 <= k < 2 ==> {
                &&& (#[trigger] r.phi.at(p, k))@ == md(self.phi.at(p, k)@ + other.phi.at(p, k)@)
                &&& r.theta.at(p, k)@ == md(self.theta.at(p, k)@ + other.theta.at(p, k)@)
            },
    {
        let phi = match self.phi.add(&other.phi) {
            Ok(m) => m,
            Err(_) => {
                proof {
                    assert(false);
                }
                self.phi
            },
        };
        let theta = match self.theta.add(&other.theta) {
            Ok(m) => m,
            Err(_) => {
                proof {
                    assert(false);
                }
                self.theta
            },
        };
        Proof { phi, theta }
    }

    /// The entrywise difference `(phi - phi', theta - theta')`.
    pub fn div(self, other: Proof) -> (r: Proof)
        requires
            self.is_square(),
            other.is_square(),
        ensures
            r.is_square(),
            forall|p: int, k: int| 0 <= p < 2 && 0 <= k < 2 ==> {
                &&& (#[trigger] r.phi.at(p, k))@ == md(self.phi.at(p, k)@ - other.phi.at(p, k)@)
                &&& r.theta.at(p, k)@ == md(self.theta.at(p, k)@ - other.theta.at(p, k)@)
            },
    {
        let minus_phi = other.phi.neg();
        let minus_theta = other.theta.neg();
        let phi = match self.phi.add(&minus_phi) {
            Ok(m) => m,
            Err(_) => {
                proof {
                    assert(false);
                }
                self.phi
            },
        };
        let theta = match self.theta.add(&minus_theta) {
            Ok(m) => m,
            Err(_) => {
                proof {
                    assert(false);
                }
                self.theta
            },
        };
        assert forall|p: int, k: int| 0 <= p < 2 && 0 <= k < 2 implies {
            &&& (#[trigger] phi.at(p, k))@ == md(self.phi.at(p, k)@ - other.phi.at(p, k)@)
            &&& theta.at(p, k)@ == md(self.theta.at(p, k)@ - other.theta.at(p, k)@)
        } by {
            lemma_md_neg(other.phi.at(p, k)@);
            lemma_md_neg(other.theta.at(p, k)@);
            lemma_md_add(self.phi.at(p, k)@, -other.phi.at(p, k)@);
            lemma_md_add(self.theta.at(p, k)@, -other.theta.at(p, k)@);
        }
        Proof { phi, theta }
    }
}

} // verus!

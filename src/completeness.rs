//! Honest proofs verify: the algebra behind the four pairing product checks.
use vstd::prelude::*;
use crate::com::{Com, ComRandomness};
use crate::{is_randomized, is_sum, ProofSystem};
use crate::commit::{com_first, com_second, CommitmentKeys};
use crate::equation::{checks_hold, com_logs, key, lhs_1, lhs_3, lhs_a_d, lhs_c_bd, rhs, shapes_fit, Equation};
use crate::group::{lemma_cong_add, lemma_cong_mul, lemma_md_md, md, G1Point, G2Point, Scalar, SourceGroup};
use crate::matrix::Matrix;
use crate::prove::{
    coins, fresh, is_proof_with, parts, phi_model, phi_rd_model, rands, theta_model, theta_rd_model, values,
    zu_model, zv_model, Proof,
};
use crate::sums::{
    bil, bilt, comb3, dot, lemma_bil_bilt, lemma_bil_cong, lemma_bil_lin_left, lemma_bil_lin_right,
    lemma_bil_block, lemma_dot_cong, lemma_dot_lin_left, lemma_dot_lin_right, lemma_dot_split, lemma_dot_sym, logs,
    vals,
};

verus! {

/// Distributing over two terms.
proof fn lemma_dist2(k: int, a: int, b: int) by (nonlinear_arith)
    ensures
        k * (a + b) == k * a + k * b,
        (a + b) * k == a * k + b * k,
{
}

/// Distributing over three terms.
proof fn lemma_dist3(k: int, a: int, b: int, c: int)
    ensures
        k * (a + b + c) == k * a + k * b + k * c,
{
    lemma_dist2(k, a + b, c);
    lemma_dist2(k, a, b);
}

/// Reordering the factors of a product of three.
proof fn lemma_swap(k1: int, k2: int, x: int) by (nonlinear_arith)
    ensures
        k1 * (k2 * x) == k2 * (k1 * x),
        (k1 * k2) * x == k1 * (k2 * x),
        (k1 * x) * k2 == k1 * (k2 * x),
{
}

/// A product with a negated factor cancels the product without it.
proof fn lemma_neg_cancel(a: int, b: int, c: int) by (nonlinear_arith)
    ensures
        a * (b * (-c)) + (a * c) * b == 0,
{
}

/// The expanded left side of a check equals its expanded right side.
proof fn lemma_check_identity(
    pp: int, qq: int, u0: int, u1: int, v0: int, v1: int,
    bxy: int, bxs0: int, bxs1: int, br0y: int, br0s0: int, br0s1: int, br1y: int, br1s0: int, br1s1: int,
    day: int, das0: int, das1: int, dxb: int, dbr0: int, dbr1: int,
)
    ensures
        pp * (qq * bxy + v0 * bxs0 + v1 * bxs1) + u0 * (qq * br0y + v0 * br0s0 + v1 * br0s1)
            + u1 * (qq * br1y + v0 * br1s0 + v1 * br1s1) + pp * (qq * day + v0 * das0 + v1 * das1)
            + qq * (pp * dxb + u0 * dbr0 + u1 * dbr1)
        == u0 * (v0 * br0s0 + v1 * br0s1 + qq * (dbr0 + br0y)) + u1 * (v0 * br1s0 + v1 * br1s1 + qq * (dbr1 + br1y))
            + v0 * (pp * (das0 + bxs0)) + v1 * (pp * (das1 + bxs1)) + pp * qq * (day + dxb + bxy),
{
    lemma_dist3(pp, qq * bxy, v0 * bxs0, v1 * bxs1);
    lemma_dist3(u0, qq * br0y, v0 * br0s0, v1 * br0s1);
    lemma_dist3(u1, qq * br1y, v0 * br1s0, v1 * br1s1);
    lemma_dist3(pp, qq * day, v0 * das0, v1 * das1);
    lemma_dist3(qq, pp * dxb, u0 * dbr0, u1 * dbr1);
    lemma_dist3(u0, v0 * br0s0, v1 * br0s1, qq * (dbr0 + br0y));
    lemma_dist3(u1, v0 * br1s0, v1 * br1s1, qq * (dbr1 + br1y));
    lemma_dist2(qq, dbr0, br0y);
    lemma_dist2(qq, dbr1, br1y);
    lemma_dist2(u0, qq * dbr0, qq * br0y);
    lemma_dist2(u1, qq * dbr1, qq * br1y);
    lemma_dist2(pp, das0, bxs0);
    lemma_dist2(pp, das1, bxs1);
    lemma_dist2(v0, pp * das0, pp * bxs0);
    lemma_dist2(v1, pp * das1, pp * bxs1);
    lemma_dist3(pp * qq, day, dxb, bxy);
    lemma_swap(pp, qq, day);
    lemma_swap(pp, qq, dxb);
    lemma_swap(pp, qq, bxy);
    lemma_swap(qq, pp, dxb);
    lemma_swap(qq, u0, dbr0);
    lemma_swap(qq, u1, dbr1);
    lemma_swap(pp, v0, bxs0);
    lemma_swap(pp, v1, bxs1);
    lemma_swap(pp, v0, das0);
    lemma_swap(pp, v1, das1);
}

/// The terms of the random matrix `Z` cancel out of the right side of a check.
proof fn lemma_z_cancel(u0: int, u1: int, v0: int, v1: int, z00: int, z01: int, z10: int, z11: int, tp0: int, tp1: int, qp0: int, qp1: int)
    ensures
        u0 * (tp0 + (v0 * (-z00) + v1 * (-z10))) + u1 * (tp1 + (v0 * (-z01) + v1 * (-z11)))
            + (qp0 + (u0 * z00 + u1 * z01)) * v0 + (qp1 + (u0 * z10 + u1 * z11)) * v1
        == u0 * tp0 + u1 * tp1 + v0 * qp0 + v1 * qp1,
{
    lemma_dist2(u0, tp0, v0 * (-z00) + v1 * (-z10));
    lemma_dist2(u0, v0 * (-z00), v1 * (-z10));
    lemma_dist2(u1, tp1, v0 * (-z01) + v1 * (-z11));
    lemma_dist2(u1, v0 * (-z01), v1 * (-z11));
    lemma_dist2(v0, qp0, u0 * z00 + u1 * z01);
    lemma_dist2(v0, u0 * z00, u1 * z01);
    lemma_dist2(v1, qp1, u0 * z10 + u1 * z11);
    lemma_dist2(v1, u0 * z10, u1 * z11);
    lemma_neg_cancel(u0, v0, z00);
    lemma_neg_cancel(u0, v1, z10);
    lemma_neg_cancel(u1, v0, z01);
    lemma_neg_cancel(u1, v1, z11);
    lemma_swap(u0, z00, v0);
    lemma_swap(u0, z10, v1);
    lemma_swap(u1, z01, v0);
    lemma_swap(u1, z11, v1);
    assert(qp0 * v0 == v0 * qp0 && qp1 * v1 == v1 * qp1) by (nonlinear_arith);
    assert((u0 * z00) * v0 == v0 * (u0 * z00) && (u1 * z01) * v0 == v0 * (u1 * z01)) by (nonlinear_arith);
    assert((u0 * z10) * v1 == v1 * (u0 * z10) && (u1 * z11) * v1 == v1 * (u1 * z11)) by (nonlinear_arith);
}

/// One check, over sequences of integers: the commitments `cp` are
/// congruent to `pp x + u0 r0 + u1 r1`, and `dq` to `qq y + v0 s0 + v1 s1`.
proof fn lemma_check_algebra(
    g: Matrix<Scalar>, m: nat, n: nat,
    xl: Seq<int>, yl: Seq<int>, al: Seq<int>, bl: Seq<int>,
    r0: Seq<int>, r1: Seq<int>, s0: Seq<int>, s1: Seq<int>,
    cp: Seq<int>, dq: Seq<int>,
    pp: int, qq: int, u0: int, u1: int, v0: int, v1: int,
)
    requires
        forall|i: int| 0 <= i < m ==> md(#[trigger] cp[i]) == md(pp * xl[i] + u0 * r0[i] + u1 * r1[i]),
        forall|j: int| 0 <= j < n ==> md(#[trigger] dq[j]) == md(qq * yl[j] + v0 * s0[j] + v1 * s1[j]),
    ensures
        md(bil(g, cp, dq, m, n) + pp * dot(al, dq, n) + qq * dot(cp, bl, m)) == md(
            u0 * (v0 * bil(g, r0, s0, m, n) + v1 * bil(g, r0, s1, m, n) + qq * (dot(bl, r0, m) + bil(g, r0, yl, m, n)))
                + u1 * (v0 * bil(g, r1, s0, m, n) + v1 * bil(g, r1, s1, m, n) + qq * (dot(bl, r1, m) + bil(g, r1, yl, m, n)))
                + v0 * (pp * (dot(al, s0, n) + bil(g, xl, s0, m, n)))
                + v1 * (pp * (dot(al, s1, n) + bil(g, xl, s1, m, n)))
                + pp * qq * (dot(al, yl, n) + dot(xl, bl, m) + bil(g, xl, yl, m, n)),
        ),
{
    let c3 = comb3(pp, xl, u0, r0, u1, r1, m);
    let d3 = comb3(qq, yl, v0, s0, v1, s1, n);
    let c3 = comb3(pp, xl, u0, r0, u1, r1, m);
    let d3 = comb3(qq, yl, v0, s0, v1, s1, n);
    assert forall|i: int| 0 <= i < m implies md(#[trigger] cp[i]) == md(c3[i]) by {}
    assert forall|j: int| 0 <= j < n implies md(#[trigger] dq[j]) == md(d3[j]) by {}
    assert forall|j: int| 0 <= j < n implies md(#[trigger] al[j]) == md(al[j]) by {}
    assert forall|i: int| 0 <= i < m implies md(#[trigger] bl[i]) == md(bl[i]) by {}
    lemma_bil_cong(g, cp, c3, dq, d3, m, n);
    lemma_dot_cong(al, al, dq, d3, n);
    lemma_dot_cong(cp, c3, bl, bl, m);
    // expand
    lemma_bil_lin_left(g, pp, xl, u0, r0, u1, r1, m, d3, m, n);
    lemma_bil_lin_right(g, xl, qq, yl, v0, s0, v1, s1, n, m, n);
    lemma_bil_lin_right(g, r0, qq, yl, v0, s0, v1, s1, n, m, n);
    lemma_bil_lin_right(g, r1, qq, yl, v0, s0, v1, s1, n, m, n);
    lemma_dot_lin_right(al, qq, yl, v0, s0, v1, s1, n, n);
    lemma_dot_lin_left(pp, xl, u0, r0, u1, r1, m, bl, m);
    lemma_dot_sym(r0, bl, m);
    lemma_dot_sym(r1, bl, m);
    // congruence of the whole left side
    let (bcd, dad, dcb) = (bil(g, cp, dq, m, n), dot(al, dq, n), dot(cp, bl, m));
    let (b3, da3, dc3) = (bil(g, c3, d3, m, n), dot(al, d3, n), dot(c3, bl, m));
    lemma_cong_mul(dad, da3, pp);
    lemma_cong_mul(dcb, dc3, qq);
    lemma_cong_add(bcd, b3, pp * dad, pp * da3);
    lemma_cong_add(bcd + pp * dad, b3 + pp * da3, qq * dcb, qq * dc3);
    lemma_check_identity(
        pp, qq, u0, u1, v0, v1,
        bil(g, xl, yl, m, n), bil(g, xl, s0, m, n), bil(g, xl, s1, m, n),
        bil(g, r0, yl, m, n), bil(g, r0, s0, m, n), bil(g, r0, s1, m, n),
        bil(g, r1, yl, m, n), bil(g, r1, s0, m, n), bil(g, r1, s1, m, n),
        dot(al, yl, n), dot(al, s0, n), dot(al, s1, n), dot(xl, bl, m), dot(bl, r0, m), dot(bl, r1, m),
    );
}

/// The target that the witnesses with values `xs` and `ys` give the
/// equation `e`: `sum_j e(a_j, y_j) + sum_i e(x_i, b_i) + sum_ij gamma_ij e(x_i, y_j)`.
pub open spec fn target_for(e: Equation, xs: Seq<G1Point>, ys: Seq<G2Point>) -> int {
    dot(logs(e.a@), logs(ys), ys.len()) + dot(logs(xs), logs(e.b@), xs.len()) + bilt(
        e.gamma,
        logs(xs),
        logs(ys),
        xs.len(),
        ys.len(),
    )
}

/// `c` holds the commitments under `ck` to the variables `x`, one for each.
pub open spec fn commits_to<G: SourceGroup>(ck: crate::commit::CommitmentKey<G>, c: Seq<Com<G>>, x: Seq<crate::variable::Variable<G>>) -> bool {
    &&& c.len() == x.len()
    &&& forall|i: int| 0 <= i < x.len() ==> {
        &&& (#[trigger] c[i]).0.log() == com_first(ck, x[i].rand.0@, x[i].rand.1@)
        &&& c[i].1.log() == com_second(ck, x[i].value.log(), x[i].rand.0@, x[i].rand.1@)
    }
}

/// The check `(p, q)` in the form shared by all four:
/// `sum_ij gamma_ij e(c_ip, d_jq) + [p] sum_j e(a_j, d_jq) + [q] sum_i e(c_ip, b_i)`
/// is congruent to its right side plus `[p][q]` times the target.
proof fn lemma_check_pq(
    cks: CommitmentKeys,
    e: Equation,
    x: Seq<crate::variable::Variable<G1Point>>,
    y: Seq<crate::variable::Variable<G2Point>>,
    c: Seq<Com<G1Point>>,
    d: Seq<Com<G2Point>>,
    z: Matrix<Scalar>,
    pi: Proof,
    p: int,
    q: int,
)
    requires
        0 <= p < 2,
        0 <= q < 2,
        e.wf(),
        x.len() == e.b@.len(),
        y.len() == e.a@.len(),
        commits_to(cks.u, c, x),
        commits_to(cks.v, d, y),
        z.wf() && z.nrows() == 2 && z.ncols() == 2,
        is_proof_with(pi, cks, e, x, y, z),
    ensures
        md(bil(e.gamma, com_logs(c, p), com_logs(d, q), x.len(), y.len()) + p * dot(logs(e.a@), com_logs(d, q), y.len())
            + q * dot(com_logs(c, p), logs(e.b@), x.len()))
        == md(rhs(cks, pi, p, q) + p * q * target_for(e, values(x), values(y))),
{
    let (m, n) = (x.len(), y.len());
    let g = e.gamma;
    let (xl, yl, al, bl) = (logs(values(x)), logs(values(y)), logs(e.a@), logs(e.b@));
    let (r0, r1) = (vals(coins(rands(x), 0)), vals(coins(rands(x), 1)));
    let (s0, s1) = (vals(coins(rands(y), 0)), vals(coins(rands(y), 1)));
    let (u0, u1, v0, v1) = (key(cks.u, 0, p), key(cks.u, 1, p), key(cks.v, 0, q), key(cks.v, 1, q));
    let (cp, dq) = (com_logs(c, p), com_logs(d, q));
    assert forall|i: int| 0 <= i < m implies md(#[trigger] cp[i]) == md(p * xl[i] + u0 * r0[i] + u1 * r1[i]) by {
        let ci = c[i];
        assert(xl[i] == x[i].value.log());
        assert(r0[i] == x[i].rand.0@);
        assert(r1[i] == x[i].rand.1@);
        let e1 = u0 * r0[i] + u1 * r1[i];
        if p == 0 {
            assert(cp[i] == ci.0.log());
            lemma_md_md(e1);
        } else {
            assert(cp[i] == ci.1.log());
            lemma_md_md(xl[i] + u0 * r0[i] + u1 * r1[i]);
        }
    }
    assert forall|j: int| 0 <= j < n implies md(#[trigger] dq[j]) == md(q * yl[j] + v0 * s0[j] + v1 * s1[j]) by {
        let dj = d[j];
        assert(yl[j] == y[j].value.log());
        assert(s0[j] == y[j].rand.0@);
        assert(s1[j] == y[j].rand.1@);
        let e1 = v0 * s0[j] + v1 * s1[j];
        if q == 0 {
            assert(dq[j] == dj.0.log());
            lemma_md_md(e1);
        } else {
            assert(dq[j] == dj.1.log());
            lemma_md_md(yl[j] + v0 * s0[j] + v1 * s1[j]);
        }
    }
    lemma_check_algebra(g, m, n, xl, yl, al, bl, r0, r1, s0, s1, cp, dq, p, q, u0, u1, v0, v1);
    // the right side, entry by entry
    let rp = rands(x);
    let sp = rands(y);
    let t = |pp: int, qq: int| bilt(g, vals(coins(rp, pp)), vals(coins(sp, qq)), m, n);
    lemma_bil_bilt(g, r0, s0, m, n);
    lemma_bil_bilt(g, r0, s1, m, n);
    lemma_bil_bilt(g, r1, s0, m, n);
    lemma_bil_bilt(g, r1, s1, m, n);
    lemma_bil_bilt(g, r0, yl, m, n);
    lemma_bil_bilt(g, r1, yl, m, n);
    lemma_bil_bilt(g, xl, yl, m, n);
    let pm0 = phi_model(cks, e, values(y), rp, sp, 0, q);
    let pm1 = phi_model(cks, e, values(y), rp, sp, 1, q);
    let tm0 = theta_model(e, values(x), sp, 0, p);
    let tm1 = theta_model(e, values(x), sp, 1, p);
    assert(coins(rp, 0).len() == m && coins(rp, 1).len() == m);
    assert(coins(sp, 0).len() == n && coins(sp, 1).len() == n);
    assert(values(x).len() == m && values(y).len() == n);
    if q == 0 {
        assert(pm0 == v0 * bil(g, r0, s0, m, n) + v1 * bil(g, r0, s1, m, n));
        assert(pm1 == v0 * bil(g, r1, s0, m, n) + v1 * bil(g, r1, s1, m, n));
    } else {
        assert(pm0 == v0 * bil(g, r0, s0, m, n) + v1 * bil(g, r0, s1, m, n) + (dot(bl, r0, m) + bil(g, r0, yl, m, n)));
        assert(pm1 == v0 * bil(g, r1, s0, m, n) + v1 * bil(g, r1, s1, m, n) + (dot(bl, r1, m) + bil(g, r1, yl, m, n)));
    }
    assert(pm0 == v0 * bil(g, r0, s0, m, n) + v1 * bil(g, r0, s1, m, n) + q * (dot(bl, r0, m) + bil(g, r0, yl, m, n)));
    assert(pm1 == v0 * bil(g, r1, s0, m, n) + v1 * bil(g, r1, s1, m, n) + q * (dot(bl, r1, m) + bil(g, r1, yl, m, n)));
    if p == 0 {
        assert(tm0 == 0 && tm1 == 0);
    } else {
        assert(tm0 == dot(al, s0, n) + bil(g, xl, s0, m, n));
        assert(tm1 == dot(al, s1, n) + bil(g, xl, s1, m, n));
    }
    assert(tm0 == p * (dot(al, s0, n) + bil(g, xl, s0, m, n)));
    assert(tm1 == p * (dot(al, s1, n) + bil(g, xl, s1, m, n)));
    let zv0 = zv_model(cks.v, z, 0, q);
    let zv1 = zv_model(cks.v, z, 1, q);
    let zu0 = zu_model(cks.u, z, 0, p);
    let zu1 = zu_model(cks.u, z, 1, p);
    let (f0, f1, h0, h1) = (pi.phi.at(0, q)@, pi.phi.at(1, q)@, pi.theta.at(0, p)@, pi.theta.at(1, p)@);
    assert(pi.phi.at(0, p)@ == md(phi_model(cks, e, values(y), rp, sp, 0, p) + zv_model(cks.v, z, 0, p)));
    assert(pi.phi.at(1, p)@ == md(phi_model(cks, e, values(y), rp, sp, 1, p) + zv_model(cks.v, z, 1, p)));
    assert(f0 == md(pm0 + zv0));
    assert(f1 == md(pm1 + zv1));
    assert(h0 == md(tm0 + zu0));
    assert(h1 == md(tm1 + zu1));
    lemma_md_md(pm0 + zv0);
    lemma_md_md(pm1 + zv1);
    lemma_md_md(tm0 + zu0);
    lemma_md_md(tm1 + zu1);
    lemma_cong_mul(f0, pm0 + zv0, u0);
    lemma_cong_mul(f1, pm1 + zv1, u1);
    lemma_cong_mul(h0, tm0 + zu0, v0);
    lemma_cong_mul(h1, tm1 + zu1, v1);
    lemma_cong_add(u0 * f0, u0 * (pm0 + zv0), u1 * f1, u1 * (pm1 + zv1));
    lemma_cong_add(u0 * f0 + u1 * f1, u0 * (pm0 + zv0) + u1 * (pm1 + zv1), h0 * v0, (tm0 + zu0) * v0);
    lemma_cong_add(
        u0 * f0 + u1 * f1 + h0 * v0,
        u0 * (pm0 + zv0) + u1 * (pm1 + zv1) + (tm0 + zu0) * v0,
        h1 * v1,
        (tm1 + zu1) * v1,
    );
    lemma_z_cancel(u0, u1, v0, v1, z.at(0, 0)@, z.at(0, 1)@, z.at(1, 0)@, z.at(1, 1)@, pm0, pm1, tm0, tm1);
    let rhs_v = rhs(cks, pi, p, q);
    assert(rhs_v == u0 * f0 + u1 * f1 + h0 * v0 + h1 * v1);
    let tf = target_for(e, values(x), values(y));
    assert(tf == dot(al, yl, n) + dot(xl, bl, m) + bil(g, xl, yl, m, n));
    lemma_cong_add(rhs_v, u0 * pm0 + u1 * pm1 + v0 * tm0 + v1 * tm1, p * q * tf, p * q * tf);
}

/// Completeness: commitments to witnesses of an equation, with the proof that
/// `Prove` makes from them for any matrix `z`, pass the four checks of
/// verification, whichever way the commitment keys were set up.
pub proof fn lemma_honest_proof_verifies(
    cks: CommitmentKeys,
    e: Equation,
    x: Seq<crate::variable::Variable<G1Point>>,
    y: Seq<crate::variable::Variable<G2Point>>,
    c: Seq<Com<G1Point>>,
    d: Seq<Com<G2Point>>,
    z: Matrix<Scalar>,
    pi: Proof,
)
    requires
        e.wf(),
        x.len() == e.b@.len(),
        y.len() == e.a@.len(),
        commits_to(cks.u, c, x),
        commits_to(cks.v, d, y),
        e.target@ == md(target_for(e, values(x), values(y))),
        z.wf() && z.nrows() == 2 && z.ncols() == 2,
        is_proof_with(pi, cks, e, x, y, z),
    ensures
        shapes_fit(e, c, d, pi),
        checks_hold(e, cks, c, d, pi),
{
    let (m, n) = (x.len(), y.len());
    let g = e.gamma;
    let (al, bl) = (logs(e.a@), logs(e.b@));
    let tf = target_for(e, values(x), values(y));
    lemma_check_pq(cks, e, x, y, c, d, z, pi, 0, 0);
    lemma_check_pq(cks, e, x, y, c, d, z, pi, 0, 1);
    lemma_check_pq(cks, e, x, y, c, d, z, pi, 1, 0);
    lemma_check_pq(cks, e, x, y, c, d, z, pi, 1, 1);
    let (c0, c1, d0, d1) = (com_logs(c, 0), com_logs(c, 1), com_logs(d, 0), com_logs(d, 1));
    // the first check
    assert(lhs_1(e, c, d, c.len()) == bil(g, c0, d0, m, n));
    // the second
    assert(lhs_c_bd(e, c, d, 0, c.len()) == bil(g, c0, d1, m, n) + 1 * dot(c0, bl, m));
    // the third
    lemma_bil_bilt(g, c1, d0, m, n);
    assert(lhs_3(e, c, d, d.len()) == bil(g, c1, d0, m, n) + 1 * dot(al, d0, n));
    // the fourth, with the target
    assert(lhs_a_d(e, d, d.len()) + lhs_c_bd(e, c, d, 1, c.len()) == bil(g, c1, d1, m, n) + 1 * dot(al, d1, n) + 1
        * dot(c1, bl, m));
    lemma_md_md(tf);
    lemma_cong_add(e.target@, tf, rhs(cks, pi, 1, 1), rhs(cks, pi, 1, 1));
    assert(rhs(cks, pi, 1, 1) + 1 * 1 * tf == tf + rhs(cks, pi, 1, 1));
}

/// The check `(p, q)` in the form shared by all four.
pub open spec fn check_general(
    e: Equation,
    cks: CommitmentKeys,
    c: Seq<Com<G1Point>>,
    d: Seq<Com<G2Point>>,
    pi: Proof,
    p: int,
    q: int,
) -> bool {
    md(bil(e.gamma, com_logs(c, p), com_logs(d, q), c.len(), d.len()) + p * dot(logs(e.a@), com_logs(d, q), d.len())
        + q * dot(com_logs(c, p), logs(e.b@), c.len())) == md(rhs(cks, pi, p, q) + p * q * e.target@)
}

/// The four checks of verification are the four instances of the shared form.
proof fn lemma_checks_general(e: Equation, cks: CommitmentKeys, c: Seq<Com<G1Point>>, d: Seq<Com<G2Point>>, pi: Proof)
    ensures
        checks_hold(e, cks, c, d, pi) <==> (check_general(e, cks, c, d, pi, 0, 0) && check_general(e, cks, c, d, pi, 0, 1)
            && check_general(e, cks, c, d, pi, 1, 0) && check_general(e, cks, c, d, pi, 1, 1)),
{
    let (m, n) = (c.len(), d.len());
    let g = e.gamma;
    let (al, bl) = (logs(e.a@), logs(e.b@));
    let (c0, c1, d0, d1) = (com_logs(c, 0), com_logs(c, 1), com_logs(d, 0), com_logs(d, 1));
    assert(lhs_1(e, c, d, m) == bil(g, c0, d0, m, n) + 0 * dot(al, d0, n) + 0 * dot(c0, bl, m));
    assert(lhs_c_bd(e, c, d, 0, m) == bil(g, c0, d1, m, n) + 0 * dot(al, d1, n) + 1 * dot(c0, bl, m));
    lemma_bil_bilt(g, c1, d0, m, n);
    assert(lhs_3(e, c, d, n) == bil(g, c1, d0, m, n) + 1 * dot(al, d0, n) + 0 * dot(c1, bl, m));
    assert(lhs_a_d(e, d, n) + lhs_c_bd(e, c, d, 1, m) == bil(g, c1, d1, m, n) + 1 * dot(al, d1, n) + 1 * dot(c1, bl, m));
    assert(0 * 0 * e.target@ == 0 && 1 * 1 * e.target@ == e.target@) by (nonlinear_arith);
    assert(rhs(cks, pi, 0, 0) + 0 * 0 * e.target@ == rhs(cks, pi, 0, 0));
    assert(rhs(cks, pi, 0, 1) + 0 * 1 * e.target@ == rhs(cks, pi, 0, 1));
    assert(rhs(cks, pi, 1, 0) + 1 * 0 * e.target@ == rhs(cks, pi, 1, 0));
    assert(rhs(cks, pi, 1, 1) + 1 * 1 * e.target@ == e.target@ + rhs(cks, pi, 1, 1));
}

/// The expanded left side of a check after randomization.
proof fn lemma_rd_identity(
    pp: int, qq: int, u0: int, u1: int, v0: int, v1: int,
    bcd: int, bcs0: int, bcs1: int, br0d: int, br0s0: int, br0s1: int, br1d: int, br1s0: int, br1s1: int,
    dad: int, das0: int, das1: int, dcb: int, dbr0: int, dbr1: int,
)
    ensures
        1 * (1 * bcd + v0 * bcs0 + v1 * bcs1) + u0 * (1 * br0d + v0 * br0s0 + v1 * br0s1)
            + u1 * (1 * br1d + v0 * br1s0 + v1 * br1s1) + pp * (1 * dad + v0 * das0 + v1 * das1)
            + qq * (1 * dcb + u0 * dbr0 + u1 * dbr1)
        == bcd + pp * dad + qq * dcb + (u0 * (v0 * br0s0 + v1 * br0s1 + br0d + qq * dbr0)
            + u1 * (v0 * br1s0 + v1 * br1s1 + br1d + qq * dbr1) + v0 * (bcs0 + pp * das0) + v1 * (bcs1 + pp * das1)),
{
    lemma_dist3(u0, 1 * br0d, v0 * br0s0, v1 * br0s1);
    lemma_dist3(u1, 1 * br1d, v0 * br1s0, v1 * br1s1);
    lemma_dist3(pp, 1 * dad, v0 * das0, v1 * das1);
    lemma_dist3(qq, 1 * dcb, u0 * dbr0, u1 * dbr1);
    lemma_dist2(u0, v0 * br0s0 + v1 * br0s1 + br0d, qq * dbr0);
    lemma_dist3(u0, v0 * br0s0, v1 * br0s1, br0d);
    lemma_dist2(u1, v0 * br1s0 + v1 * br1s1 + br1d, qq * dbr1);
    lemma_dist3(u1, v0 * br1s0, v1 * br1s1, br1d);
    lemma_dist2(v0, bcs0, pp * das0);
    lemma_dist2(v1, bcs1, pp * das1);
    lemma_swap(u0, qq, dbr0);
    lemma_swap(u1, qq, dbr1);
    lemma_swap(v0, pp, das0);
    lemma_swap(v1, pp, das1);
    lemma_swap(qq, u0, dbr0);
    lemma_swap(qq, u1, dbr1);
    lemma_swap(pp, v0, das0);
    lemma_swap(pp, v1, das1);
}

/// One check after randomization, over sequences of integers: the new
/// commitments `cn` are congruent to `cp + u0 r0 + u1 r1`, and `dn` to
/// `dq + v0 s0 + v1 s1`.
proof fn lemma_rd_algebra(
    g: Matrix<Scalar>, m: nat, n: nat,
    al: Seq<int>, bl: Seq<int>, cp: Seq<int>, dq: Seq<int>,
    r0: Seq<int>, r1: Seq<int>, s0: Seq<int>, s1: Seq<int>,
    cn: Seq<int>, dn: Seq<int>,
    pp: int, qq: int, u0: int, u1: int, v0: int, v1: int,
)
    requires
        forall|i: int| 0 <= i < m ==> md(#[trigger] cn[i]) == md(1 * cp[i] + u0 * r0[i] + u1 * r1[i]),
        forall|j: int| 0 <= j < n ==> md(#[trigger] dn[j]) == md(1 * dq[j] + v0 * s0[j] + v1 * s1[j]),
    ensures
        md(bil(g, cn, dn, m, n) + pp * dot(al, dn, n) + qq * dot(cn, bl, m)) == md(
            bil(g, cp, dq, m, n) + pp * dot(al, dq, n) + qq * dot(cp, bl, m) + (
                u0 * (v0 * bil(g, r0, s0, m, n) + v1 * bil(g, r0, s1, m, n) + bil(g, r0, dq, m, n) + qq * dot(bl, r0, m))
                + u1 * (v0 * bil(g, r1, s0, m, n) + v1 * bil(g, r1, s1, m, n) + bil(g, r1, dq, m, n) + qq * dot(bl, r1, m))
                + v0 * (bil(g, cp, s0, m, n) + pp * dot(al, s0, n))
                + v1 * (bil(g, cp, s1, m, n) + pp * dot(al, s1, n))
            ),
        ),
{
    let c3 = comb3(1, cp, u0, r0, u1, r1, m);
    let d3 = comb3(1, dq, v0, s0, v1, s1, n);
    assert forall|i: int| 0 <= i < m implies md(#[trigger] cn[i]) == md(c3[i]) by {}
    assert forall|j: int| 0 <= j < n implies md(#[trigger] dn[j]) == md(d3[j]) by {}
    assert forall|j: int| 0 <= j < n implies md(#[trigger] al[j]) == md(al[j]) by {}
    assert forall|i: int| 0 <= i < m implies md(#[trigger] bl[i]) == md(bl[i]) by {}
    lemma_bil_cong(g, cn, c3, dn, d3, m, n);
    lemma_dot_cong(al, al, dn, d3, n);
    lemma_dot_cong(cn, c3, bl, bl, m);
    lemma_bil_lin_left(g, 1, cp, u0, r0, u1, r1, m, d3, m, n);
    lemma_bil_lin_right(g, cp, 1, dq, v0, s0, v1, s1, n, m, n);
    lemma_bil_lin_right(g, r0, 1, dq, v0, s0, v1, s1, n, m, n);
    lemma_bil_lin_right(g, r1, 1, dq, v0, s0, v1, s1, n, m, n);
    lemma_dot_lin_right(al, 1, dq, v0, s0, v1, s1, n, n);
    lemma_dot_lin_left(1, cp, u0, r0, u1, r1, m, bl, m);
    lemma_dot_sym(r0, bl, m);
    lemma_dot_sym(r1, bl, m);
    let (bnd, dad, dcb) = (bil(g, cn, dn, m, n), dot(al, dn, n), dot(cn, bl, m));
    let (b3, da3, dc3) = (bil(g, c3, d3, m, n), dot(al, d3, n), dot(c3, bl, m));
    lemma_cong_mul(dad, da3, pp);
    lemma_cong_mul(dcb, dc3, qq);
    lemma_cong_add(bnd, b3, pp * dad, pp * da3);
    lemma_cong_add(bnd + pp * dad, b3 + pp * da3, qq * dcb, qq * dc3);
    lemma_rd_identity(
        pp, qq, u0, u1, v0, v1,
        bil(g, cp, dq, m, n), bil(g, cp, s0, m, n), bil(g, cp, s1, m, n),
        bil(g, r0, dq, m, n), bil(g, r0, s0, m, n), bil(g, r0, s1, m, n),
        bil(g, r1, dq, m, n), bil(g, r1, s0, m, n), bil(g, r1, s1, m, n),
        dot(al, dq, n), dot(al, s0, n), dot(al, s1, n), dot(cp, bl, m), dot(bl, r0, m), dot(bl, r1, m),
    );
}

/// Commuting a product.
proof fn lemma_comm(a: int, b: int) by (nonlinear_arith)
    ensures
        a * b == b * a,
{
}

/// One check survives randomization.
proof fn lemma_rd_pq(
    cks: CommitmentKeys,
    new: ProofSystem,
    old: ProofSystem,
    cr: Seq<ComRandomness<G1Point>>,
    ds: Seq<ComRandomness<G2Point>>,
    z: Matrix<Scalar>,
    p: int,
    q: int,
)
    requires
        0 <= p < 2,
        0 <= q < 2,
        shapes_fit(old.equation, old.c@, old.d@, old.proof),
        is_randomized(new, old, cks, cr, ds, z),
        check_general(old.equation, cks, old.c@, old.d@, old.proof, p, q),
    ensures
        check_general(new.equation, cks, new.c@, new.d@, new.proof, p, q),
{
    let e = old.equation;
    let (oc, od, nc, nd) = (old.c@, old.d@, new.c@, new.d@);
    let (opi, npi) = (old.proof, new.proof);
    let (m, n) = (oc.len(), od.len());
    let g = e.gamma;
    let (al, bl) = (logs(e.a@), logs(e.b@));
    let (cp, dq, cn, dn) = (com_logs(oc, p), com_logs(od, q), com_logs(nc, p), com_logs(nd, q));
    let (rr, ss) = (fresh(cr), fresh(ds));
    let (r0, r1, s0, s1) = (vals(coins(rr, 0)), vals(coins(rr, 1)), vals(coins(ss, 0)), vals(coins(ss, 1)));
    let (u0, u1, v0, v1) = (key(cks.u, 0, p), key(cks.u, 1, p), key(cks.v, 0, q), key(cks.v, 1, q));
    assert forall|i: int| 0 <= i < m implies md(#[trigger] cn[i]) == md(1 * cp[i] + u0 * r0[i] + u1 * r1[i]) by {
        let x = cr[i];
        assert(r0[i] == x.1.0@ && r1[i] == x.1.1@);
        if p == 0 {
            assert(cn[i] == nc[i].0@ && cp[i] == oc[i].0@);
            lemma_md_md(oc[i].0@ + u0 * r0[i] + u1 * r1[i]);
        } else {
            assert(cn[i] == nc[i].1@ && cp[i] == oc[i].1@);
            lemma_md_md(oc[i].1@ + u0 * r0[i] + u1 * r1[i]);
        }
    }
    assert forall|j: int| 0 <= j < n implies md(#[trigger] dn[j]) == md(1 * dq[j] + v0 * s0[j] + v1 * s1[j]) by {
        let x = ds[j];
        assert(s0[j] == x.1.0@ && s1[j] == x.1.1@);
        if q == 0 {
            assert(dn[j] == nd[j].0@ && dq[j] == od[j].0@);
            lemma_md_md(od[j].0@ + v0 * s0[j] + v1 * s1[j]);
        } else {
            assert(dn[j] == nd[j].1@ && dq[j] == od[j].1@);
            lemma_md_md(od[j].1@ + v0 * s0[j] + v1 * s1[j]);
        }
    }
    lemma_rd_algebra(g, m, n, al, bl, cp, dq, r0, r1, s0, s1, cn, dn, p, q, u0, u1, v0, v1);
    // the increments of the proof
    assert(rr.len() == m && ss.len() == n);
    assert(logs(parts(ds, q)) =~= dq);
    assert(logs(parts(cr, p)) =~= cp);
    lemma_bil_bilt(g, r0, s0, m, n);
    lemma_bil_bilt(g, r0, s1, m, n);
    lemma_bil_bilt(g, r1, s0, m, n);
    lemma_bil_bilt(g, r1, s1, m, n);
    lemma_bil_bilt(g, r0, dq, m, n);
    lemma_bil_bilt(g, r1, dq, m, n);
    let prd0 = phi_rd_model(cks, e, parts(ds, q), rr, ss, 0, q);
    let prd1 = phi_rd_model(cks, e, parts(ds, q), rr, ss, 1, q);
    let trd0 = theta_rd_model(e, parts(cr, p), ss, 0, p);
    let trd1 = theta_rd_model(e, parts(cr, p), ss, 1, p);
    if q == 0 {
        assert(prd0 == v0 * bil(g, r0, s0, m, n) + v1 * bil(g, r0, s1, m, n) + bil(g, r0, dq, m, n));
        assert(prd1 == v0 * bil(g, r1, s0, m, n) + v1 * bil(g, r1, s1, m, n) + bil(g, r1, dq, m, n));
    } else {
        assert(prd0 == v0 * bil(g, r0, s0, m, n) + v1 * bil(g, r0, s1, m, n) + bil(g, r0, dq, m, n) + dot(bl, r0, m));
        assert(prd1 == v0 * bil(g, r1, s0, m, n) + v1 * bil(g, r1, s1, m, n) + bil(g, r1, dq, m, n) + dot(bl, r1, m));
    }
    assert(prd0 == v0 * bil(g, r0, s0, m, n) + v1 * bil(g, r0, s1, m, n) + bil(g, r0, dq, m, n) + q * dot(bl, r0, m));
    assert(prd1 == v0 * bil(g, r1, s0, m, n) + v1 * bil(g, r1, s1, m, n) + bil(g, r1, dq, m, n) + q * dot(bl, r1, m));
    if p == 0 {
        assert(trd0 == bil(g, cp, s0, m, n) && trd1 == bil(g, cp, s1, m, n));
    } else {
        assert(trd0 == bil(g, cp, s0, m, n) + dot(al, s0, n));
        assert(trd1 == bil(g, cp, s1, m, n) + dot(al, s1, n));
    }
    assert(trd0 == bil(g, cp, s0, m, n) + p * dot(al, s0, n));
    assert(trd1 == bil(g, cp, s1, m, n) + p * dot(al, s1, n));
    // the new right side
    let zv0 = zv_model(cks.v, z, 0, q);
    let zv1 = zv_model(cks.v, z, 1, q);
    let zu0 = zu_model(cks.u, z, 0, p);
    let zu1 = zu_model(cks.u, z, 1, p);
    let (fo0, fo1, ho0, ho1) = (opi.phi.at(0, q)@, opi.phi.at(1, q)@, opi.theta.at(0, p)@, opi.theta.at(1, p)@);
    let (fn0, fn1, hn0, hn1) = (npi.phi.at(0, q)@, npi.phi.at(1, q)@, npi.theta.at(0, p)@, npi.theta.at(1, p)@);
    assert(npi.phi.at(0, p)@ == md(opi.phi.at(0, p)@ + phi_rd_model(cks, e, parts(ds, p), rr, ss, 0, p) + zv_model(cks.v, z, 0, p)));
    assert(npi.phi.at(1, p)@ == md(opi.phi.at(1, p)@ + phi_rd_model(cks, e, parts(ds, p), rr, ss, 1, p) + zv_model(cks.v, z, 1, p)));
    assert(fn0 == md(fo0 + prd0 + zv0));
    assert(fn1 == md(fo1 + prd1 + zv1));
    assert(hn0 == md(ho0 + trd0 + zu0));
    assert(hn1 == md(ho1 + trd1 + zu1));
    lemma_md_md(fo0 + prd0 + zv0);
    lemma_md_md(fo1 + prd1 + zv1);
    lemma_md_md(ho0 + trd0 + zu0);
    lemma_md_md(ho1 + trd1 + zu1);
    lemma_cong_mul(fn0, fo0 + prd0 + zv0, u0);
    lemma_cong_mul(fn1, fo1 + prd1 + zv1, u1);
    lemma_cong_mul(hn0, ho0 + trd0 + zu0, v0);
    lemma_cong_mul(hn1, ho1 + trd1 + zu1, v1);
    lemma_cong_add(u0 * fn0, u0 * (fo0 + prd0 + zv0), u1 * fn1, u1 * (fo1 + prd1 + zv1));
    lemma_cong_add(u0 * fn0 + u1 * fn1, u0 * (fo0 + prd0 + zv0) + u1 * (fo1 + prd1 + zv1), hn0 * v0, (ho0 + trd0 + zu0) * v0);
    lemma_cong_add(
        u0 * fn0 + u1 * fn1 + hn0 * v0,
        u0 * (fo0 + prd0 + zv0) + u1 * (fo1 + prd1 + zv1) + (ho0 + trd0 + zu0) * v0,
        hn1 * v1,
        (ho1 + trd1 + zu1) * v1,
    );
    lemma_z_cancel(u0, u1, v0, v1, z.at(0, 0)@, z.at(0, 1)@, z.at(1, 0)@, z.at(1, 1)@, fo0 + prd0, fo1 + prd1, ho0 + trd0, ho1 + trd1);
    lemma_dist2(u0, fo0, prd0);
    lemma_dist2(u1, fo1, prd1);
    lemma_dist2(v0, ho0, trd0);
    lemma_dist2(v1, ho1, trd1);
    lemma_comm(ho0, v0);
    lemma_comm(ho1, v1);
    let inc = u0 * prd0 + u1 * prd1 + v0 * trd0 + v1 * trd1;
    let rhs_old = rhs(cks, opi, p, q);
    let rhs_new = rhs(cks, npi, p, q);
    assert(rhs_old == u0 * fo0 + u1 * fo1 + ho0 * v0 + ho1 * v1);
    assert(rhs_new == u0 * fn0 + u1 * fn1 + hn0 * v0 + hn1 * v1);
    assert(md(rhs_new) == md(rhs_old + inc));
    let pqt = p * q * e.target@;
    let lhs_old = bil(g, cp, dq, m, n) + p * dot(al, dq, n) + q * dot(cp, bl, m);
    lemma_cong_add(lhs_old, rhs_old + pqt, inc, inc);
    lemma_cong_add(rhs_new, rhs_old + inc, pqt, pqt);
    assert(new.equation == e);
}

/// Randomization keeps a proof system that verifies one that verifies: the
/// commitments randomized with fresh coins and the proof adapted by
/// `RdProof` to them pass the four checks, for any matrix `Z'`.
pub proof fn lemma_randomized_verifies(
    cks: CommitmentKeys,
    new: ProofSystem,
    old: ProofSystem,
    cr: Seq<ComRandomness<G1Point>>,
    ds: Seq<ComRandomness<G2Point>>,
    z: Matrix<Scalar>,
)
    requires
        shapes_fit(old.equation, old.c@, old.d@, old.proof),
        checks_hold(old.equation, cks, old.c@, old.d@, old.proof),
        is_randomized(new, old, cks, cr, ds, z),
    ensures
        shapes_fit(new.equation, new.c@, new.d@, new.proof),
        checks_hold(new.equation, cks, new.c@, new.d@, new.proof),
{
    lemma_checks_general(old.equation, cks, old.c@, old.d@, old.proof);
    lemma_checks_general(new.equation, cks, new.c@, new.d@, new.proof);
    lemma_rd_pq(cks, new, old, cr, ds, z, 0, 0);
    lemma_rd_pq(cks, new, old, cr, ds, z, 0, 1);
    lemma_rd_pq(cks, new, old, cr, ds, z, 1, 0);
    lemma_rd_pq(cks, new, old, cr, ds, z, 1, 1);
}

/// The right side of a check is additive in the proof.
proof fn lemma_rhs_add(cks: CommitmentKeys, r: Proof, a: Proof, b: Proof, p: int, q: int)
    requires
        0 <= p < 2,
        0 <= q < 2,
        forall|pp: int, k: int| 0 <= pp < 2 && 0 <= k < 2 ==> {
            &&& (#[trigger] r.phi.at(pp, k))@ == md(a.phi.at(pp, k)@ + b.phi.at(pp, k)@)
            &&& r.theta.at(pp, k)@ == md(a.theta.at(pp, k)@ + b.theta.at(pp, k)@)
        },
    ensures
        md(rhs(cks, r, p, q)) == md(rhs(cks, a, p, q) + rhs(cks, b, p, q)),
{
    let (u0, u1, v0, v1) = (key(cks.u, 0, p), key(cks.u, 1, p), key(cks.v, 0, q), key(cks.v, 1, q));
    assert(r.phi.at(0, p)@ == md(a.phi.at(0, p)@ + b.phi.at(0, p)@));
    assert(r.phi.at(1, p)@ == md(a.phi.at(1, p)@ + b.phi.at(1, p)@));
    let (fr0, fr1, hr0, hr1) = (r.phi.at(0, q)@, r.phi.at(1, q)@, r.theta.at(0, p)@, r.theta.at(1, p)@);
    let (fa0, fa1, ha0, ha1) = (a.phi.at(0, q)@, a.phi.at(1, q)@, a.theta.at(0, p)@, a.theta.at(1, p)@);
    let (fb0, fb1, hb0, hb1) = (b.phi.at(0, q)@, b.phi.at(1, q)@, b.theta.at(0, p)@, b.theta.at(1, p)@);
    assert(fr0 == md(fa0 + fb0));
    assert(fr1 == md(fa1 + fb1));
    assert(hr0 == md(ha0 + hb0));
    assert(hr1 == md(ha1 + hb1));
    lemma_md_md(fa0 + fb0);
    lemma_md_md(fa1 + fb1);
    lemma_md_md(ha0 + hb0);
    lemma_md_md(ha1 + hb1);
    lemma_cong_mul(fr0, fa0 + fb0, u0);
    lemma_cong_mul(fr1, fa1 + fb1, u1);
    lemma_cong_mul(hr0, ha0 + hb0, v0);
    lemma_cong_mul(hr1, ha1 + hb1, v1);
    lemma_cong_add(u0 * fr0, u0 * (fa0 + fb0), u1 * fr1, u1 * (fa1 + fb1));
    lemma_cong_add(u0 * fr0 + u1 * fr1, u0 * (fa0 + fb0) + u1 * (fa1 + fb1), hr0 * v0, (ha0 + hb0) * v0);
    lemma_cong_add(
        u0 * fr0 + u1 * fr1 + hr0 * v0,
        u0 * (fa0 + fb0) + u1 * (fa1 + fb1) + (ha0 + hb0) * v0,
        hr1 * v1,
        (ha1 + hb1) * v1,
    );
    lemma_dist2(u0, fa0, fb0);
    lemma_dist2(u1, fa1, fb1);
    lemma_dist2(v0, ha0, hb0);
    lemma_dist2(v1, ha1, hb1);
}

/// One check of the homomorphic sum is the sum of that check of both parts.
proof fn lemma_sum_pq(cks: CommitmentKeys, r: ProofSystem, a: ProofSystem, b: ProofSystem, p: int, q: int)
    requires
        0 <= p < 2,
        0 <= q < 2,
        shapes_fit(a.equation, a.c@, a.d@, a.proof),
        shapes_fit(b.equation, b.c@, b.d@, b.proof),
        is_sum(r, a, b),
        check_general(a.equation, cks, a.c@, a.d@, a.proof, p, q),
        check_general(b.equation, cks, b.c@, b.d@, b.proof, p, q),
    ensures
        check_general(r.equation, cks, r.c@, r.d@, r.proof, p, q),
{
    let (ea, eb, er) = (a.equation, b.equation, r.equation);
    let (m1, n1, m2, n2) = (a.c@.len(), a.d@.len(), b.c@.len(), b.d@.len());
    let (cpa, dqa, cpb, dqb) = (com_logs(a.c@, p), com_logs(a.d@, q), com_logs(b.c@, p), com_logs(b.d@, q));
    let (aa, ab, ba, bb) = (logs(ea.a@), logs(eb.a@), logs(ea.b@), logs(eb.b@));
    assert(com_logs(r.c@, p) =~= cpa + cpb);
    assert(com_logs(r.d@, q) =~= dqa + dqb);
    assert(logs(er.a@) =~= aa + ab);
    assert(logs(er.b@) =~= ba + bb);
    lemma_bil_block(er.gamma, ea.gamma, eb.gamma, cpa, cpb, dqa, dqb, m1 + m2);
    if m2 == 0 {
        assert(bil(eb.gamma, cpb, dqb, 0, n2) == 0);
    }
    lemma_dot_split(aa, ab, dqa, dqb, n1, n2);
    lemma_dot_split(cpa, cpb, ba, bb, m1, m2);
    let (la_b, la_a, la_c) = (bil(ea.gamma, cpa, dqa, m1, n1), dot(aa, dqa, n1), dot(cpa, ba, m1));
    let (lb_b, lb_a, lb_c) = (bil(eb.gamma, cpb, dqb, m2, n2), dot(ab, dqb, n2), dot(cpb, bb, m2));
    lemma_dist2(p, la_a, lb_a);
    lemma_dist2(q, la_c, lb_c);
    let lhs_a = la_b + p * la_a + q * la_c;
    let lhs_b = lb_b + p * lb_a + q * lb_c;
    let lhs_r = bil(er.gamma, cpa + cpb, dqa + dqb, m1 + m2, n1 + n2) + p * dot(aa + ab, dqa + dqb, n1 + n2)
        + q * dot(cpa + cpb, ba + bb, m1 + m2);
    assert(lhs_r == lhs_a + lhs_b);
    let (ta, tb) = (ea.target@, eb.target@);
    let (ra, rb, rr) = (rhs(cks, a.proof, p, q), rhs(cks, b.proof, p, q), rhs(cks, r.proof, p, q));
    lemma_rhs_add(cks, r.proof, a.proof, b.proof, p, q);
    lemma_cong_add(lhs_a, ra + p * q * ta, lhs_b, rb + p * q * tb);
    lemma_md_md(ta + tb);
    lemma_cong_mul(er.target@, ta + tb, p * q);
    lemma_dist2(p * q, ta, tb);
    lemma_cong_add(rr, ra + rb, p * q * er.target@, p * q * ta + p * q * tb);
}

/// The homomorphic sum of two proof systems that verify verifies under the
/// composed equation.
pub proof fn lemma_sum_verifies(cks: CommitmentKeys, r: ProofSystem, a: ProofSystem, b: ProofSystem)
    requires
        shapes_fit(a.equation, a.c@, a.d@, a.proof),
        checks_hold(a.equation, cks, a.c@, a.d@, a.proof),
        shapes_fit(b.equation, b.c@, b.d@, b.proof),
        checks_hold(b.equation, cks, b.c@, b.d@, b.proof),
        is_sum(r, a, b),
    ensures
        shapes_fit(r.equation, r.c@, r.d@, r.proof),
        checks_hold(r.equation, cks, r.c@, r.d@, r.proof),
{
    lemma_checks_general(a.equation, cks, a.c@, a.d@, a.proof);
    lemma_checks_general(b.equation, cks, b.c@, b.d@, b.proof);
    lemma_checks_general(r.equation, cks, r.c@, r.d@, r.proof);
    lemma_sum_pq(cks, r, a, b, 0, 0);
    lemma_sum_pq(cks, r, a, b, 0, 1);
    lemma_sum_pq(cks, r, a, b, 1, 0);
    lemma_sum_pq(cks, r, a, b, 1, 1);
}

} // verus!

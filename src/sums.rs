//! Finite sums over sequences of integers, the bilinear forms that the
//! exponents of an equation define, and their behaviour modulo the group
//! order.
use vstd::prelude::*;
use crate::group::{lemma_cong_add, lemma_cong_mul, lemma_md_md, md, Scalar, SourceGroup};
use crate::matrix::{is_block_diag, Matrix};

verus! {

/// The discrete logarithms of a sequence of group elements.
pub open spec fn logs<G: SourceGroup>(s: Seq<G>) -> Seq<int> {
    s.map_values(|g: G| g.log())
}

/// The values of a sequence of scalars.
pub open spec fn vals(s: Seq<Scalar>) -> Seq<int> {
    s.map_values(|x: Scalar| x@)
}

/// `sum_{k < len} a_k b_k`.
pub open spec fn dot(a: Seq<int>, b: Seq<int>, len: nat) -> int
    decreases len,
{
    if len == 0 {
        0
    } else {
        dot(a, b, (len - 1) as nat) + a[len - 1] * b[len - 1]
    }
}

/// `sum_{j < len} b_j gamma_ij`.
pub open spec fn row_dot(g: Matrix<Scalar>, b: Seq<int>, i: int, len: nat) -> int
    decreases len,
{
    if len == 0 {
        0
    } else {
        row_dot(g, b, i, (len - 1) as nat) + b[len - 1] * g.at(i, len - 1)@
    }
}

/// `sum_{i < len} a_i gamma_ij`.
pub open spec fn col_dot(g: Matrix<Scalar>, a: Seq<int>, j: int, len: nat) -> int
    decreases len,
{
    if len == 0 {
        0
    } else {
        col_dot(g, a, j, (len - 1) as nat) + a[len - 1] * g.at(len - 1, j)@
    }
}

/// `sum_{i < m} a_i (sum_{j < n} b_j gamma_ij)`.
pub open spec fn bil(g: Matrix<Scalar>, a: Seq<int>, b: Seq<int>, m: nat, n: nat) -> int
    decreases m,
{
    if m == 0 {
        0
    } else {
        bil(g, a, b, (m - 1) as nat, n) + a[m - 1] * row_dot(g, b, m - 1, n)
    }
}

/// `sum_{j < n} b_j (sum_{i < m} a_i gamma_ij)`, the same form summed the
/// other way round.
pub open spec fn bilt(g: Matrix<Scalar>, a: Seq<int>, b: Seq<int>, m: nat, n: nat) -> int
    decreases n,
{
    if n == 0 {
        0
    } else {
        bilt(g, a, b, m, (n - 1) as nat) + b[n - 1] * col_dot(g, a, n - 1, m)
    }
}

/// The sequence `k1 x1 + k2 x2 + k3 x3` of length `len`.
pub open spec fn comb3(k1: int, x1: Seq<int>, k2: int, x2: Seq<int>, k3: int, x3: Seq<int>, len: nat) -> Seq<int> {
    Seq::new(len, |i: int| k1 * x1[i] + k2 * x2[i] + k3 * x3[i])
}

/// Distributing a combination of three terms.
proof fn lemma_distr3(k1: int, k2: int, k3: int, d1: int, d2: int, d3: int, y1: int, y2: int, y3: int, b: int)
    ensures
        k1 * d1 + k2 * d2 + k3 * d3 + (k1 * y1 + k2 * y2 + k3 * y3) * b
            == k1 * (d1 + y1 * b) + k2 * (d2 + y2 * b) + k3 * (d3 + y3 * b),
        k1 * d1 + k2 * d2 + k3 * d3 + b * (k1 * y1 + k2 * y2 + k3 * y3)
            == k1 * (d1 + b * y1) + k2 * (d2 + b * y2) + k3 * (d3 + b * y3),
{
    vstd::arithmetic::mul::lemma_mul_is_distributive_add(k1, d1, y1 * b);
    vstd::arithmetic::mul::lemma_mul_is_distributive_add(k2, d2, y2 * b);
    vstd::arithmetic::mul::lemma_mul_is_distributive_add(k3, d3, y3 * b);
    vstd::arithmetic::mul::lemma_mul_is_distributive_add(k1, d1, b * y1);
    vstd::arithmetic::mul::lemma_mul_is_distributive_add(k2, d2, b * y2);
    vstd::arithmetic::mul::lemma_mul_is_distributive_add(k3, d3, b * y3);
    vstd::arithmetic::mul::lemma_mul_is_distributive_add_other_way(b, k1 * y1 + k2 * y2, k3 * y3);
    vstd::arithmetic::mul::lemma_mul_is_distributive_add_other_way(b, k1 * y1, k2 * y2);
    vstd::arithmetic::mul::lemma_mul_is_distributive_add(b, k1 * y1 + k2 * y2, k3 * y3);
    vstd::arithmetic::mul::lemma_mul_is_distributive_add(b, k1 * y1, k2 * y2);
    vstd::arithmetic::mul::lemma_mul_is_associative(k1, y1, b);
    vstd::arithmetic::mul::lemma_mul_is_associative(k2, y2, b);
    vstd::arithmetic::mul::lemma_mul_is_associative(k3, y3, b);
    vstd::arithmetic::mul::lemma_mul_is_commutative(k1 * y1, b);
    vstd::arithmetic::mul::lemma_mul_is_commutative(k2 * y2, b);
    vstd::arithmetic::mul::lemma_mul_is_commutative(k3 * y3, b);
    vstd::arithmetic::mul::lemma_mul_is_commutative(y1, b);
    vstd::arithmetic::mul::lemma_mul_is_commutative(y2, b);
    vstd::arithmetic::mul::lemma_mul_is_commutative(y3, b);
    vstd::arithmetic::mul::lemma_mul_is_associative(k1, b, y1);
    vstd::arithmetic::mul::lemma_mul_is_associative(k2, b, y2);
    vstd::arithmetic::mul::lemma_mul_is_associative(k3, b, y3);
}

/// The two ways of summing the bilinear form agree.
pub proof fn lemma_bil_bilt(g: Matrix<Scalar>, a: Seq<int>, b: Seq<int>, m: nat, n: nat)
    ensures
        bil(g, a, b, m, n) == bilt(g, a, b, m, n),
    decreases m,
{
    if m > 0 {
        lemma_bil_bilt(g, a, b, (m - 1) as nat, n);
        lemma_bilt_step(g, a, b, m, n);
    } else {
        lemma_bilt_zero(g, a, b, n);
    }
}

/// With no rows the transposed sum is zero.
proof fn lemma_bilt_zero(g: Matrix<Scalar>, a: Seq<int>, b: Seq<int>, n: nat)
    ensures
        bilt(g, a, b, 0, n) == 0,
    decreases n,
{
    if n > 0 {
        lemma_bilt_zero(g, a, b, (n - 1) as nat);
        assert(b[n - 1] * 0 == 0);
    }
}

/// Adding the row `m - 1` to the transposed sum.
proof fn lemma_bilt_step(g: Matrix<Scalar>, a: Seq<int>, b: Seq<int>, m: nat, n: nat)
    requires
        m > 0,
    ensures
        bilt(g, a, b, m, n) == bilt(g, a, b, (m - 1) as nat, n) + a[m - 1] * row_dot(g, b, m - 1, n),
    decreases n,
{
    if n > 0 {
        lemma_bilt_step(g, a, b, m, (n - 1) as nat);
        let am = a[m - 1];
        let bj = b[n - 1];
        let c0 = col_dot(g, a, n - 1, (m - 1) as nat);
        let gm = g.at(m - 1, n - 1)@;
        let r0 = row_dot(g, b, m - 1, (n - 1) as nat);
        assert(col_dot(g, a, n - 1, m) == c0 + am * gm);
        assert(row_dot(g, b, m - 1, n) == r0 + bj * gm);
        assert(bj * (c0 + am * gm) + am * r0 == bj * c0 + am * (r0 + bj * gm)) by (nonlinear_arith)
            requires
                bj == b[n - 1],
        ;
    }
}

/// `dot` is symmetric.
pub proof fn lemma_dot_sym(a: Seq<int>, b: Seq<int>, len: nat)
    ensures
        dot(a, b, len) == dot(b, a, len),
    decreases len,
{
    if len > 0 {
        lemma_dot_sym(a, b, (len - 1) as nat);
        assert(a[len - 1] * b[len - 1] == b[len - 1] * a[len - 1]) by (nonlinear_arith);
    }
}

/// `dot` is linear in its first argument.
pub proof fn lemma_dot_lin_left(
    k1: int, x1: Seq<int>, k2: int, x2: Seq<int>, k3: int, x3: Seq<int>, l: nat, b: Seq<int>, len: nat,
)
    requires
        len <= l,
    ensures
        dot(comb3(k1, x1, k2, x2, k3, x3, l), b, len)
            == k1 * dot(x1, b, len) + k2 * dot(x2, b, len) + k3 * dot(x3, b, len),
    decreases len,
{
    if len > 0 {
        let i = len - 1;
        lemma_dot_lin_left(k1, x1, k2, x2, k3, x3, l, b, (len - 1) as nat);
        let (d1, d2, d3) = (dot(x1, b, (len - 1) as nat), dot(x2, b, (len - 1) as nat), dot(x3, b, (len - 1) as nat));
        let (y1, y2, y3, bi) = (x1[i], x2[i], x3[i], b[i]);
        assert(comb3(k1, x1, k2, x2, k3, x3, l)[i] == k1 * y1 + k2 * y2 + k3 * y3);
        lemma_distr3(k1, k2, k3, d1, d2, d3, y1, y2, y3, bi);
    }
}

/// `dot` is linear in its second argument.
pub proof fn lemma_dot_lin_right(
    a: Seq<int>, k1: int, x1: Seq<int>, k2: int, x2: Seq<int>, k3: int, x3: Seq<int>, l: nat, len: nat,
)
    requires
        len <= l,
    ensures
        dot(a, comb3(k1, x1, k2, x2, k3, x3, l), len)
            == k1 * dot(a, x1, len) + k2 * dot(a, x2, len) + k3 * dot(a, x3, len),
{
    lemma_dot_sym(a, comb3(k1, x1, k2, x2, k3, x3, l), len);
    lemma_dot_lin_left(k1, x1, k2, x2, k3, x3, l, a, len);
    lemma_dot_sym(x1, a, len);
    lemma_dot_sym(x2, a, len);
    lemma_dot_sym(x3, a, len);
}

/// `row_dot` is linear in its sequence.
proof fn lemma_row_dot_lin(
    g: Matrix<Scalar>, k1: int, x1: Seq<int>, k2: int, x2: Seq<int>, k3: int, x3: Seq<int>, l: nat, i: int, n: nat,
)
    requires
        n <= l,
    ensures
        row_dot(g, comb3(k1, x1, k2, x2, k3, x3, l), i, n)
            == k1 * row_dot(g, x1, i, n) + k2 * row_dot(g, x2, i, n) + k3 * row_dot(g, x3, i, n),
    decreases n,
{
    if n > 0 {
        let j = n - 1;
        lemma_row_dot_lin(g, k1, x1, k2, x2, k3, x3, l, i, (n - 1) as nat);
        let (d1, d2, d3) = (row_dot(g, x1, i, (n - 1) as nat), row_dot(g, x2, i, (n - 1) as nat), row_dot(g, x3, i, (n - 1) as nat));
        let (y1, y2, y3, gij) = (x1[j], x2[j], x3[j], g.at(i, j)@);
        assert(comb3(k1, x1, k2, x2, k3, x3, l)[j] == k1 * y1 + k2 * y2 + k3 * y3);
        lemma_distr3(k1, k2, k3, d1, d2, d3, y1, y2, y3, gij);
    }
}

/// The bilinear form is linear in its first argument.
pub proof fn lemma_bil_lin_left(
    g: Matrix<Scalar>, k1: int, x1: Seq<int>, k2: int, x2: Seq<int>, k3: int, x3: Seq<int>, l: nat, b: Seq<int>, m: nat, n: nat,
)
    requires
        m <= l,
    ensures
        bil(g, comb3(k1, x1, k2, x2, k3, x3, l), b, m, n)
            == k1 * bil(g, x1, b, m, n) + k2 * bil(g, x2, b, m, n) + k3 * bil(g, x3, b, m, n),
    decreases m,
{
    if m > 0 {
        let i = m - 1;
        lemma_bil_lin_left(g, k1, x1, k2, x2, k3, x3, l, b, (m - 1) as nat, n);
        let (d1, d2, d3) = (bil(g, x1, b, (m - 1) as nat, n), bil(g, x2, b, (m - 1) as nat, n), bil(g, x3, b, (m - 1) as nat, n));
        let (y1, y2, y3, ri) = (x1[i], x2[i], x3[i], row_dot(g, b, i, n));
        assert(comb3(k1, x1, k2, x2, k3, x3, l)[i] == k1 * y1 + k2 * y2 + k3 * y3);
        lemma_distr3(k1, k2, k3, d1, d2, d3, y1, y2, y3, ri);
    }
}

/// The bilinear form is linear in its second argument.
pub proof fn lemma_bil_lin_right(
    g: Matrix<Scalar>, a: Seq<int>, k1: int, x1: Seq<int>, k2: int, x2: Seq<int>, k3: int, x3: Seq<int>, l: nat, m: nat, n: nat,
)
    requires
        n <= l,
    ensures
        bil(g, a, comb3(k1, x1, k2, x2, k3, x3, l), m, n)
            == k1 * bil(g, a, x1, m, n) + k2 * bil(g, a, x2, m, n) + k3 * bil(g, a, x3, m, n),
    decreases m,
{
    if m > 0 {
        let i = m - 1;
        lemma_bil_lin_right(g, a, k1, x1, k2, x2, k3, x3, l, (m - 1) as nat, n);
        lemma_row_dot_lin(g, k1, x1, k2, x2, k3, x3, l, i, n);
        let (d1, d2, d3) = (bil(g, a, x1, (m - 1) as nat, n), bil(g, a, x2, (m - 1) as nat, n), bil(g, a, x3, (m - 1) as nat, n));
        let (r1, r2, r3, ai) = (row_dot(g, x1, i, n), row_dot(g, x2, i, n), row_dot(g, x3, i, n), a[i]);
        lemma_distr3(k1, k2, k3, d1, d2, d3, r1, r2, r3, ai);
    }
}

/// Termwise congruent sequences have congruent `dot`s.
pub proof fn lemma_dot_cong(a: Seq<int>, a2: Seq<int>, b: Seq<int>, b2: Seq<int>, len: nat)
    requires
        forall|i: int| 0 <= i < len ==> md(#[trigger] a[i]) == md(a2[i]),
        forall|i: int| 0 <= i < len ==> md(#[trigger] b[i]) == md(b2[i]),
    ensures
        md(dot(a, b, len)) == md(dot(a2, b2, len)),
    decreases len,
{
    if len > 0 {
        let i = len - 1;
        lemma_dot_cong(a, a2, b, b2, (len - 1) as nat);
        lemma_cong_mul(a[i], a2[i], b[i]);
        lemma_cong_mul(b[i], b2[i], a2[i]);
        lemma_cong_add(dot(a, b, (len - 1) as nat), dot(a2, b2, (len - 1) as nat), a[i] * b[i], a2[i] * b2[i]);
    }
}

/// Termwise congruent sequences have congruent `row_dot`s.
proof fn lemma_row_dot_cong(g: Matrix<Scalar>, b: Seq<int>, b2: Seq<int>, i: int, n: nat)
    requires
        forall|j: int| 0 <= j < n ==> md(#[trigger] b[j]) == md(b2[j]),
    ensures
        md(row_dot(g, b, i, n)) == md(row_dot(g, b2, i, n)),
    decreases n,
{
    if n > 0 {
        let j = n - 1;
        lemma_row_dot_cong(g, b, b2, i, (n - 1) as nat);
        lemma_cong_mul(b[j], b2[j], g.at(i, j)@);
        lemma_cong_add(row_dot(g, b, i, (n - 1) as nat), row_dot(g, b2, i, (n - 1) as nat), b[j] * g.at(i, j)@, b2[j] * g.at(i, j)@);
    }
}

/// Termwise congruent sequences give congruent bilinear forms.
pub proof fn lemma_bil_cong(g: Matrix<Scalar>, a: Seq<int>, a2: Seq<int>, b: Seq<int>, b2: Seq<int>, m: nat, n: nat)
    requires
        forall|i: int| 0 <= i < m ==> md(#[trigger] a[i]) == md(a2[i]),
        forall|j: int| 0 <= j < n ==> md(#[trigger] b[j]) == md(b2[j]),
    ensures
        md(bil(g, a, b, m, n)) == md(bil(g, a2, b2, m, n)),
    decreases m,
{
    if m > 0 {
        let i = m - 1;
        lemma_bil_cong(g, a, a2, b, b2, (m - 1) as nat, n);
        lemma_row_dot_cong(g, b, b2, i, n);
        let (r, r2) = (row_dot(g, b, i, n), row_dot(g, b2, i, n));
        lemma_cong_mul(a[i], a2[i], r);
        lemma_cong_mul(r, r2, a2[i]);
        lemma_cong_add(bil(g, a, b, (m - 1) as nat, n), bil(g, a2, b2, (m - 1) as nat, n), a[i] * r, a2[i] * r2);
    }
}

/// A sum over a concatenation splits at the seam.
pub proof fn lemma_dot_split(a1: Seq<int>, a2: Seq<int>, b1: Seq<int>, b2: Seq<int>, n1: nat, k: nat)
    requires
        a1.len() == n1,
        b1.len() == n1,
        k <= a2.len(),
        k <= b2.len(),
    ensures
        dot(a1 + a2, b1 + b2, n1 + k) == dot(a1, b1, n1) + dot(a2, b2, k),
    decreases k,
{
    if k == 0 {
        lemma_dot_prefix(a1, a2, b1, b2, n1, n1);
    } else {
        lemma_dot_split(a1, a2, b1, b2, n1, (k - 1) as nat);
        assert((a1 + a2)[n1 + k - 1] == a2[k - 1]);
        assert((b1 + b2)[n1 + k - 1] == b2[k - 1]);
        assert((n1 + k - 1) as nat == (n1 + (k - 1)) as nat);
    }
}

/// Within the first part, a sum over a concatenation is a sum over that part.
proof fn lemma_dot_prefix(a1: Seq<int>, a2: Seq<int>, b1: Seq<int>, b2: Seq<int>, n1: nat, k: nat)
    requires
        a1.len() == n1,
        b1.len() == n1,
        k <= n1,
    ensures
        dot(a1 + a2, b1 + b2, k) == dot(a1, b1, k),
    decreases k,
{
    if k > 0 {
        lemma_dot_prefix(a1, a2, b1, b2, n1, (k - 1) as nat);
        assert((a1 + a2)[k - 1] == a1[k - 1]);
        assert((b1 + b2)[k - 1] == b1[k - 1]);
    }
}

/// A row of the upper blocks of a block-diagonal matrix meets only `g1`.
proof fn lemma_row_top(
    g: Matrix<Scalar>, g1: Matrix<Scalar>, g2: Matrix<Scalar>, b1: Seq<int>, b2: Seq<int>, i: int, k: nat,
)
    requires
        is_block_diag(g, g1, g2),
        g.nrows() == g1.nrows() + g2.nrows(),
        g.ncols() == g1.ncols() + g2.ncols(),
        0 <= i < g1.nrows(),
        b1.len() == g1.ncols(),
        k <= g.ncols(),
    ensures
        row_dot(g, b1 + b2, i, k) == row_dot(g1, b1, i, if k <= g1.ncols() { k } else { g1.ncols() }),
    decreases k,
{
    if k > 0 {
        lemma_row_top(g, g1, g2, b1, b2, i, (k - 1) as nat);
        let j = k - 1;
        assert(g.at(i, j) == g.at(i, j));
        if j < g1.ncols() {
            assert(g.at(i, j) == g1.at(i, j));
            assert((b1 + b2)[j] == b1[j]);
        } else {
            assert(g.at(i, j)@ == 0);
            assert((b1 + b2)[j] * 0 == 0);
        }
    }
}

/// A row of the lower blocks of a block-diagonal matrix meets only `g2`.
proof fn lemma_row_bottom(
    g: Matrix<Scalar>, g1: Matrix<Scalar>, g2: Matrix<Scalar>, b1: Seq<int>, b2: Seq<int>, i: int, k: nat,
)
    requires
        is_block_diag(g, g1, g2),
        g.nrows() == g1.nrows() + g2.nrows(),
        g.ncols() == g1.ncols() + g2.ncols(),
        g1.nrows() <= i < g.nrows(),
        b1.len() == g1.ncols(),
        b2.len() == g2.ncols(),
        k <= g.ncols(),
    ensures
        row_dot(g, b1 + b2, i, k) == if k <= g1.ncols() {
            0
        } else {
            row_dot(g2, b2, i - g1.nrows(), (k - g1.ncols()) as nat)
        },
    decreases k,
{
    if k > 0 {
        lemma_row_bottom(g, g1, g2, b1, b2, i, (k - 1) as nat);
        let j = k - 1;
        assert(g.at(i, j) == g.at(i, j));
        if j < g1.ncols() {
            assert(g.at(i, j)@ == 0);
            assert((b1 + b2)[j] * 0 == 0);
        } else {
            let i2 = i - g1.nrows();
            let j2 = j - g1.ncols();
            assert(g.at(i, j) == g2.at(i2, j2));
            assert((b1 + b2)[j] == b2[j2]);
            assert(row_dot(g2, b2, i2, (j2 + 1) as nat) == row_dot(g2, b2, i2, j2 as nat) + b2[j2] * g2.at(i2, j2)@);
            assert((k - g1.ncols()) as nat == (j2 + 1) as nat);
            if j2 == 0 {
                assert(row_dot(g2, b2, i2, 0) == 0);
            } else {
                assert((k - 1 - g1.ncols()) as nat == j2 as nat);
            }
        }
    }
}

/// The bilinear form of a block-diagonal matrix over concatenations is the
/// sum of the forms of the blocks.
pub proof fn lemma_bil_block(
    g: Matrix<Scalar>, g1: Matrix<Scalar>, g2: Matrix<Scalar>,
    a1: Seq<int>, a2: Seq<int>, b1: Seq<int>, b2: Seq<int>, k: nat,
)
    requires
        is_block_diag(g, g1, g2),
        g.nrows() == g1.nrows() + g2.nrows(),
        g.ncols() == g1.ncols() + g2.ncols(),
        a1.len() == g1.nrows(),
        b1.len() == g1.ncols(),
        a2.len() == g2.nrows(),
        b2.len() == g2.ncols(),
        k <= g.nrows(),
    ensures
        bil(g, a1 + a2, b1 + b2, k, g.ncols()) == if k <= g1.nrows() {
            bil(g1, a1, b1, k, g1.ncols())
        } else {
            bil(g1, a1, b1, g1.nrows(), g1.ncols()) + bil(g2, a2, b2, (k - g1.nrows()) as nat, g2.ncols())
        },
    decreases k,
{
    if k > 0 {
        lemma_bil_block(g, g1, g2, a1, a2, b1, b2, (k - 1) as nat);
        let i = k - 1;
        if i < g1.nrows() {
            lemma_row_top(g, g1, g2, b1, b2, i, g.ncols());
            assert((a1 + a2)[i] == a1[i]);
        } else {
            lemma_row_bottom(g, g1, g2, b1, b2, i, g.ncols());
            assert((a1 + a2)[i] == a2[i - g1.nrows()]);
            assert((k - 1 - g1.nrows()) as nat == ((k - g1.nrows()) as nat - 1) as nat);
        }
    }
}

/// `md(x * y')` for a `y'` congruent to `y` is congruent to `x * y`.
pub proof fn lemma_prod_cong(x: int, y1: int, y: int)
    requires
        md(y1) == md(y),
    ensures
        md(md(x * y1)) == md(x * y),
        md(md(y1 * x)) == md(y * x),
{
    lemma_cong_mul(y1, y, x);
    lemma_md_md(x * y1);
    lemma_md_md(y1 * x);
}

} // verus!

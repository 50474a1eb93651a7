//! The bilinear group BLS12-381 as this library sees it.
//!
//! Each value is modelled by its discrete logarithm: a scalar by its residue
//! modulo the group order `r`, a point of G1 (of G2) by the `k` in `0..r` with
//! `p = k * g1` (`p = k * g2`), and an element of the target group by the `k`
//! with `t = k * e(g1, g2)`. The points are only ever made by the functions of
//! this module, all of which stay in the prime-order subgroups, so that each
//! value has such a logarithm and the group laws hold of the models.
use vstd::prelude::*;
use ark_bls12_381::{Bls12_381, Fr, G1Affine, G2Affine};
use ark_ec::pairing::{Pairing, PairingOutput};
use ark_ec::{AffineRepr, CurveGroup};
use ark_ff::{One, Zero};
use ark_std::rand::rngs::StdRng;
use ark_serialize::{CanonicalDeserialize, CanonicalSerialize};
use ark_std::UniformRand;

verus! {

/// The order `r` of G1, G2 and the target group, which is also the size of
/// the scalar field.
pub open spec fn order() -> int {
    let limb: int = 18446744073709551616;
    ((8353516859464449352 * limb + 3691218898639771653) * limb + 6034159408538082302) * limb
        + 18446744069414584321
}

/// Reduction modulo the group order.
pub open spec fn md(x: int) -> int {
    x % order()
}

/// The group order is positive.
pub proof fn lemma_order_pos()
    ensures
        order() > 1,
{
}

/// Reducing before adding does not change the residue of a sum.
pub proof fn lemma_md_add(a: int, b: int)
    ensures
        md(md(a) + md(b)) == md(a + b),
        md(md(a) + b) == md(a + b),
        md(a + md(b)) == md(a + b),
{
    lemma_order_pos();
    vstd::arithmetic::div_mod::lemma_add_mod_noop(a, b, order());
    vstd::arithmetic::div_mod::lemma_add_mod_noop_right(a, b, order());
    vstd::arithmetic::div_mod::lemma_add_mod_noop_right(b, a, order());
}

/// Reducing before subtracting does not change the residue of a difference.
pub proof fn lemma_md_sub(a: int, b: int)
    ensures
        md(md(a) - md(b)) == md(a - b),
        md(a - md(b)) == md(a - b),
        md(md(a) - b) == md(a - b),
{
    lemma_order_pos();
    vstd::arithmetic::div_mod::lemma_sub_mod_noop(a, b, order());
    vstd::arithmetic::div_mod::lemma_sub_mod_noop_right(a, b, order());
    lemma_md_add(a, -b);
}

/// Reducing before multiplying does not change the residue of a product.
pub proof fn lemma_md_mul(a: int, b: int)
    ensures
        md(md(a) * md(b)) == md(a * b),
        md(md(a) * b) == md(a * b),
        md(a * md(b)) == md(a * b),
{
    lemma_order_pos();
    vstd::arithmetic::div_mod::lemma_mul_mod_noop_general(a, b, order());
}

/// A residue is its own reduction.
pub proof fn lemma_md_md(a: int)
    ensures
        md(md(a)) == md(a),
        0 <= md(a) < order(),
        0 <= a < order() ==> md(a) == a,
{
    lemma_order_pos();
    vstd::arithmetic::div_mod::lemma_mod_twice(a, order());
    vstd::arithmetic::div_mod::lemma_mod_bound(a, order());
    if 0 <= a < order() {
        vstd::arithmetic::div_mod::lemma_small_mod(a as nat, order() as nat);
    }
}

/// Negation as subtraction from zero.
pub proof fn lemma_md_neg(a: int)
    ensures
        md(-md(a)) == md(-a),
{
    lemma_md_sub(0, a);
}

/// Sums of congruent terms are congruent.
pub proof fn lemma_cong_add(p1: int, q1: int, p2: int, q2: int)
    requires
        md(p1) == md(q1),
        md(p2) == md(q2),
    ensures
        md(p1 + p2) == md(q1 + q2),
{
    lemma_md_add(p1, p2);
    lemma_md_add(q1, q2);
}

/// Differences of congruent terms are congruent.
pub proof fn lemma_cong_sub(p1: int, q1: int, p2: int, q2: int)
    requires
        md(p1) == md(q1),
        md(p2) == md(q2),
    ensures
        md(p1 - p2) == md(q1 - q2),
{
    lemma_md_sub(p1, p2);
    lemma_md_sub(q1, q2);
}

/// Multiples of congruent terms are congruent.
pub proof fn lemma_cong_mul(p: int, q: int, k: int)
    requires
        md(p) == md(q),
    ensures
        md(p * k) == md(q * k),
        md(k * p) == md(k * q),
{
    lemma_md_mul(p, k);
    lemma_md_mul(q, k);
    lemma_md_mul(k, p);
    lemma_md_mul(k, q);
}

#[verifier::external_type_specification]
#[verifier::external_body]
pub struct ExStdRng(StdRng);

/// A scalar of BLS12-381, an element of the field of size `r`.
#[verifier::external_body]
#[derive(Copy)]
pub struct Scalar {
    inner: Fr,
}

/// A point of the prime-order subgroup G1 of BLS12-381, in affine form.
#[verifier::external_body]
#[derive(Copy)]
pub struct G1Point {
    inner: G1Affine,
}

/// A point of the prime-order subgroup G2 of BLS12-381, in affine form.
#[verifier::external_body]
#[derive(Copy)]
pub struct G2Point {
    inner: G2Affine,
}

/// An element of the target group of the BLS12-381 pairing.
#[verifier::external_body]
#[derive(Copy)]
pub struct Gt {
    inner: PairingOutput<Bls12_381>,
}

impl Clone for Scalar {
    fn clone(&self) -> (r: Scalar)
        ensures
            r == *self,
    {
        *self
    }
}

impl Clone for G1Point {
    fn clone(&self) -> (r: G1Point)
        ensures
            r == *self,
    {
        *self
    }
}

impl Clone for G2Point {
    fn clone(&self) -> (r: G2Point)
        ensures
            r == *self,
    {
        *self
    }
}

impl Clone for Gt {
    fn clone(&self) -> (r: Gt)
        ensures
            r == *self,
    {
        *self
    }
}

/// The integer that a scalar stands for.
pub uninterp spec fn scalar_value(s: Scalar) -> int;

/// The discrete logarithm of a point of G1 to the base `g1`.
pub uninterp spec fn g1_log(p: G1Point) -> int;

/// The discrete logarithm of a point of G2 to the base `g2`.
pub uninterp spec fn g2_log(p: G2Point) -> int;

/// The discrete logarithm of a target group element to the base `e(g1, g2)`.
pub uninterp spec fn gt_log(t: Gt) -> int;

impl View for Scalar {
    type V = int;

    open spec fn view(&self) -> int {
        md(scalar_value(*self))
    }
}

impl View for G1Point {
    type V = int;

    open spec fn view(&self) -> int {
        md(g1_log(*self))
    }
}

impl View for G2Point {
    type V = int;

    open spec fn view(&self) -> int {
        md(g2_log(*self))
    }
}

impl View for Gt {
    type V = int;

    open spec fn view(&self) -> int {
        md(gt_log(*self))
    }
}

// Scalars.

/// Relies on `Fr::zero`.
#[verifier::external_body]
fn fr_zero() -> (r: Scalar)
    ensures
        scalar_value(r) == 0,
{
    Scalar { inner: Fr::zero() }
}

/// Relies on `Fr::one`.
#[verifier::external_body]
fn fr_one() -> (r: Scalar)
    ensures
        r@ == 1,
{
    Scalar { inner: Fr::one() }
}

/// Relies on `Fr`'s `+`, addition modulo `r`.
#[verifier::external_body]
fn fr_add(a: Scalar, b: Scalar) -> (r: Scalar)
    ensures
        r@ == md(a@ + b@),
{
    Scalar { inner: a.inner + b.inner }
}

/// Relies on `Fr`'s `-`, subtraction modulo `r`.
#[verifier::external_body]
fn fr_sub(a: Scalar, b: Scalar) -> (r: Scalar)
    ensures
        r@ == md(a@ - b@),
{
    Scalar { inner: a.inner - b.inner }
}

/// Relies on `Fr`'s `*`, multiplication modulo `r`.
#[verifier::external_body]
fn fr_mul(a: Scalar, b: Scalar) -> (r: Scalar)
    ensures
        r@ == md(a@ * b@),
{
    Scalar { inner: a.inner * b.inner }
}

/// Relies on `Fr`'s unary `-`, negation modulo `r`.
#[verifier::external_body]
fn fr_neg(a: Scalar) -> (r: Scalar)
    ensures
        r@ == md(-a@),
{
    Scalar { inner: -a.inner }
}

/// Relies on `Fr::rand`: any scalar may come out.
#[verifier::external_body]
fn fr_rand(rng: &mut StdRng) -> (r: Scalar) {
    Scalar { inner: Fr::rand(rng) }
}

/// The `n` bytes of `v`, least significant first.
pub open spec fn le_bytes(v: int, n: nat) -> Seq<u8>
    decreases n,
{
    if n == 0 {
        Seq::empty()
    } else {
        seq![(v % 256) as u8] + le_bytes(v / 256, (n - 1) as nat)
    }
}

/// Relies on `CanonicalSerialize::serialize_compressed` for `Fr`, which
/// writes the 32 bytes of the scalar's value below `r`, least significant
/// first; writing into a vector does not fail.
#[verifier::external_body]
fn fr_to_bytes(a: Scalar) -> (r: Vec<u8>)
    ensures
        r@ == le_bytes(a@, 32),
{
    let mut out = Vec::new();
    let _ = a.inner.serialize_compressed(&mut out);
    out
}

/// The integer whose bytes, least significant first, are `b`.
pub open spec fn le_value(b: Seq<u8>) -> int
    decreases b.len(),
{
    if b.len() == 0 {
        0
    } else {
        b[0] as int + 256 * le_value(b.drop_first())
    }
}

/// Relies on `CanonicalDeserialize::deserialize_compressed` for `Fr`, which
/// reads 32 bytes, least significant first, and accepts them exactly when
/// their value is below `r`.
#[verifier::external_body]
fn fr_from_bytes(b: &[u8]) -> (r: Option<Scalar>)
    requires
        b@.len() == 32,
    ensures
        r.is_some() == (le_value(b@) < order()),
        r.is_some() ==> r.unwrap()@ == le_value(b@),
{
    match Fr::deserialize_compressed(b) {
        Ok(inner) => Some(Scalar { inner }),
        Err(_) => None,
    }
}

impl Scalar {
    /// The scalar 0.
    pub fn zero() -> (r: Scalar)
        ensures
            r@ == 0,
    {
        fr_zero()
    }

    /// The scalar 1.
    pub fn one() -> (r: Scalar)
        ensures
            r@ == 1,
    {
        fr_one()
    }

    /// A scalar drawn uniformly at random.
    pub fn rand(rng: &mut StdRng) -> (r: Scalar) {
        fr_rand(rng)
    }

    /// The scalar `n`.
    pub fn from_u64(n: u64) -> (r: Scalar)
        ensures
            r@ == md(n as int),
    {
        fr_from_u64(n)
    }

    pub fn minus(&self, other: &Scalar) -> (r: Scalar)
        ensures
            r@ == md(self@ - other@),
    {
        fr_sub(*self, *other)
    }

    /// The canonical encoding: the 32 bytes of the value, least significant
    /// first.
    pub fn to_bytes(&self) -> (r: Vec<u8>)
        ensures
            r@ == le_bytes(self@, 32),
    {
        fr_to_bytes(*self)
    }

    /// The scalar whose canonical encoding is `b`, if its value is below `r`.
    pub fn from_bytes(b: &[u8]) -> (r: Option<Scalar>)
        requires
            b@.len() == 32,
        ensures
            r.is_some() == (le_value(b@) < order()),
            r.is_some() ==> r.unwrap()@ == le_value(b@),
    {
        fr_from_bytes(b)
    }

    /// Whether two scalars are the same.
    pub fn equals(&self, other: &Scalar) -> (r: bool)
        ensures
            r == (self@ == other@),
    {
        fr_eq(*self, *other)
    }
}

/// Relies on `Fr::from(u64)`: the residue of `n` modulo `r`.
#[verifier::external_body]
fn fr_from_u64(n: u64) -> (r: Scalar)
    ensures
        r@ == md(n as int),
{
    Scalar { inner: Fr::from(n) }
}

// The source groups.

/// What the commitment scheme needs of a source group: its identity, its
/// addition, negation and the multiplication by a scalar, over a model of
/// each element by its discrete logarithm modulo `r`.
pub trait SourceGroup: Copy + Sized {
    /// The discrete logarithm of the element, in `0..r`.
    spec fn log(&self) -> int;

    proof fn lemma_log_bounded(&self)
        ensures
            0 <= self.log() < order(),
    ;

    fn identity() -> (r: Self)
        ensures
            r.log() == 0,
    ;

    fn plus(&self, other: &Self) -> (r: Self)
        ensures
            r.log() == md(self.log() + other.log()),
    ;

    fn negate(&self) -> (r: Self)
        ensures
            r.log() == md(-self.log()),
    ;

    fn times(&self, k: &Scalar) -> (r: Self)
        ensures
            r.log() == md(self.log() * k@),
    ;
}

/// Relies on `G1Affine::zero`, the point at infinity.
#[verifier::external_body]
fn g1_zero() -> (r: G1Point)
    ensures
        g1_log(r) == 0,
{
    G1Point { inner: G1Affine::zero() }
}

/// Relies on `G1Affine::generator`, the base `g1` of the model.
#[verifier::external_body]
fn g1_generator() -> (r: G1Point)
    ensures
        r@ == 1,
{
    G1Point { inner: G1Affine::generator() }
}

/// Relies on the addition of G1 points, taken back to affine form.
#[verifier::external_body]
fn g1_add(a: G1Point, b: G1Point) -> (r: G1Point)
    ensures
        r@ == md(a@ + b@),
{
    G1Point { inner: (a.inner + b.inner).into_affine() }
}

/// Relies on the negation of a G1 point.
#[verifier::external_body]
fn g1_neg(a: G1Point) -> (r: G1Point)
    ensures
        r@ == md(-a@),
{
    G1Point { inner: -a.inner }
}

/// Relies on the multiplication of a G1 point by a scalar.
#[verifier::external_body]
fn g1_mul(a: G1Point, k: Scalar) -> (r: G1Point)
    ensures
        r@ == md(a@ * k@),
{
    G1Point { inner: (a.inner * k.inner).into_affine() }
}

/// Relies on `G1Affine::rand`, which multiplies a curve point by the
/// cofactor and so stays in the subgroup: any element may come out.
#[verifier::external_body]
fn g1_rand(rng: &mut StdRng) -> (r: G1Point) {
    G1Point { inner: G1Affine::rand(rng) }
}

/// Relies on `G2Affine::zero`, the point at infinity.
#[verifier::external_body]
fn g2_zero() -> (r: G2Point)
    ensures
        g2_log(r) == 0,
{
    G2Point { inner: G2Affine::zero() }
}

/// Relies on `G2Affine::generator`, the base `g2` of the model.
#[verifier::external_body]
fn g2_generator() -> (r: G2Point)
    ensures
        r@ == 1,
{
    G2Point { inner: G2Affine::generator() }
}

/// Relies on the addition of G2 points, taken back to affine form.
#[verifier::external_body]
fn g2_add(a: G2Point, b: G2Point) -> (r: G2Point)
    ensures
        r@ == md(a@ + b@),
{
    G2Point { inner: (a.inner + b.inner).into_affine() }
}

/// Relies on the negation of a G2 point.
#[verifier::external_body]
fn g2_neg(a: G2Point) -> (r: G2Point)
    ensures
        r@ == md(-a@),
{
    G2Point { inner: -a.inner }
}

/// Relies on the multiplication of a G2 point by a scalar.
#[verifier::external_body]
fn g2_mul(a: G2Point, k: Scalar) -> (r: G2Point)
    ensures
        r@ == md(a@ * k@),
{
    G2Point { inner: (a.inner * k.inner).into_affine() }
}

/// Relies on `G2Affine::rand`, which multiplies a curve point by the
/// cofactor and so stays in the subgroup: any element may come out.
#[verifier::external_body]
fn g2_rand(rng: &mut StdRng) -> (r: G2Point) {
    G2Point { inner: G2Affine::rand(rng) }
}

/// Relies on `G1Affine`'s `==`, one encoding for each point of the group.
#[verifier::external_body]
fn g1_eq(a: G1Point, b: G1Point) -> (r: bool)
    ensures
        r == (a@ == b@),
{
    a.inner == b.inner
}

/// Relies on `G2Affine`'s `==`, one encoding for each point of the group.
#[verifier::external_body]
fn g2_eq(a: G2Point, b: G2Point) -> (r: bool)
    ensures
        r == (a@ == b@),
{
    a.inner == b.inner
}

/// Relies on `Fr`'s `==`, one representation for each residue.
#[verifier::external_body]
fn fr_eq(a: Scalar, b: Scalar) -> (r: bool)
    ensures
        r == (a@ == b@),
{
    a.inner == b.inner
}

impl G1Point {
    /// The generator `g1`.
    pub fn generator() -> (r: G1Point)
        ensures
            r@ == 1,
    {
        g1_generator()
    }

    /// A point drawn uniformly at random from G1.
    pub fn rand(rng: &mut StdRng) -> (r: G1Point) {
        g1_rand(rng)
    }

    /// Whether two points are the same.
    pub fn equals(&self, other: &G1Point) -> (r: bool)
        ensures
            r == (self@ == other@),
    {
        g1_eq(*self, *other)
    }
}

impl G2Point {
    /// The generator `g2`.
    pub fn generator() -> (r: G2Point)
        ensures
            r@ == 1,
    {
        g2_generator()
    }

    /// A point drawn uniformly at random from G2.
    pub fn rand(rng: &mut StdRng) -> (r: G2Point) {
        g2_rand(rng)
    }

    /// Whether two points are the same.
    pub fn equals(&self, other: &G2Point) -> (r: bool)
        ensures
            r == (self@ == other@),
    {
        g2_eq(*self, *other)
    }
}

impl SourceGroup for Scalar {
    open spec fn log(&self) -> int {
        self@
    }

    proof fn lemma_log_bounded(&self) {
    }

    fn identity() -> (r: Scalar) {
        fr_zero()
    }

    fn plus(&self, other: &Scalar) -> (r: Scalar) {
        fr_add(*self, *other)
    }

    fn negate(&self) -> (r: Scalar) {
        fr_neg(*self)
    }

    fn times(&self, k: &Scalar) -> (r: Scalar) {
        fr_mul(*self, *k)
    }
}

impl SourceGroup for G1Point {
    open spec fn log(&self) -> int {
        self@
    }

    proof fn lemma_log_bounded(&self) {
    }

    fn identity() -> (r: G1Point) {
        g1_zero()
    }

    fn plus(&self, other: &G1Point) -> (r: G1Point) {
        g1_add(*self, *other)
    }

    fn negate(&self) -> (r: G1Point) {
        g1_neg(*self)
    }

    fn times(&self, k: &Scalar) -> (r: G1Point) {
        g1_mul(*self, *k)
    }
}

impl SourceGroup for G2Point {
    open spec fn log(&self) -> int {
        self@
    }

    proof fn lemma_log_bounded(&self) {
    }

    fn identity() -> (r: G2Point) {
        g2_zero()
    }

    fn plus(&self, other: &G2Point) -> (r: G2Point) {
        g2_add(*self, *other)
    }

    fn negate(&self) -> (r: G2Point) {
        g2_neg(*self)
    }

    fn times(&self, k: &Scalar) -> (r: G2Point) {
        g2_mul(*self, *k)
    }
}

// The target group.

/// Relies on `Bls12_381::pairing`, which is bilinear with `e(g1, g2)` as the
/// base of the target group's model.
#[verifier::external_body]
fn pairing(a: G1Point, b: G2Point) -> (r: Gt)
    ensures
        r@ == md(a@ * b@),
{
    Gt { inner: Bls12_381::pairing(a.inner, b.inner) }
}

/// Relies on `PairingOutput::zero`, the identity of the target group.
#[verifier::external_body]
fn gt_zero() -> (r: Gt)
    ensures
        gt_log(r) == 0,
{
    Gt { inner: PairingOutput::zero() }
}

/// Relies on the group operation of `PairingOutput`.
#[verifier::external_body]
fn gt_add(a: Gt, b: Gt) -> (r: Gt)
    ensures
        r@ == md(a@ + b@),
{
    Gt { inner: a.inner + b.inner }
}

/// Relies on the multiplication of a `PairingOutput` by a scalar.
#[verifier::external_body]
fn gt_mul(a: Gt, k: Scalar) -> (r: Gt)
    ensures
        r@ == md(a@ * k@),
{
    Gt { inner: a.inner * k.inner }
}

/// Relies on `PairingOutput`'s `==`, which compares the field elements, one
/// for each element of the group.
#[verifier::external_body]
fn gt_eq(a: Gt, b: Gt) -> (r: bool)
    ensures
        r == (a@ == b@),
{
    a.inner == b.inner
}

impl Gt {
    /// The identity of the target group.
    pub fn zero() -> (r: Gt)
        ensures
            r@ == 0,
    {
        gt_zero()
    }

    /// The pairing `e(a, b)`.
    pub fn pairing(a: &G1Point, b: &G2Point) -> (r: Gt)
        ensures
            r@ == md(a@ * b@),
    {
        pairing(*a, *b)
    }

    pub fn plus(&self, other: &Gt) -> (r: Gt)
        ensures
            r@ == md(self@ + other@),
    {
        gt_add(*self, *other)
    }

    pub fn times(&self, k: &Scalar) -> (r: Gt)
        ensures
            r@ == md(self@ * k@),
    {
        gt_mul(*self, *k)
    }

    pub fn equals(&self, other: &Gt) -> (r: bool)
        ensures
            r == (self@ == other@),
    {
        gt_eq(*self, *other)
    }
}

} // verus!

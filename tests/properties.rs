use ark_bls12_381::Fr;
use ark_serialize::CanonicalSerialize;
use ark_std::rand::rngs::StdRng;
use ark_std::rand::SeedableRng;

use gs_ppe::matrix::ShapeMismatch;
use gs_ppe::{
    setup, Com, CommitmentKeys, Equation, G1Point, G2Point, Gt, Matrix, ProofSystem, Randomness, Scalar,
    SourceGroup, Variable,
};

fn seeded(seed: u64) -> StdRng {
    StdRng::seed_from_u64(seed)
}

fn s(n: u64) -> Scalar {
    Scalar::from_u64(n)
}

/// A proof system for a random `m x n` equation under the given keys.
fn random_system(rng: &mut StdRng, cks: &CommitmentKeys, m: usize, n: usize) -> ProofSystem {
    let ay = (0..n)
        .map(|_| {
            let value = G2Point::rand(rng);
            (G1Point::rand(rng), Variable::<G2Point>::new(rng, value))
        })
        .collect::<Vec<_>>();
    let xb = (0..m)
        .map(|_| {
            let value = G1Point::rand(rng);
            (Variable::<G1Point>::new(rng, value), G2Point::rand(rng))
        })
        .collect::<Vec<_>>();
    let gamma = Matrix::<Scalar>::rand(rng, m, n);
    setup(rng, cks, &ay, &xb, &gamma)
}

fn verifies(cks: &CommitmentKeys, ps: &ProofSystem) -> bool {
    ps.equation.verify(cks, &ps.c, &ps.d, &ps.proof)
}

#[test]
fn scalar_arithmetic_is_modular() {
    assert!(s(2).plus(&s(3)).equals(&s(5)));
    assert!(s(2).times(&s(3)).equals(&s(6)));
    assert!(s(7).minus(&s(3)).equals(&s(4)));
    assert!(s(3).minus(&s(7)).plus(&s(4)).equals(&Scalar::zero()));
    assert!(s(5).negate().plus(&s(5)).equals(&Scalar::zero()));
    assert!(Scalar::one().equals(&s(1)));
    assert!(!s(2).equals(&s(3)));
}

#[test]
fn group_operations_follow_the_scalars() {
    let g1 = G1Point::generator();
    let g2 = G2Point::generator();
    assert!(g1.times(&s(2)).equals(&g1.plus(&g1)));
    assert!(g1.plus(&g1.negate()).equals(&G1Point::identity()));
    assert!(!g1.times(&s(2)).equals(&g1));
    assert!(g2.times(&s(3)).equals(&g2.plus(&g2).plus(&g2)));
    assert!(g2.plus(&g2.negate()).equals(&G2Point::identity()));
    assert!(!g2.times(&s(3)).equals(&g2));
}

#[test]
fn pairing_is_bilinear() {
    let g1 = G1Point::generator();
    let g2 = G2Point::generator();
    let base = Gt::pairing(&g1, &g2);
    let lhs = Gt::pairing(&g1.times(&s(2)), &g2.times(&s(3)));
    assert!(lhs.equals(&base.times(&s(6))));
    assert!(base.plus(&base).equals(&base.times(&s(2))));
    assert!(!lhs.equals(&base));
    assert!(Gt::pairing(&G1Point::identity(), &g2).equals(&Gt::zero()));
}

#[test]
fn randomness_adds_and_negates() {
    let a = Randomness::<G1Point>::new(s(1), s(2));
    let b = Randomness::<G1Point>::new(s(10), s(20));
    let c = a.add(b);
    assert!(c.0.equals(&s(11)) && c.1.equals(&s(22)));
    let z = a.add(a.neg());
    assert!(z.0.equals(&Scalar::zero()) && z.1.equals(&Scalar::zero()));
    let zero = Randomness::<G2Point>::zero();
    assert!(zero.0.equals(&Scalar::zero()) && zero.1.equals(&Scalar::zero()));
}

#[test]
fn commitment_with_zero_coins_holds_the_value() {
    let rng = &mut seeded(1);
    let cks = CommitmentKeys::rand(rng);
    let x = G1Point::rand(rng);
    let c = cks.u.commit(&Variable::with_zero_randomness(x));
    assert!(c.0.equals(&G1Point::identity()));
    assert!(c.1.equals(&x));
}

#[test]
fn commitment_formula() {
    // keys over the generators with a = 2, t = 3: u1 = (g, 2g), u2 = (3g, 6g)
    let g1 = G1Point::generator();
    let g2 = G2Point::generator();
    let cks = CommitmentKeys::new(g1, g2, s(2), s(2), s(3), s(3));
    assert!(cks.u.1 .1.equals(&g1.times(&s(6))));
    let x = Variable::with_randomness(g1.times(&s(5)), Randomness::new(s(1), s(1)));
    let c = cks.u.commit(&x);
    // (1 * 1 + 1 * 3) g and (5 + 1 * 2 + 1 * 6) g
    assert!(c.0.equals(&g1.times(&s(4))));
    assert!(c.1.equals(&g1.times(&s(13))));
}

#[test]
fn hiding_keys_differ_from_binding_keys_by_the_generator() {
    let g1 = G1Point::generator();
    let g2 = G2Point::generator();
    let binding = CommitmentKeys::new(g1, g2, s(2), s(5), s(3), s(7));
    let hiding = CommitmentKeys::new_wi(g1, g2, s(2), s(5), s(3), s(7));
    assert!(hiding.u.1 .1.plus(&g1).equals(&binding.u.1 .1));
    assert!(hiding.v.1 .1.plus(&g2).equals(&binding.v.1 .1));
    assert!(hiding.u.0 .1.equals(&binding.u.0 .1));
}

#[test]
fn hiding_commitments_to_different_values_coincide() {
    // Under keys of the hiding setup with a = 2, t = 3, the value x + k g with
    // coins (r1 - t k, r2 + k) commits to what x does with (r1, r2).
    let g1 = G1Point::generator();
    let g2 = G2Point::generator();
    let cks = CommitmentKeys::new_wi(g1, g2, s(2), s(2), s(3), s(3));
    let x1 = g1.times(&s(11));
    let x2 = x1.plus(&g1.times(&s(4)));
    let c1 = cks.u.commit(&Variable::with_randomness(x1, Randomness::new(s(20), s(5))));
    let c2 = cks.u.commit(&Variable::with_randomness(x2, Randomness::new(s(8), s(9))));
    assert!(!x1.equals(&x2));
    assert!(c1.0.equals(&c2.0));
    assert!(c1.1.equals(&c2.1));
}

#[test]
fn extraction_recovers_the_value_in_both_groups() {
    let rng = &mut seeded(2);
    let (cks, ek) = CommitmentKeys::rand_ex(rng);
    let x_value = G1Point::rand(rng);
    let x = Variable::new(rng, x_value);
    assert!(ek.extract_1(&cks.u.commit(&x)).equals(&x_value));
    let y_value = G2Point::rand(rng);
    let y = Variable::new(rng, y_value);
    assert!(ek.extract_2(&cks.v.commit(&y)).equals(&y_value));
}

#[test]
fn extraction_of_a_commitment_formula() {
    // c = (4g, 13g) opens with a = 2 to 13g - 2 * 4g = 5g
    let g1 = G1Point::generator();
    let ek = gs_ppe::ExtractKey(s(2), s(2));
    let c = Com(g1.times(&s(4)), g1.times(&s(13)));
    assert!(ek.extract_1(&c).equals(&g1.times(&s(5))));
}

#[test]
fn completeness_in_each_setup_mode() {
    let rng = &mut seeded(3);
    let binding = CommitmentKeys::rand(rng);
    let (extractable, _) = CommitmentKeys::rand_ex(rng);
    let hiding = CommitmentKeys::rand_wi(rng);
    for cks in [binding, extractable, hiding] {
        let ps = random_system(rng, &cks, 1, 1);
        assert!(verifies(&cks, &ps));
        let ps = ps.randomize(rng, &cks);
        assert!(verifies(&cks, &ps));
    }
}

#[test]
fn repeated_randomization_stays_valid() {
    let rng = &mut seeded(4);
    let cks = CommitmentKeys::rand(rng);
    let mut ps = random_system(rng, &cks, 2, 3);
    for _ in 0..3 {
        let before = ps.c[0].0;
        ps = ps.randomize(rng, &cks);
        assert!(!ps.c[0].0.equals(&before));
        assert!(verifies(&cks, &ps));
    }
}

#[test]
fn proof_with_chosen_mask_verifies() {
    let rng = &mut seeded(5);
    let cks = CommitmentKeys::rand(rng);
    let g1 = G1Point::generator();
    let g2 = G2Point::generator();
    let x = Variable::with_randomness(g1.times(&s(3)), Randomness::new(s(1), s(2)));
    let y = Variable::with_randomness(g2.times(&s(4)), Randomness::new(s(5), s(6)));
    let (a, b) = (g1.times(&s(7)), g2.times(&s(8)));
    let gamma = Matrix::new(&[[s(9)]]);
    // T = 7 * 4 + 3 * 8 + 9 * 3 * 4 = 160
    let target = Gt::pairing(&g1, &g2).times(&s(160));
    let equation = Equation::new(vec![a], vec![b], gamma, target);
    let z = Matrix::new(&[[s(1), s(2)], [s(3), s(4)]]);
    let proof = gs_ppe::Proof::prove(&z, &cks, &equation, &[x], &[y]);
    let c = vec![cks.u.commit(&x)];
    let d = vec![cks.v.commit(&y)];
    assert!(equation.verify(&cks, &c, &d, &proof));
    let wrong = Equation::new(vec![a], vec![b], Matrix::new(&[[s(9)]]), target.plus(&Gt::pairing(&g1, &g2)));
    assert!(!wrong.verify(&cks, &c, &d, &proof));
}

#[test]
fn sum_of_proof_systems_verifies_under_the_composed_equation() {
    let rng = &mut seeded(6);
    let cks = CommitmentKeys::rand(rng);
    let ps1 = random_system(rng, &cks, 1, 1);
    let ps2 = random_system(rng, &cks, 1, 1);
    let t1 = ps1.equation.target;
    let t2 = ps2.equation.target;
    let sum = ps1.add(ps2);
    assert_eq!(sum.c.len(), 2);
    assert_eq!(sum.d.len(), 2);
    assert!(sum.equation.target.equals(&t1.plus(&t2)));
    assert!(verifies(&cks, &sum));
}

#[test]
fn tampering_with_a_proof_or_commitment_is_rejected() {
    let rng = &mut seeded(7);
    let cks = CommitmentKeys::rand(rng);
    let ps = random_system(rng, &cks, 1, 1);
    assert!(verifies(&cks, &ps));
    let g1 = G1Point::generator();
    let g2 = G2Point::generator();

    let mut proof = ps.proof.clone();
    let phi00 = proof.phi.get(0, 0);
    proof.phi.set(0, 0, phi00.plus(&g2));
    assert!(!ps.equation.verify(&cks, &ps.c, &ps.d, &proof));

    let mut proof = ps.proof.clone();
    let theta11 = proof.theta.get(1, 1);
    proof.theta.set(1, 1, theta11.plus(&g1));
    assert!(!ps.equation.verify(&cks, &ps.c, &ps.d, &proof));

    let mut c = ps.c.clone();
    c[0] = Com(c[0].0, c[0].1.plus(&g1));
    assert!(!ps.equation.verify(&cks, &c, &ps.d, &ps.proof));

    let mut d = ps.d.clone();
    d[0] = Com(d[0].0.plus(&g2), d[0].1);
    assert!(!ps.equation.verify(&cks, &ps.c, &d, &ps.proof));
}

#[test]
fn wrong_shapes_are_rejected_without_panic() {
    let rng = &mut seeded(8);
    let cks = CommitmentKeys::rand(rng);
    let ps = random_system(rng, &cks, 2, 3);
    assert!(verifies(&cks, &ps));
    assert!(!ps.equation.verify(&cks, &ps.c[..1], &ps.d, &ps.proof));
    assert!(!ps.equation.verify(&cks, &ps.c, &ps.d[..2], &ps.proof));
    assert!(!ps.equation.verify(&cks, &[], &[], &ps.proof));
    let g2 = G2Point::generator();
    let g1 = G1Point::generator();
    let bad_phi = gs_ppe::Proof {
        phi: Matrix::from_elem(3, 2, g2),
        theta: Matrix::from_elem(2, 2, g1),
    };
    assert!(!ps.equation.verify(&cks, &ps.c, &ps.d, &bad_phi));
    let bad_theta = gs_ppe::Proof {
        phi: Matrix::from_elem(2, 2, g2),
        theta: Matrix::from_elem(2, 1, g1),
    };
    assert!(!ps.equation.verify(&cks, &ps.c, &ps.d, &bad_theta));
}

#[test]
fn zero_rows_and_zero_columns_verify() {
    let rng = &mut seeded(9);
    let cks = CommitmentKeys::rand(rng);
    let ps = random_system(rng, &cks, 0, 1);
    assert!(ps.c.is_empty());
    assert!(verifies(&cks, &ps));
    let ps = random_system(rng, &cks, 1, 0);
    assert!(ps.d.is_empty());
    assert!(verifies(&cks, &ps));
    let ps = random_system(rng, &cks, 0, 0);
    assert!(verifies(&cks, &ps));
}

#[test]
fn equation_composition_is_block_diagonal() {
    let g1 = G1Point::generator();
    let g2 = G2Point::generator();
    let t = Gt::pairing(&g1, &g2);
    let e1 = Equation::new(vec![g1], vec![g2], Matrix::new(&[[s(2)]]), t);
    let e2 = Equation::new(
        vec![g1.times(&s(3)), g1.times(&s(4))],
        vec![g2.times(&s(5))],
        Matrix::new(&[[s(6), s(7)]]),
        t.times(&s(2)),
    );
    let e = e1.add(e2);
    assert_eq!(e.a.len(), 3);
    assert_eq!(e.b.len(), 2);
    assert!(e.a[2].equals(&g1.times(&s(4))));
    assert!(e.b[1].equals(&g2.times(&s(5))));
    assert_eq!(e.gamma.dim(), (2, 3));
    let expected = [[2u64, 0, 0], [0, 6, 7]];
    for i in 0..2 {
        for j in 0..3 {
            assert!(e.gamma.get(i, j).equals(&s(expected[i][j])));
        }
    }
    assert!(e.target.equals(&t.times(&s(3))));
}

#[test]
fn matrix_shapes_and_entries() {
    let m = Matrix::new(&[[s(1), s(2), s(3)], [s(4), s(5), s(6)]]);
    assert_eq!(m.dim(), (2, 3));
    assert!(m.get(1, 2).equals(&s(6)));
    let empty = Matrix::<Scalar>::new(&[[]]);
    assert_eq!(empty.dim(), (1, 0));
    let column = Matrix::<Scalar>::zeros_column(4);
    assert_eq!(column.dim(), (0, 4));
    let rows = m.to_vecs();
    assert_eq!(rows.len(), 2);
    let back = Matrix::from_vecs(rows);
    assert_eq!(back.dim(), (2, 3));
    assert!(back.get(0, 1).equals(&s(2)));
    let mut n = Matrix::from_elem(2, 2, s(0));
    n.set(1, 0, s(9));
    assert!(n.get(1, 0).equals(&s(9)));
    assert!(n.get(0, 0).equals(&s(0)));
}

#[test]
fn matrix_arithmetic() {
    let a = Matrix::new(&[[s(1), s(2)], [s(3), s(4)]]);
    let b = Matrix::new(&[[s(10), s(20)], [s(30), s(40)]]);
    let sum = a.add(&b).unwrap();
    assert!(sum.get(1, 1).equals(&s(44)));
    let prod = a.mul(&b).unwrap();
    assert!(prod.get(1, 0).equals(&s(90)));
    let neg = a.neg();
    assert!(neg.get(0, 1).plus(&s(2)).equals(&Scalar::zero()));
    let g1 = G1Point::generator();
    let points = Matrix::from_elem(2, 2, g1);
    let scaled = points.mul(&a).unwrap();
    assert!(scaled.get(1, 1).equals(&g1.times(&s(4))));
}

#[test]
fn matrix_shape_errors() {
    let a = Matrix::new(&[[s(1), s(2)], [s(3), s(4)]]);
    let c = Matrix::new(&[[s(1), s(2), s(3)]]);
    assert_eq!(a.add(&c).err(), Some(ShapeMismatch));
    assert_eq!(a.mul(&c).err(), Some(ShapeMismatch));
    assert_eq!(a.axis1_concat(&c).err(), Some(ShapeMismatch));
    assert_eq!(a.axis0_concat(&c).err(), Some(ShapeMismatch));
    let stacked = c.axis0_concat(&Matrix::new(&[[s(4), s(5), s(6)]])).unwrap();
    assert_eq!(stacked.dim(), (2, 3));
    assert!(stacked.get(1, 0).equals(&s(4)));
    let wide = a.axis1_concat(&Matrix::new(&[[s(5)], [s(6)]])).unwrap();
    assert_eq!(wide.dim(), (2, 3));
    assert!(wide.get(1, 2).equals(&s(6)));
    let diag = a.block_diag(&c).unwrap();
    assert_eq!(diag.dim(), (3, 5));
    assert!(diag.get(2, 4).equals(&s(3)));
    assert!(diag.get(0, 4).equals(&Scalar::zero()));
    assert!(diag.get(2, 0).equals(&Scalar::zero()));
}

#[test]
fn proofs_add_and_subtract_entrywise() {
    let g1 = G1Point::generator();
    let g2 = G2Point::generator();
    let p = gs_ppe::Proof {
        phi: Matrix::from_elem(2, 2, g2.times(&s(5))),
        theta: Matrix::from_elem(2, 2, g1.times(&s(7))),
    };
    let q = gs_ppe::Proof {
        phi: Matrix::from_elem(2, 2, g2.times(&s(2))),
        theta: Matrix::from_elem(2, 2, g1.times(&s(3))),
    };
    let sum = p.clone().add(q.clone());
    assert!(sum.phi.get(1, 0).equals(&g2.times(&s(7))));
    assert!(sum.theta.get(0, 1).equals(&g1.times(&s(10))));
    let diff = p.div(q);
    assert!(diff.phi.get(0, 0).equals(&g2.times(&s(3))));
    assert!(diff.theta.get(1, 1).equals(&g1.times(&s(4))));
}

#[test]
fn scalar_encoding_is_little_endian() {
    let bytes = s(258).to_bytes();
    assert_eq!(bytes.len(), 32);
    assert_eq!(bytes[0], 2);
    assert_eq!(bytes[1], 1);
    assert!(bytes[2..].iter().all(|b| *b == 0));
}

#[test]
fn matrix_encoding_matches_vectors_of_rows() {
    let m = Matrix::new(&[[s(1), s(2)], [s(3), s(4)]]);
    let bytes = m.to_bytes();
    assert_eq!(bytes.len(), 8 + 2 * (8 + 2 * 32));
    assert_eq!(m.serialized_size(), bytes.len());
    assert_eq!(&bytes[..8], &[2, 0, 0, 0, 0, 0, 0, 0]);
    assert_eq!(&bytes[8..16], &[2, 0, 0, 0, 0, 0, 0, 0]);
    assert_eq!(bytes[16], 1);
    let rows: Vec<Vec<Fr>> = vec![
        vec![Fr::from(1u64), Fr::from(2u64)],
        vec![Fr::from(3u64), Fr::from(4u64)],
    ];
    let mut expected = Vec::new();
    rows.serialize_compressed(&mut expected).unwrap();
    assert_eq!(bytes, expected);
}

#[test]
fn matrix_decoding() {
    let m = Matrix::new(&[[s(1), s(2), s(3)], [s(4), s(5), s(6)]]);
    let bytes = m.to_bytes();
    let back = Matrix::<Scalar>::from_bytes(&bytes).unwrap();
    assert_eq!(back.dim(), (2, 3));
    for i in 0..2 {
        for j in 0..3 {
            assert!(back.get(i, j).equals(&m.get(i, j)));
        }
    }
    // truncated
    assert!(Matrix::<Scalar>::from_bytes(&bytes[..bytes.len() - 1]).is_none());
    assert!(Matrix::<Scalar>::from_bytes(&bytes[..4]).is_none());
    // no rows
    assert!(Matrix::<Scalar>::from_bytes(&[0u8; 8]).is_none());
    // a scalar not below the group order
    let mut big = bytes.clone();
    for b in big[16..48].iter_mut() {
        *b = 0xff;
    }
    assert!(Matrix::<Scalar>::from_bytes(&big).is_none());
    // rows of different lengths
    let rows: Vec<Vec<Fr>> = vec![vec![Fr::from(1u64)], vec![Fr::from(2u64), Fr::from(3u64)]];
    let mut ragged = Vec::new();
    rows.serialize_compressed(&mut ragged).unwrap();
    assert!(Matrix::<Scalar>::from_bytes(&ragged).is_none());
}

#[test]
fn scalar_decoding() {
    let mut bytes = [0u8; 32];
    bytes[0] = 7;
    assert!(Scalar::from_bytes(&bytes).unwrap().equals(&s(7)));
    assert!(Scalar::from_bytes(&[0xffu8; 32]).is_none());
}

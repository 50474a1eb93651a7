use ark_std::rand::rngs::StdRng;
use ark_std::rand::SeedableRng;

use gs_ppe::{setup, CommitmentKeys, G1Point, G2Point, Matrix, ProofSystem, Scalar, Variable};

type G1 = G1Point;
type G2 = G2Point;
type G1Affine = G1Point;
type G2Affine = G2Point;
type Fr = Scalar;

fn test_rng() -> StdRng {
    StdRng::seed_from_u64(0)
}

#[test]
fn test_proof_m_x_n() {
    let rng = &mut test_rng();
    let n = 3;
    let m = 2;
    let ay = (0..n)
        .map(|_| {
            let value = G2Affine::rand(rng);
            (G1Affine::rand(rng), Variable::<G2>::new(rng, value))
        })
        .collect::<Vec<_>>();
    let xb = (0..m)
        .map(|_| {
            let value = G1Affine::rand(rng);
            (Variable::<G1>::new(rng, value), G2Affine::rand(rng))
        })
        .collect::<Vec<_>>();

    let gamma = Matrix::<Fr>::rand(rng, m, n);

    let cks = CommitmentKeys::rand(rng);

    // ∏e(a, y) + ∏e(x, b) + ∏e(x, y)^gamma = T
    let proof_system = setup(rng, &cks, &ay, &xb, &gamma);

    let ProofSystem {
        equation,
        c,
        d,
        proof,
    } = proof_system;

    assert!(equation.verify(&cks, &c, &d, &proof));
}

#[test]
fn test_proof_m_zero() {
    let rng = &mut test_rng();
    let x_value = G1Affine::rand(rng);
    let x = Variable::new(rng, x_value);
    let b = G2Affine::rand(rng);
    let gamma = Matrix::<Fr>::new(&[[]]); // dim = (1, 0)

    let cks = CommitmentKeys::rand(rng);

    // ∏e(x, b) = T
    let proof_system = setup(rng, &cks, &[], &[(x, b)], &gamma);

    let ProofSystem {
        equation,
        c,
        d,
        proof,
    } = proof_system;

    assert!(equation.verify(&cks, &c, &d, &proof));
}

#[test]
fn test_proof_n_zero() {
    let rng = &mut test_rng();
    let y_value = G2Affine::rand(rng);
    let y = Variable::new(rng, y_value);
    let a = G1Affine::rand(rng);
    let gamma = Matrix::<Fr>::zeros_column(1); // dim = (0, 1)

    let cks = CommitmentKeys::rand(rng);

    // ∏e(a, y) = T
    let proof_system = setup(rng, &cks, &[(a, y)], &[], &gamma);

    let ProofSystem {
        equation,
        c,
        d,
        proof,
    } = proof_system;

    assert!(equation.verify(&cks, &c, &d, &proof));
}

#[test]
fn test_randomized_proof_m_x_n() {
    let rng = &mut test_rng();
    let n = 3;
    let m = 2;
    let ay = (0..n)
        .map(|_| {
            let value = G2Affine::rand(rng);
            (G1Affine::rand(rng), Variable::<G2>::new(rng, value))
        })
        .collect::<Vec<_>>();
    let xb = (0..m)
        .map(|_| {
            let value = G1Affine::rand(rng);
            (Variable::<G1>::new(rng, value), G2Affine::rand(rng))
        })
        .collect::<Vec<_>>();

    let gamma = Matrix::<Fr>::rand(rng, m, n);

    let cks = CommitmentKeys::rand(rng);

    // ∏e(a, y) + ∏e(x, b) + ∏e(x, y)^gamma = T
    let proof_system = setup(rng, &cks, &ay, &xb, &gamma);

    let ProofSystem {
        equation,
        c,
        d,
        proof,
    } = proof_system.randomize(rng, &cks);

    assert!(equation.verify(&cks, &c, &d, &proof));
}

#[test]
fn test_homomorphic_proofs() {
    let rng = &mut test_rng();
    let cks = CommitmentKeys::rand(rng);

    // A first proof system.
    let (a, b) = (G1Affine::rand(rng), G2Affine::rand(rng));
    let (x_value, y_value) = (G1Affine::rand(rng), G2Affine::rand(rng));
    let (x, y) = (
        Variable::<G1>::new(rng, x_value),
        Variable::<G2>::new(rng, y_value),
    );
    let gamma = Matrix::<Fr>::rand(rng, 1, 1);
    let proof_system_1 = setup(rng, &cks, &[(a, y)], &[(x, b)], &gamma);
    assert!(proof_system_1.equation.verify(
        &cks,
        &proof_system_1.c,
        &proof_system_1.d,
        &proof_system_1.proof
    ));

    // A second one.
    let (a_p, b_p) = (G1Affine::rand(rng), G2Affine::rand(rng));
    let (x_p_value, y_p_value) = (G1Affine::rand(rng), G2Affine::rand(rng));
    let (x_p, y_p) = (
        Variable::<G1>::new(rng, x_p_value),
        Variable::<G2>::new(rng, y_p_value),
    );
    let gamma_p = Matrix::<Fr>::rand(rng, 1, 1);
    let proof_system_2 = setup(rng, &cks, &[(a_p, y_p)], &[(x_p, b_p)], &gamma_p);
    assert!(proof_system_2.equation.verify(
        &cks,
        &proof_system_2.c,
        &proof_system_2.d,
        &proof_system_2.proof
    ));

    // Their sum proves
    // e(a, y) + e(a', y') + e(x, b) + e(x', b') + e(x, y)^gamma + e(x', y')^gamma' = T + T'
    let proof_system_sum = proof_system_1.add(proof_system_2);
    assert!(proof_system_sum.equation.verify(
        &cks,
        &proof_system_sum.c,
        &proof_system_sum.d,
        &proof_system_sum.proof
    ));
}

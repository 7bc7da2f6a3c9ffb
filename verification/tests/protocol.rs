use rust_pot::codec::contract_bytes_to_g1;
use rust_pot::curve::{
    fr_rand, g1_eq, g1_generator, g1_identity, g1_mul, g2_eq, g2_generator, g2_identity, g2_mul,
    rand_g1,
};
use rust_pot::protocol::{init_params, run_update, verify_proof, Proof, VerificationError};

#[test]
fn test_init_params_genesis() {
    let (g1s, g2s) = init_params(5, 2);
    assert_eq!(g1s.len(), 5);
    assert_eq!(g2s.len(), 2);
    let g1 = g1_generator();
    let g2 = g2_generator();
    for p in &g1s {
        assert!(g1_eq(p, &g1));
    }
    for p in &g2s {
        assert!(g2_eq(p, &g2));
    }
}

#[test]
fn test_update_then_verify() {
    let (g1s, g2s) = init_params(8, 1);
    let proof = run_update(&g1s, &g2s).unwrap();
    assert_eq!(proof.g1s.len(), 8);
    assert_eq!(proof.g2s.len(), 1);
    assert_eq!(verify_proof(&proof, &g1s), Ok(()));
}

#[test]
fn test_chained_updates() {
    let (g1s, g2s) = init_params(255, 1);
    let proof1 = run_update(&g1s, &g2s).unwrap();
    assert_eq!(verify_proof(&proof1, &g1s), Ok(()));
    let proof2 = run_update(&proof1.g1s, &proof1.g2s).unwrap();
    assert_eq!(verify_proof(&proof2, &proof1.g1s), Ok(()));
}

#[test]
fn test_small_sequences_verify() {
    for n in [2usize, 3usize] {
        let (g1s, g2s) = init_params(n, 1);
        let proof = run_update(&g1s, &g2s).unwrap();
        assert_eq!(verify_proof(&proof, &g1s), Ok(()));
    }
}

#[test]
fn test_mutated_proof_rejected() {
    let (g1s, g2s) = init_params(8, 1);
    let mut proof = run_update(&g1s, &g2s).unwrap();
    // Replace one mid-sequence element with a different valid curve
    // point: the chain is no longer consecutive powers, and the check
    // must reject it on every independent draw of combiners.
    proof.g1s[5] = rand_g1();
    for _ in 0..100 {
        let res = verify_proof(&proof, &g1s);
        assert!(
            res == Err(VerificationError::PairingCheckFailed)
                || res == Err(VerificationError::DiscreteLogMismatch)
        );
    }
}

#[test]
fn test_mutated_first_element_rejected() {
    let (g1s, g2s) = init_params(8, 1);
    let mut proof = run_update(&g1s, &g2s).unwrap();
    proof.g1s[0] = rand_g1();
    let res = verify_proof(&proof, &g1s);
    assert_eq!(res, Err(VerificationError::DiscreteLogMismatch));
}

#[test]
fn test_degenerate_proof_rejected() {
    let (g1s, _g2s) = init_params(4, 1);
    // A proof whose elements are all the identity passes the
    // discrete-log check when the commitment absorbs the response, and
    // passes the pairing check trivially; the non-degeneracy check must
    // still reject it.
    let z = fr_rand();
    let pi1 = g1_mul(&g1s[0], &z);
    let mut ident_g1s = Vec::new();
    for _ in 0..4 {
        ident_g1s.push(g1_identity());
    }
    let mut ident_g2s = Vec::new();
    ident_g2s.push(g2_identity());
    let proof = Proof { g1s: ident_g1s, g2s: ident_g2s, pi1, pi2: z };
    assert_eq!(verify_proof(&proof, &g1s), Err(VerificationError::DegenerateProof));
}

#[test]
fn test_verify_against_wrong_previous() {
    let (g1s, g2s) = init_params(4, 1);
    let proof = run_update(&g1s, &g2s).unwrap();
    // Verifying against the updated sequence instead of the previous
    // one changes the transcript, so the discrete-log equation fails.
    let res = verify_proof(&proof, &proof.g1s);
    assert_eq!(res, Err(VerificationError::DiscreteLogMismatch));
}

#[test]
fn test_degenerate_rejected_regardless_of_fields() {
    // An identity first element is rejected as degenerate before any
    // other check looks at the remaining fields.
    let (g1s, _g2s) = init_params(4, 1);
    let mut bad_g1s = Vec::new();
    bad_g1s.push(g1_identity());
    for _ in 0..3 {
        bad_g1s.push(rand_g1());
    }
    let mut bad_g2s = Vec::new();
    bad_g2s.push(g2_mul(&g2_generator(), &fr_rand()));
    let proof = Proof { g1s: bad_g1s, g2s: bad_g2s, pi1: rand_g1(), pi2: fr_rand() };
    assert_eq!(verify_proof(&proof, &g1s), Err(VerificationError::DegenerateProof));
}

#[test]
fn test_off_curve_point_rejected() {
    // A decoded point on no curve must be caught by the membership
    // gate, never reaching a pairing.
    let (g1s, g2s) = init_params(4, 1);
    let mut proof = run_update(&g1s, &g2s).unwrap();
    let mut bytes = vec![0u8; 64];
    bytes[63] = 1;
    proof.g1s[2] = contract_bytes_to_g1(&bytes).unwrap();
    assert_eq!(verify_proof(&proof, &g1s), Err(VerificationError::CurveMembershipError));
}

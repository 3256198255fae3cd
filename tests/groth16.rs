use soroban_sdk::crypto::bn254::{Bn254Fr, Bn254G1Affine};
use soroban_sdk::{BytesN, Env};
use zk_nonmember::bytes::is_canonical;
use zk_nonmember::{
    pairing_product_equals_one, verify, DecodeError, G1Point, G2Point, Groth16Proof, VerificationKey, VerifyResult,
    ZKProofVerifier,
};

fn fresh_env() -> Env {
    let env = Env::default();
    env.cost_estimate().budget().reset_unlimited();
    env
}

fn hex32(s: &str) -> [u8; 32] {
    let mut out = [0u8; 32];
    for i in 0..32 {
        out[i] = u8::from_str_radix(&s[2 * i..2 * i + 2], 16).unwrap();
    }
    out
}

fn small(v: u8) -> [u8; 32] {
    let mut out = [0u8; 32];
    out[31] = v;
    out
}

fn g1_generator() -> G1Point {
    G1Point { x: small(1), y: small(2) }
}

fn g2_generator() -> G2Point {
    G2Point {
        x: (
            hex32("1800deef121f1e76426a00665e5c4479674322d4f75edadd46debd5cd992f6ed"),
            hex32("198e9393920d483a7260bfb731fb5d25f1aa493335a9e71297e485b7aef312c2"),
        ),
        y: (
            hex32("12c85ea5db8c6deb4aab71808dcb408fe3d1e7690c43d37b4ce6cc0166fa7daa"),
            hex32("090689d0585ff075ec9e99ad690c3395bc4b313370b38ef355acdadcd122975b"),
        ),
    }
}

fn point_of(env: &Env, p: &G1Point) -> Bn254G1Affine {
    Bn254G1Affine::from_bytes(BytesN::from_array(env, &p.to_bytes()))
}

fn from_host(p: &Bn254G1Affine) -> G1Point {
    G1Point::from_bytes(&p.to_array()).unwrap()
}

fn mul(env: &Env, p: &G1Point, s: &[u8; 32]) -> G1Point {
    let fr = Bn254Fr::from_bytes(BytesN::from_array(env, s));
    from_host(&env.crypto().bn254().g1_mul(&point_of(env, p), &fr))
}

fn add(env: &Env, a: &G1Point, b: &G1Point) -> G1Point {
    from_host(&env.crypto().bn254().g1_add(&point_of(env, a), &point_of(env, b)))
}

/// A key with every G2 element the generator: the equation then reads
/// a = alpha + acc + c over the scalars of G1.
fn test_key() -> VerificationKey {
    let g = g1_generator();
    let h = g2_generator();
    VerificationKey { alpha: g, beta: h, gamma: h, delta: h, ic: vec![g, g, g, g] }
}

/// A proof that satisfies the equation for `test_key` and the given inputs.
fn test_proof(env: &Env, inputs: &[[u8; 32]; 3]) -> Groth16Proof {
    let key = test_key();
    let mut acc = key.ic[0];
    for (i, s) in inputs.iter().enumerate() {
        acc = add(env, &acc, &mul(env, &key.ic[i + 1], s));
    }
    let c = mul(env, &g1_generator(), &small(5));
    let a = add(env, &add(env, &key.alpha, &acc), &c);
    Groth16Proof { pi_a: a, pi_b: g2_generator(), pi_c: c }
}

#[test]
fn canonical_field_elements() {
    let p = hex32("30644e72e131a029b85045b68181585d97816a916871ca8d3c208c16d87cfd47");
    let p_minus_one = hex32("30644e72e131a029b85045b68181585d97816a916871ca8d3c208c16d87cfd46");
    assert!(!is_canonical(&p));
    assert!(is_canonical(&p_minus_one));
    assert!(is_canonical(&[0u8; 32]));
    assert!(!is_canonical(&[0xffu8; 32]));
    assert!(is_canonical(&[0x30u8; 32]));
    assert!(!is_canonical(&[0x31u8; 32]));
}

#[test]
fn g1_round_trip() {
    let p = g1_generator();
    let bytes = p.to_bytes();
    assert_eq!(bytes[31], 1);
    assert_eq!(bytes[63], 2);
    let q = G1Point::from_bytes(&bytes).unwrap();
    assert_eq!(q.x, p.x);
    assert_eq!(q.y, p.y);
}

#[test]
fn g1_decode_rejects_non_canonical() {
    let mut bytes = [0u8; 64];
    bytes[32..].copy_from_slice(&[0xffu8; 32]);
    assert_eq!(G1Point::from_bytes(&bytes).unwrap_err(), DecodeError::Malformed);
}

#[test]
fn g2_round_trip() {
    let p = g2_generator();
    let bytes = p.to_bytes();
    assert_eq!(&bytes[..32], &p.x.0[..]);
    assert_eq!(&bytes[96..], &p.y.1[..]);
    let q = G2Point::from_bytes(&bytes).unwrap();
    assert_eq!(q.x, p.x);
    assert_eq!(q.y, p.y);
    let host = p.to_host_bytes();
    assert_eq!(&host[..32], &p.x.1[..]);
    assert_eq!(&host[32..64], &p.x.0[..]);
}

#[test]
fn g2_decode_rejects_non_canonical() {
    let mut bytes = g2_generator().to_bytes();
    bytes[64] = 0xff;
    assert_eq!(G2Point::from_bytes(&bytes).unwrap_err(), DecodeError::Malformed);
}

#[test]
fn correct_proof_is_valid() {
    let env = fresh_env();
    let inputs = [[9u8; 32], [10u8; 32], small(1)];
    let proof = test_proof(&env, &inputs);
    assert_eq!(verify(&env, &proof, &test_key(), &inputs.to_vec()), VerifyResult::Valid);
}

#[test]
fn proof_for_other_inputs_is_invalid() {
    let env = fresh_env();
    let proof = test_proof(&env, &[[9u8; 32], [10u8; 32], small(1)]);
    let other = vec![[9u8; 32], [11u8; 32], small(1)];
    assert_eq!(verify(&env, &proof, &test_key(), &other), VerifyResult::Invalid);
}

#[test]
fn changed_c_is_invalid() {
    let env = fresh_env();
    let inputs = [[9u8; 32], [10u8; 32], small(1)];
    let mut proof = test_proof(&env, &inputs);
    proof.pi_c = mul(&env, &g1_generator(), &small(6));
    assert_eq!(verify(&env, &proof, &test_key(), &inputs.to_vec()), VerifyResult::Invalid);
}

#[test]
fn flipped_bit_is_rejected() {
    let env = fresh_env();
    let inputs = [[9u8; 32], [10u8; 32], small(1)];
    let mut proof = test_proof(&env, &inputs);
    proof.pi_a.y[31] ^= 1;
    let r = verify(&env, &proof, &test_key(), &inputs.to_vec());
    assert_ne!(r, VerifyResult::Valid);
    assert_eq!(r, VerifyResult::Malformed);
}

#[test]
fn flipped_bit_in_b_is_rejected() {
    let env = fresh_env();
    let inputs = [[9u8; 32], [10u8; 32], small(1)];
    let mut proof = test_proof(&env, &inputs);
    proof.pi_b.x.0[31] ^= 1;
    assert_eq!(verify(&env, &proof, &test_key(), &inputs.to_vec()), VerifyResult::Malformed);
}

#[test]
fn wrong_input_count_is_malformed() {
    let env = fresh_env();
    let inputs = [[9u8; 32], [10u8; 32], small(1)];
    let proof = test_proof(&env, &inputs);
    let two = vec![[9u8; 32], [10u8; 32]];
    assert_eq!(verify(&env, &proof, &test_key(), &two), VerifyResult::Malformed);
}

#[test]
fn non_canonical_coordinate_is_malformed() {
    let env = fresh_env();
    let inputs = [[9u8; 32], [10u8; 32], small(1)];
    let mut proof = test_proof(&env, &inputs);
    proof.pi_c.x = [0xffu8; 32];
    assert_eq!(verify(&env, &proof, &test_key(), &inputs.to_vec()), VerifyResult::Malformed);
}

#[test]
fn identity_g2_is_accepted_as_a_point() {
    let env = fresh_env();
    let inputs = [[9u8; 32], [10u8; 32], small(1)];
    let mut proof = test_proof(&env, &inputs);
    proof.pi_b = G2Point { x: ([0u8; 32], [0u8; 32]), y: ([0u8; 32], [0u8; 32]) };
    assert_eq!(verify(&env, &proof, &test_key(), &inputs.to_vec()), VerifyResult::Invalid);
}

fn call(verifier: &ZKProofVerifier, env: &Env, proof: &Groth16Proof, root: [u8; 32], hash: [u8; 32], flag: u32) -> bool {
    verifier.verify_non_membership(
        env,
        proof.pi_a.x,
        proof.pi_a.y,
        proof.pi_b.x.0,
        proof.pi_b.x.1,
        proof.pi_b.y.0,
        proof.pi_b.y.1,
        proof.pi_c.x,
        proof.pi_c.y,
        root,
        hash,
        flag,
    )
}

#[test]
fn non_membership_accepts_a_correct_proof() {
    let env = fresh_env();
    let verifier = ZKProofVerifier::new(test_key());
    let proof = test_proof(&env, &[[9u8; 32], [10u8; 32], small(1)]);
    assert!(call(&verifier, &env, &proof, [9u8; 32], [10u8; 32], 1));
}

#[test]
fn non_membership_requires_the_flag() {
    let env = fresh_env();
    let verifier = ZKProofVerifier::new(test_key());
    let proof = test_proof(&env, &[[9u8; 32], [10u8; 32], small(1)]);
    assert!(!call(&verifier, &env, &proof, [9u8; 32], [10u8; 32], 0));
    assert!(!call(&verifier, &env, &proof, [9u8; 32], [10u8; 32], 2));
    let flag_zero = test_proof(&env, &[[9u8; 32], [10u8; 32], small(0)]);
    assert!(!call(&verifier, &env, &flag_zero, [9u8; 32], [10u8; 32], 0));
}

#[test]
fn test_verify_non_membership() {
    let env = fresh_env();
    let verifier = ZKProofVerifier::new(test_key());
    let proof = Groth16Proof {
        pi_a: G1Point { x: [1u8; 32], y: [2u8; 32] },
        pi_b: G2Point { x: ([3u8; 32], [4u8; 32]), y: ([5u8; 32], [6u8; 32]) },
        pi_c: G1Point { x: [7u8; 32], y: [8u8; 32] },
    };
    assert!(!call(&verifier, &env, &proof, [9u8; 32], [10u8; 32], 1));
}

fn key_bytes(key: &VerificationKey) -> Vec<u8> {
    let mut out = Vec::new();
    out.extend_from_slice(&key.alpha.to_bytes());
    out.extend_from_slice(&key.beta.to_bytes());
    out.extend_from_slice(&key.gamma.to_bytes());
    out.extend_from_slice(&key.delta.to_bytes());
    for p in key.ic.iter() {
        out.extend_from_slice(&p.to_bytes());
    }
    out
}

#[test]
fn key_reads_back_from_bytes() {
    let key = test_key();
    let bytes = key_bytes(&key);
    assert_eq!(bytes.len(), 448 + 4 * 64);
    let read = VerificationKey::from_bytes(&bytes).unwrap();
    assert_eq!(read.alpha.y, key.alpha.y);
    assert_eq!(read.beta.x, key.beta.x);
    assert_eq!(read.delta.y, key.delta.y);
    assert_eq!(read.ic.len(), 4);
    assert_eq!(read.ic[3].x, key.ic[3].x);
}

#[test]
fn key_with_wrong_length_is_malformed() {
    let bytes = key_bytes(&test_key());
    assert_eq!(VerificationKey::from_bytes(&bytes[..448].to_vec()).unwrap_err(), DecodeError::Malformed);
    assert_eq!(VerificationKey::from_bytes(&bytes[..500].to_vec()).unwrap_err(), DecodeError::Malformed);
}

#[test]
fn key_with_non_canonical_slot_is_malformed() {
    let mut bytes = key_bytes(&test_key());
    let n = bytes.len();
    bytes[n - 32] = 0xff;
    assert_eq!(VerificationKey::from_bytes(&bytes).unwrap_err(), DecodeError::Malformed);
    let mut early = key_bytes(&test_key());
    early[200] = 0x40;
    early[192] = 0x31;
    assert_eq!(VerificationKey::from_bytes(&early).unwrap_err(), DecodeError::Malformed);
}

#[test]
fn pairing_product_of_a_point_and_its_negation_is_one() {
    let env = fresh_env();
    let g = g1_generator();
    let minus_g = G1Point {
        x: g.x,
        y: hex32("30644e72e131a029b85045b68181585d97816a916871ca8d3c208c16d87cfd45"),
    };
    let h = g2_generator();
    assert_eq!(pairing_product_equals_one(&env, &vec![(g, h), (minus_g, h)]), Ok(true));
    assert_eq!(pairing_product_equals_one(&env, &vec![(g, h)]), Ok(false));
    assert_eq!(pairing_product_equals_one(&env, &vec![(g, h), (g, h)]), Ok(false));
    assert_eq!(pairing_product_equals_one(&env, &vec![]), Ok(true));
}

#[test]
fn pairing_product_rejects_a_point_off_the_curve() {
    let env = fresh_env();
    let off = G1Point { x: small(1), y: small(3) };
    assert_eq!(
        pairing_product_equals_one(&env, &vec![(off, g2_generator())]),
        Err(DecodeError::Malformed)
    );
}

#[test]
fn negation_flips_y_and_keeps_the_identity() {
    let g = g1_generator().to_bytes();
    let minus = zk_nonmember::groth16::g1_neg(&g);
    assert_eq!(&minus[..32], &g[..32]);
    assert_eq!(
        &minus[32..],
        &hex32("30644e72e131a029b85045b68181585d97816a916871ca8d3c208c16d87cfd45")[..]
    );
    assert_eq!(zk_nonmember::groth16::g1_neg(&[0u8; 64]), [0u8; 64]);
}

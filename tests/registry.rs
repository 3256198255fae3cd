use soroban_sdk::{Bytes, Env};
use zk_nonmember::{MerkleAccumulator, VerificationKey, ZKProofVerifier};
use zk_nonmember::G1Point;

fn fresh_env() -> Env {
    let env = Env::default();
    env.cost_estimate().budget().reset_unlimited();
    env
}

fn sha256_pair(env: &Env, a: &[u8; 32], b: &[u8; 32]) -> [u8; 32] {
    let mut both = [0u8; 64];
    both[..32].copy_from_slice(a);
    both[32..].copy_from_slice(b);
    env.crypto().sha256(&Bytes::from_array(env, &both)).to_array()
}

fn leaf(env: &Env, h: &[u8; 32]) -> [u8; 32] {
    sha256_pair(env, h, &[0u8; 32])
}

fn empty_key() -> VerificationKey {
    let g = G1Point { x: [0u8; 32], y: [0u8; 32] };
    let g2 = zk_nonmember::G2Point { x: ([0u8; 32], [0u8; 32]), y: ([0u8; 32], [0u8; 32]) };
    VerificationKey { alpha: g, beta: g2, gamma: g2, delta: g2, ic: vec![g, g, g, g] }
}

#[test]
fn test_register_agent() {
    let env = fresh_env();
    let mut verifier = ZKProofVerifier::new(empty_key());
    let agent_hash = [1u8; 32];
    verifier.register_agent(&env, agent_hash);
    let is_registered = verifier.is_agent_registered(agent_hash);
    assert!(is_registered);
}

#[test]
fn empty_accumulator_has_zero_root() {
    let acc = MerkleAccumulator::new();
    assert_eq!(acc.current_root(), [0u8; 32]);
    assert!(!acc.contains(&[1u8; 32]));
}

#[test]
fn single_leaf_root_is_the_leaf() {
    let env = fresh_env();
    let mut acc = MerkleAccumulator::new();
    let root = acc.register(&env, &[1u8; 32]);
    let expected = leaf(&env, &[1u8; 32]);
    assert_eq!(root, expected);
    assert_ne!(root, [1u8; 32]);
    assert_eq!(acc.current_root(), expected);
}

#[test]
fn registering_zero_hash_changes_the_empty_root() {
    let env = fresh_env();
    let mut acc = MerkleAccumulator::new();
    let before = acc.current_root();
    let root = acc.register(&env, &[0u8; 32]);
    assert_ne!(root, before);
    assert_eq!(root, leaf(&env, &[0u8; 32]));
}

#[test]
fn one_inner_node_and_its_two_leaves_commit_differently() {
    let env = fresh_env();
    let a = leaf(&env, &[1u8; 32]);
    let b = leaf(&env, &[2u8; 32]);
    let mut pair = MerkleAccumulator::new();
    pair.register(&env, &[1u8; 32]);
    let pair_root = pair.register(&env, &[2u8; 32]);
    let mut single = MerkleAccumulator::new();
    let single_root = single.register(&env, &sha256_pair(&env, &a, &b));
    assert_eq!(pair_root, sha256_pair(&env, &a, &b));
    assert_ne!(pair_root, single_root);
}

#[test]
fn two_leaves_hash_pairwise() {
    let env = fresh_env();
    let mut acc = MerkleAccumulator::new();
    acc.register(&env, &[1u8; 32]);
    let root = acc.register(&env, &[2u8; 32]);
    let expected = sha256_pair(&env, &leaf(&env, &[1u8; 32]), &leaf(&env, &[2u8; 32]));
    assert_eq!(root, expected);
}

#[test]
fn three_leaves_carry_the_odd_leaf_up() {
    let env = fresh_env();
    let mut acc = MerkleAccumulator::new();
    acc.register(&env, &[1u8; 32]);
    acc.register(&env, &[2u8; 32]);
    let root = acc.register(&env, &[3u8; 32]);
    let left = sha256_pair(&env, &leaf(&env, &[1u8; 32]), &leaf(&env, &[2u8; 32]));
    let expected = sha256_pair(&env, &left, &leaf(&env, &[3u8; 32]));
    assert_eq!(root, expected);
}

#[test]
fn five_leaves_root() {
    let env = fresh_env();
    let mut acc = MerkleAccumulator::new();
    let mut root = [0u8; 32];
    for k in 1u8..=5 {
        root = acc.register(&env, &[k; 32]);
    }
    let h12 = sha256_pair(&env, &leaf(&env, &[1u8; 32]), &leaf(&env, &[2u8; 32]));
    let h34 = sha256_pair(&env, &leaf(&env, &[3u8; 32]), &leaf(&env, &[4u8; 32]));
    let h1234 = sha256_pair(&env, &h12, &h34);
    let expected = sha256_pair(&env, &h1234, &leaf(&env, &[5u8; 32]));
    assert_eq!(root, expected);
}

#[test]
fn registering_twice_keeps_the_root() {
    let env = fresh_env();
    let mut acc = MerkleAccumulator::new();
    acc.register(&env, &[7u8; 32]);
    let once = acc.register(&env, &[8u8; 32]);
    let twice = acc.register(&env, &[8u8; 32]);
    assert_eq!(once, twice);
    assert_eq!(acc.current_root(), once);
}

#[test]
fn two_registrations_change_the_root_and_both_are_members() {
    let env = fresh_env();
    let h1 = [0x11u8; 32];
    let h2 = [0x22u8; 32];
    let mut only1 = MerkleAccumulator::new();
    let root1 = only1.register(&env, &h1);
    let mut only2 = MerkleAccumulator::new();
    let root2 = only2.register(&env, &h2);
    let mut both = MerkleAccumulator::new();
    both.register(&env, &h1);
    let root12 = both.register(&env, &h2);
    assert_ne!(root12, root1);
    assert_ne!(root12, root2);
    assert!(both.contains(&h1));
    assert!(both.contains(&h2));
}

#[test]
fn registry_scenario_root_moves_and_unknown_is_absent() {
    let env = fresh_env();
    let mut verifier = ZKProofVerifier::new(empty_key());
    let before = verifier.get_merkle_root();
    verifier.register_agent(&env, [0x01u8; 32]);
    verifier.register_agent(&env, [0x02u8; 32]);
    let after = verifier.get_merkle_root();
    assert_ne!(before, after);
    assert!(verifier.is_agent_registered([0x01u8; 32]));
    assert!(verifier.is_agent_registered([0x02u8; 32]));
    assert!(!verifier.is_agent_registered([0x03u8; 32]));
}

#[test]
fn building_from_hashes_matches_registering_in_turn() {
    let env = fresh_env();
    let hashes = vec![[1u8; 32], [2u8; 32], [1u8; 32], [3u8; 32]];
    let mut acc = MerkleAccumulator::new();
    for h in hashes.iter() {
        acc.register(&env, h);
    }
    let built = MerkleAccumulator::from_hashes(&env, &hashes);
    assert_eq!(built.current_root(), acc.current_root());
    assert!(built.contains(&[3u8; 32]));
    let verifier = ZKProofVerifier::with_agents(&env, empty_key(), &hashes);
    assert_eq!(verifier.get_merkle_root(), acc.current_root());
}

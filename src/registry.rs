//! The non-membership verifier: a verification key for the non-membership
//! circuit together with the accumulator of registered agents.
use vstd::prelude::*;
use crate::curve::{G1Point, G2Point};
use crate::groth16::{verify, verify_outcome, Groth16Proof, VerificationKey, VerifyResult};
use crate::merkle::{empty_root, leaf_view, merkle_root, register_all, register_leaves, MerkleAccumulator};
use soroban_sdk::Env;

verus! {

/// The scalar 1 as 32 big-endian bytes: the value the non-membership flag must hold.
pub open spec fn flag_one() -> Seq<u8> {
    Seq::new(32, |i: int| if i == 31 { 1u8 } else { 0u8 })
}

/// The proof assembled from its eight coordinates.
pub open spec fn proof_from_coordinates(
    a_x: [u8; 32],
    a_y: [u8; 32],
    b_x0: [u8; 32],
    b_x1: [u8; 32],
    b_y0: [u8; 32],
    b_y1: [u8; 32],
    c_x: [u8; 32],
    c_y: [u8; 32],
) -> Groth16Proof {
    Groth16Proof {
        pi_a: G1Point { x: a_x, y: a_y },
        pi_b: G2Point { x: (b_x0, b_x1), y: (b_y0, b_y1) },
        pi_c: G1Point { x: c_x, y: c_y },
    }
}

/// Verifies proofs that an agent hash is not registered, and keeps the
/// registry of agents.
pub struct ZKProofVerifier {
    vk: VerificationKey,
    registry: MerkleAccumulator,
}

impl ZKProofVerifier {
    pub closed spec fn wf(&self) -> bool {
        self.registry.wf()
    }

    /// The verification key of the non-membership circuit.
    pub closed spec fn key(&self) -> VerificationKey {
        self.vk
    }

    /// Registered agent hashes, in registration order.
    pub closed spec fn members(&self) -> Seq<Seq<u8>> {
        self.registry.leaves()
    }

    /// The committed Merkle root.
    pub closed spec fn root(&self) -> Seq<u8> {
        self.registry.root()
    }

    /// A verifier with the given key and no registered agent.
    pub fn new(vk: VerificationKey) -> (r: ZKProofVerifier)
        ensures
            r.wf(),
            r.key() == vk,
            r.members() == Seq::<Seq<u8>>::empty(),
            r.root() == empty_root(),
    {
        ZKProofVerifier { vk, registry: MerkleAccumulator::new() }
    }

    /// A verifier with the given key and the given agents registered in turn.
    pub fn with_agents(env: &Env, vk: VerificationKey, agents: &Vec<[u8; 32]>) -> (r: ZKProofVerifier)
        ensures
            r.wf(),
            r.key() == vk,
            r.members() == register_all(leaf_view(agents@)),
            r.root() == merkle_root(r.members()),
    {
        ZKProofVerifier { vk, registry: MerkleAccumulator::from_hashes(env, agents) }
    }

    /// Checks a proof that `public_agent_hash` is not a member of the set
    /// committed to by `public_root`. The public inputs are, in this order,
    /// the root, the agent hash and the flag, which must be 1. Any structural
    /// or cryptographic failure gives `false`. Whether `public_root` is the
    /// current root is left to the caller.
    pub fn verify_non_membership(
        &self,
        env: &Env,
        proof_a_x: [u8; 32],
        proof_a_y: [u8; 32],
        proof_b_x0: [u8; 32],
        proof_b_x1: [u8; 32],
        proof_b_y0: [u8; 32],
        proof_b_y1: [u8; 32],
        proof_c_x: [u8; 32],
        proof_c_y: [u8; 32],
        public_root: [u8; 32],
        public_agent_hash: [u8; 32],
        public_is_non_member: u32,
    ) -> (r: bool)
        ensures
            public_is_non_member != 1 ==> !r,
            r == (public_is_non_member == 1 && verify_outcome(
                proof_from_coordinates(
                    proof_a_x,
                    proof_a_y,
                    proof_b_x0,
                    proof_b_x1,
                    proof_b_y0,
                    proof_b_y1,
                    proof_c_x,
                    proof_c_y,
                ),
                self.key(),
                seq![public_root@, public_agent_hash@, flag_one()],
            ) == VerifyResult::Valid),
    {
        if public_is_non_member != 1 {
            return false;
        }
        let proof = Groth16Proof {
            pi_a: G1Point { x: proof_a_x, y: proof_a_y },
            pi_b: G2Point { x: (proof_b_x0, proof_b_x1), y: (proof_b_y0, proof_b_y1) },
            pi_c: G1Point { x: proof_c_x, y: proof_c_y },
        };
        let mut flag = [0u8; 32];
        flag[31] = 1;
        assert(flag@ =~= flag_one());
        let mut inputs: Vec<[u8; 32]> = Vec::new();
        inputs.push(public_root);
        inputs.push(public_agent_hash);
        inputs.push(flag);
        assert(crate::groth16::input_encodings(inputs@) =~= seq![
            public_root@,
            public_agent_hash@,
            flag_one(),
        ]);
        verify(env, &proof, &self.vk, &inputs) == VerifyResult::Valid
    }

    /// Registers an agent hash (a no-op when it is already registered) and
    /// returns the new Merkle root.
    pub fn register_agent(&mut self, env: &Env, agent_hash: [u8; 32]) -> (r: [u8; 32])
        requires
            old(self).wf(),
        ensures
            final(self).wf(),
            final(self).key() == old(self).key(),
            final(self).members() == register_leaves(old(self).members(), agent_hash@),
            final(self).root() == merkle_root(final(self).members()),
            r@ == final(self).root(),
            final(self).members().contains(agent_hash@),
    {
        self.registry.register(env, &agent_hash)
    }

    /// The current Merkle root.
    pub fn get_merkle_root(&self) -> (r: [u8; 32])
        requires
            self.wf(),
        ensures
            r@ == self.root(),
            r@ == merkle_root(self.members()),
    {
        self.registry.current_root()
    }

    /// Whether an agent hash has been registered.
    pub fn is_agent_registered(&self, agent_hash: [u8; 32]) -> (r: bool)
        requires
            self.wf(),
        ensures
            r == self.members().contains(agent_hash@),
    {
        self.registry.contains(&agent_hash)
    }
}

} // verus!

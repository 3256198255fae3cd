//! Verification of Groth16 proofs over BN254 that an agent hash is not in a
//! registry, and the Merkle accumulator that commits to that registry.
pub mod bytes;
pub mod curve;
pub mod groth16;
pub mod host;
pub mod merkle;
pub mod registry;

pub use curve::{DecodeError, G1Point, G2Point};
pub use groth16::{pairing_product_equals_one, verify, Groth16Proof, VerificationKey, VerifyResult};
pub use merkle::MerkleAccumulator;
pub use registry::ZKProofVerifier;

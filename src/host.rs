//! The BN254 and SHA-256 primitives this library takes from the Soroban host
//! (through `soroban_sdk`) and from arkworks, each behind a small trusted item.
//! The contracts below exclude every input on which a host call traps; a call
//! can still stop the invocation when the host's resource budget runs out.
use vstd::prelude::*;
use crate::bytes::{be_nat, fp_modulus, fr_modulus_bytes, is_canonical_fp};
use ark_ff::PrimeField;
use soroban_sdk::crypto::bn254::{Bn254Fr, Bn254G1Affine, Bn254G2Affine};
use soroban_sdk::{Bytes, BytesN, Env};

verus! {

#[verifier::external_type_specification]
#[verifier::external_body]
pub struct ExEnv(Env);

/// A 64-byte G1 encoding `x || y` is the identity (all zero bytes) or a point of
/// the curve y^2 = x^3 + 3 over F_p.
pub open spec fn g1_on_curve(enc: Seq<u8>) -> bool {
    all_zero(enc) || {
        let x = be_nat(enc.subrange(0, 32)) as int;
        let y = be_nat(enc.subrange(32, 64)) as int;
        let p = fp_modulus() as int;
        (y * y) % p == (x * x * x + 3) % p
    }
}

/// The zero of F_r for a big-endian scalar: a multiple of the group order
/// r = 0x30644e72e131a029b85045b68181585d2833e84879b9709143e1f593f0000001.
pub open spec fn scalar_is_zero(s: Seq<u8>) -> bool {
    be_nat(s) % be_nat(fr_modulus_bytes()) == 0
}

/// The 128-byte host encoding of a G2 point is on the twist curve and in the
/// prime-order subgroup.
pub uninterp spec fn g2_on_curve_in_subgroup_of(enc: Seq<u8>) -> bool;

/// Encoding of the sum of two G1 points.
pub uninterp spec fn g1_add_of(a: Seq<u8>, b: Seq<u8>) -> Seq<u8>;

/// Encoding of a G1 point multiplied by a big-endian scalar taken modulo r.
pub uninterp spec fn g1_mul_of(p: Seq<u8>, scalar: Seq<u8>) -> Seq<u8>;

/// Whether the product of the pairings e(g1s[i], g2s[i]) is the identity of the
/// target group.
pub uninterp spec fn pairing_product_is_one(g1s: Seq<Seq<u8>>, g2s: Seq<Seq<u8>>) -> bool;

/// SHA-256 digest of a byte string.
pub uninterp spec fn sha256_of(data: Seq<u8>) -> Seq<u8>;

pub open spec fn all_zero(s: Seq<u8>) -> bool {
    forall|i: int| 0 <= i < s.len() ==> s[i] == 0
}

/// A 64-byte G1 encoding that the host accepts: canonical coordinates, on the curve.
/// All zero bytes encode the identity.
pub open spec fn g1_valid(enc: Seq<u8>) -> bool {
    &&& enc.len() == 64
    &&& is_canonical_fp(enc.subrange(0, 32))
    &&& is_canonical_fp(enc.subrange(32, 64))
    &&& g1_on_curve(enc)
}

/// A 128-byte G2 encoding `x.c1 || x.c0 || y.c1 || y.c0` that the host accepts:
/// the identity (all zero), or canonical coordinates of a point on the twist in
/// the prime-order subgroup.
pub open spec fn g2_valid(enc: Seq<u8>) -> bool {
    &&& enc.len() == 128
    &&& (all_zero(enc) || {
        &&& is_canonical_fp(enc.subrange(0, 32))
        &&& is_canonical_fp(enc.subrange(32, 64))
        &&& is_canonical_fp(enc.subrange(64, 96))
        &&& is_canonical_fp(enc.subrange(96, 128))
        &&& g2_on_curve_in_subgroup_of(enc)
    })
}

pub open spec fn g1_encodings(v: Seq<[u8; 64]>) -> Seq<Seq<u8>> {
    v.map_values(|p: [u8; 64]| p@)
}

pub open spec fn g2_encodings(v: Seq<[u8; 128]>) -> Seq<Seq<u8>> {
    v.map_values(|p: [u8; 128]| p@)
}

/// Relies on soroban_sdk's `Bn254::g1_is_on_curve`: all zero bytes decode to the
/// identity, which is on the curve; other canonical coordinates are tested
/// against y^2 = x^3 + 3. It traps only on flag bits or non-canonical
/// coordinates, both excluded here.
#[verifier::external_body]
pub(crate) fn g1_is_on_curve(env: &Env, p: &[u8; 64]) -> (r: bool)
    requires
        is_canonical_fp(p@.subrange(0, 32)),
        is_canonical_fp(p@.subrange(32, 64)),
    ensures
        r == g1_on_curve(p@),
{
    env.crypto().bn254().g1_is_on_curve(&Bn254G1Affine::from_bytes(BytesN::from_array(env, p)))
}

/// Relies on soroban_sdk's `Bn254::g1_add`: the sum of two valid G1 points is a
/// valid G1 point, serialised canonically, and adding the identity (all zero
/// bytes) gives back the other point.
#[verifier::external_body]
pub(crate) fn g1_add(env: &Env, a: &[u8; 64], b: &[u8; 64]) -> (r: [u8; 64])
    requires
        g1_valid(a@),
        g1_valid(b@),
    ensures
        r@ == g1_add_of(a@, b@),
        g1_valid(r@),
        all_zero(a@) ==> r@ == b@,
        all_zero(b@) ==> r@ == a@,
{
    let pa = Bn254G1Affine::from_bytes(BytesN::from_array(env, a));
    let pb = Bn254G1Affine::from_bytes(BytesN::from_array(env, b));
    env.crypto().bn254().g1_add(&pa, &pb).to_array()
}

/// Relies on soroban_sdk's `Bn254::g1_mul` with `Bn254Fr::from_bytes`, which
/// reduces the big-endian scalar modulo r: the product is a valid G1 point, and
/// the identity when the scalar is 0 modulo r or the point is the identity.
#[verifier::external_body]
pub(crate) fn g1_mul(env: &Env, p: &[u8; 64], scalar: &[u8; 32]) -> (r: [u8; 64])
    requires
        g1_valid(p@),
    ensures
        r@ == g1_mul_of(p@, scalar@),
        g1_valid(r@),
        scalar_is_zero(scalar@) ==> all_zero(r@),
        all_zero(p@) ==> all_zero(r@),
{
    let pt = Bn254G1Affine::from_bytes(BytesN::from_array(env, p));
    let s = Bn254Fr::from_bytes(BytesN::from_array(env, scalar));
    env.crypto().bn254().g1_mul(&pt, &s).to_array()
}

/// Relies on soroban_sdk's `Bn254::pairing_check`, which traps on empty or
/// unequal vectors and on invalid points, all excluded here.
#[verifier::external_body]
pub(crate) fn pairing_check(env: &Env, g1s: &Vec<[u8; 64]>, g2s: &Vec<[u8; 128]>) -> (r: bool)
    requires
        g1s.len() == g2s.len(),
        g1s.len() > 0,
        forall|i: int| 0 <= i < g1s.len() ==> g1_valid(#[trigger] g1s@[i]@),
        forall|i: int| 0 <= i < g2s.len() ==> g2_valid(#[trigger] g2s@[i]@),
    ensures
        r == pairing_product_is_one(g1_encodings(g1s@), g2_encodings(g2s@)),
{
    let v1 = soroban_sdk::Vec::from_iter(
        env,
        g1s.iter().map(|p| Bn254G1Affine::from_bytes(BytesN::from_array(env, p))),
    );
    let v2 = soroban_sdk::Vec::from_iter(
        env,
        g2s.iter().map(|q| Bn254G2Affine::from_bytes(BytesN::from_array(env, q))),
    );
    env.crypto().bn254().pairing_check(v1, v2)
}

/// Relies on arkworks' `Affine::is_on_curve` and
/// `Affine::is_in_correct_subgroup_assuming_on_curve` for BN254 G2, the checks
/// the Soroban host applies to every G2 input.
#[verifier::external_body]
pub(crate) fn g2_on_curve_in_subgroup(enc: &[u8; 128]) -> (r: bool)
    ensures
        r == g2_on_curve_in_subgroup_of(enc@),
{
    let x1 = ark_bn254::Fq::from_be_bytes_mod_order(&enc[0..32]);
    let x0 = ark_bn254::Fq::from_be_bytes_mod_order(&enc[32..64]);
    let y1 = ark_bn254::Fq::from_be_bytes_mod_order(&enc[64..96]);
    let y0 = ark_bn254::Fq::from_be_bytes_mod_order(&enc[96..128]);
    let x = ark_bn254::Fq2::new(x0, x1);
    let y = ark_bn254::Fq2::new(y0, y1);
    let pt = ark_bn254::G2Affine::new_unchecked(x, y);
    pt.is_on_curve() && pt.is_in_correct_subgroup_assuming_on_curve()
}

/// Relies on soroban_sdk's `Crypto::sha256`.
#[verifier::external_body]
pub(crate) fn sha256(env: &Env, data: &[u8; 64]) -> (r: [u8; 32])
    ensures
        r@ == sha256_of(data@),
{
    env.crypto().sha256(&Bytes::from_array(env, data)).to_array()
}

} // verus!

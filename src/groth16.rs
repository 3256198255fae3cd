//! The Groth16 pairing check over BN254.
use vstd::prelude::*;
use crate::bytes::{
    be_nat, fp_modulus, fp_modulus_bytes, is_canonical, is_canonical_fp, lemma_be_nat_bound,
    lemma_be_nat_prepend, lemma_be_nat_zero_iff, pow256, be_bytes, lemma_be_bytes_of_be_nat,
};
use crate::curve::{concat32, slot32, DecodeError, G1Point, G2Point};
use crate::host::{
    all_zero, g1_add, g1_add_of, g1_encodings, g1_is_on_curve, g1_mul, g1_mul_of,
    g1_valid, g2_encodings, g2_on_curve_in_subgroup, g2_valid, pairing_check,
    pairing_product_is_one,
};
use soroban_sdk::Env;

verus! {

/// Outcome of a Groth16 verification.
#[derive(Debug, Clone, Copy, PartialEq, Eq, Structural)]
pub enum VerifyResult {
    /// The pairing equation holds.
    Valid,
    /// Inputs are well formed but the pairing equation fails.
    Invalid,
    /// Wrong number of public inputs, or a point that is not a valid curve point.
    Malformed,
}

/// The prover's output.
#[derive(Debug, Clone, Copy)]
pub struct Groth16Proof {
    pub pi_a: G1Point,
    pub pi_b: G2Point,
    pub pi_c: G1Point,
}

/// A verification key; `ic` holds one point more than there are public inputs.
#[derive(Debug, Clone)]
pub struct VerificationKey {
    pub alpha: G1Point,
    pub beta: G2Point,
    pub gamma: G2Point,
    pub delta: G2Point,
    pub ic: Vec<G1Point>,
}

/// -y in F_p for a canonical y.
pub open spec fn fp_neg(y: nat) -> nat {
    if y == 0 {
        0
    } else {
        (fp_modulus() - y) as nat
    }
}

/// Encoding of -P for a G1 encoding P = x || y: x is kept and y becomes -y.
pub open spec fn g1_negated(enc: Seq<u8>) -> Seq<u8> {
    enc.subrange(0, 32) + be_bytes(fp_neg(be_nat(enc.subrange(32, 64))), 32)
}

/// A serialised key is `alpha || beta || gamma || delta || ic[0] || ... `, with
/// 64-byte G1 points and 128-byte G2 points; `ic` holds at least one point.
pub open spec fn key_length_ok(len: nat) -> bool {
    len >= 512 && (len - 448) % 64 == 0
}

/// Every 32-byte slot of `b` is a canonical element of F_p.
pub open spec fn all_slots_canonical(b: Seq<u8>, end: int) -> bool {
    forall|k: int| 0 <= k && 32 * k + 32 <= end ==> is_canonical_fp(#[trigger] slot(b, k))
}

/// The `k`-th 32-byte slot of `b`.
pub open spec fn slot(b: Seq<u8>, k: int) -> Seq<u8> {
    b.subrange(32 * k, 32 * k + 32)
}

/// `vk` is what the serialised key `b` describes.
pub open spec fn key_matches(vk: VerificationKey, b: Seq<u8>) -> bool {
    &&& vk.alpha.encoding() == b.subrange(0, 64)
    &&& vk.beta.encoding() == b.subrange(64, 192)
    &&& vk.gamma.encoding() == b.subrange(192, 320)
    &&& vk.delta.encoding() == b.subrange(320, 448)
    &&& vk.ic@.len() == (b.len() - 448) / 64
    &&& forall|i: int| 0 <= i < vk.ic@.len() ==> (#[trigger] vk.ic@[i]).encoding() == b.subrange(448 + 64 * i, 512 + 64 * i)
}

pub open spec fn g1_point_valid(p: G1Point) -> bool {
    g1_valid(p.encoding())
}

pub open spec fn g2_point_valid(p: G2Point) -> bool {
    g2_valid(p.host_encoding())
}

pub open spec fn ic_encodings(ic: Seq<G1Point>) -> Seq<Seq<u8>> {
    ic.map_values(|p: G1Point| p.encoding())
}

pub open spec fn input_encodings(inputs: Seq<[u8; 32]>) -> Seq<Seq<u8>> {
    inputs.map_values(|s: [u8; 32]| s@)
}

/// Every point of the proof and of the key is one the curve host accepts.
pub open spec fn points_valid(proof: Groth16Proof, vk: VerificationKey) -> bool {
    &&& g1_point_valid(proof.pi_a)
    &&& g2_point_valid(proof.pi_b)
    &&& g1_point_valid(proof.pi_c)
    &&& g1_point_valid(vk.alpha)
    &&& g2_point_valid(vk.beta)
    &&& g2_point_valid(vk.gamma)
    &&& g2_point_valid(vk.delta)
    &&& forall|i: int| 0 <= i < vk.ic@.len() ==> g1_point_valid(#[trigger] vk.ic@[i])
}

/// ic[0] + inputs[0]·ic[1] + ... + inputs[k-1]·ic[k], as an encoding.
pub open spec fn input_acc(ic: Seq<Seq<u8>>, inputs: Seq<Seq<u8>>, k: nat) -> Seq<u8>
    decreases k,
{
    if k == 0 {
        ic[0]
    } else {
        g1_add_of(
            input_acc(ic, inputs, (k - 1) as nat),
            g1_mul_of(ic[k as int], inputs[k - 1]),
        )
    }
}

/// The G1 side of e(A, B) · e(-acc, γ) · e(-C, δ) · e(-α, β).
pub open spec fn pairing_g1s(proof: Groth16Proof, vk: VerificationKey, acc: Seq<u8>) -> Seq<
    Seq<u8>,
> {
    seq![
        proof.pi_a.encoding(),
        g1_negated(acc),
        g1_negated(proof.pi_c.encoding()),
        g1_negated(vk.alpha.encoding()),
    ]
}

/// The G2 side of e(A, B) · e(-acc, γ) · e(-C, δ) · e(-α, β).
pub open spec fn pairing_g2s(proof: Groth16Proof, vk: VerificationKey) -> Seq<Seq<u8>> {
    seq![
        proof.pi_b.host_encoding(),
        vk.gamma.host_encoding(),
        vk.delta.host_encoding(),
        vk.beta.host_encoding(),
    ]
}

/// e(A, B) = e(α, β) · e(acc, γ) · e(C, δ), written as one product that must be 1.
pub open spec fn groth16_holds(
    proof: Groth16Proof,
    vk: VerificationKey,
    inputs: Seq<Seq<u8>>,
) -> bool {
    let acc = input_acc(ic_encodings(vk.ic@), inputs, inputs.len());
    pairing_product_is_one(pairing_g1s(proof, vk, acc), pairing_g2s(proof, vk))
}

/// What `verify` returns.
pub open spec fn verify_outcome(
    proof: Groth16Proof,
    vk: VerificationKey,
    inputs: Seq<Seq<u8>>,
) -> VerifyResult {
    if inputs.len() + 1 != vk.ic@.len() {
        VerifyResult::Malformed
    } else if !points_valid(proof, vk) {
        VerifyResult::Malformed
    } else if groth16_holds(proof, vk, inputs) {
        VerifyResult::Valid
    } else {
        VerifyResult::Invalid
    }
}

/// A proof that satisfies the Groth16 equation for well-formed points and the
/// right number of public inputs is accepted.
pub proof fn lemma_satisfying_proof_is_valid(
    proof: Groth16Proof,
    vk: VerificationKey,
    inputs: Seq<Seq<u8>>,
)
    requires
        inputs.len() + 1 == vk.ic@.len(),
        points_valid(proof, vk),
        groth16_holds(proof, vk, inputs),
    ensures
        verify_outcome(proof, vk, inputs) == VerifyResult::Valid,
{
}

/// Replacing y by p - y keeps a valid G1 point valid.
proof fn lemma_neg_on_curve(enc: Seq<u8>, z: Seq<u8>)
    requires
        g1_valid(enc),
        z.len() == 32,
        be_nat(enc.subrange(32, 64)) != 0,
        be_nat(z) + be_nat(enc.subrange(32, 64)) == fp_modulus(),
    ensures
        g1_valid(enc.subrange(0, 32) + z),
{
    let r = enc.subrange(0, 32) + z;
    assert(r.subrange(0, 32) =~= enc.subrange(0, 32));
    assert(r.subrange(32, 64) =~= z);
    let yb = enc.subrange(32, 64);
    lemma_be_nat_zero_iff(yb);
    assert(!all_zero(enc)) by {
        if all_zero(enc) {
            assert forall|t: int| 0 <= t < 32 implies yb[t] == 0 by {
                assert(yb[t] == enc[32 + t]);
            }
        }
    }
    let pm = fp_modulus() as int;
    let y = be_nat(yb) as int;
    let w = be_nat(z) as int;
    assert(w * w == y * y + pm * (pm - 2 * y)) by (nonlinear_arith)
        requires
            w + y == pm,
    ;
    vstd::arithmetic::div_mod::lemma_mod_multiples_vanish(pm - 2 * y, y * y, pm);
}

/// -P for a valid G1 encoding P = x || y: x is kept and y becomes p - y, with
/// y = 0 (the identity) kept.
pub fn g1_neg(p: &[u8; 64]) -> (r: [u8; 64])
    requires
        g1_valid(p@),
    ensures
        r@ == g1_negated(p@),
        g1_valid(r@),
{
    let x = slot32(p, 0);
    let y = slot32(p, 32);
    let m: [u8; 32] = [
        0x30, 0x64, 0x4e, 0x72, 0xe1, 0x31, 0xa0, 0x29, 0xb8, 0x50, 0x45, 0xb6, 0x81, 0x81, 0x58,
        0x5d, 0x97, 0x81, 0x6a, 0x91, 0x68, 0x71, 0xca, 0x8d, 0x3c, 0x20, 0x8c, 0x16, 0xd8, 0x7c,
        0xfd, 0x47,
    ];
    assert(m@ =~= fp_modulus_bytes());
    let ghost pm = fp_modulus() as int;
    let ghost yv = be_nat(y@) as int;
    let mut z = [0u8; 32];
    let mut borrow: u8 = 0;
    let mut i: usize = 32;
    assert(z@.subrange(32, 32).len() == 0 && y@.subrange(32, 32).len() == 0 && m@.subrange(32, 32).len() == 0);
    assert(be_nat(z@.subrange(32, 32)) == 0 && be_nat(y@.subrange(32, 32)) == 0 && be_nat(m@.subrange(32, 32)) == 0);
    while i > 0
        invariant
            0 <= i <= 32,
            borrow <= 1,
            z@.len() == 32,
            y@.len() == 32,
            m@ == fp_modulus_bytes(),
            be_nat(z@.subrange(i as int, 32)) + be_nat(y@.subrange(i as int, 32)) == be_nat(
                m@.subrange(i as int, 32),
            ) + borrow as nat * pow256((32 - i) as nat),
        decreases i,
    {
        let ghost z_old = z@;
        let ghost b_old = borrow as int;
        let k = i - 1;
        let need: u16 = y[k] as u16 + borrow as u16;
        if m[k] as u16 >= need {
            z[k] = (m[k] as u16 - need) as u8;
            borrow = 0;
        } else {
            z[k] = (m[k] as u16 + 256 - need) as u8;
            borrow = 1;
        }
        proof {
            assert(z@.subrange(i as int, 32) =~= z_old.subrange(i as int, 32));
            lemma_be_nat_prepend(z@, i as int);
            lemma_be_nat_prepend(y@, i as int);
            lemma_be_nat_prepend(m@, i as int);
            let w = pow256((32 - i) as nat) as int;
            assert(pow256((32 - k) as nat) == 256 * pow256((32 - i) as nat));
            assert(z@[k as int] as int + y@[k as int] as int + b_old == m@[k as int] as int + 256
                * borrow as int);
            assert(z@[k as int] as int * w + y@[k as int] as int * w + b_old * w == m@[k as int] as int * w
                + borrow as int * (256 * w)) by (nonlinear_arith)
                requires
                    z@[k as int] as int + y@[k as int] as int + b_old == m@[k as int] as int + 256
                        * borrow as int,
            ;
            let zo = be_nat(z@.subrange(i as int, 32)) as int;
            let yo = be_nat(y@.subrange(i as int, 32)) as int;
            let mo = be_nat(m@.subrange(i as int, 32)) as int;
            assert(zo + yo == mo + b_old * w);
            assert(be_nat(z@.subrange(k as int, 32)) == z@[k as int] as int * w + zo);
            assert(be_nat(y@.subrange(k as int, 32)) == y@[k as int] as int * w + yo);
            assert(be_nat(m@.subrange(k as int, 32)) == m@[k as int] as int * w + mo);
            assert(borrow as nat * pow256((32 - k) as nat) == borrow as int * (256 * w));
            assert(be_nat(z@.subrange(k as int, 32)) + be_nat(y@.subrange(k as int, 32)) == be_nat(
                m@.subrange(k as int, 32),
            ) + borrow as nat * pow256((32 - k) as nat));
        }
        i = k;
    }
    assert(z@ =~= z@.subrange(0, 32));
    assert(y@ =~= y@.subrange(0, 32));
    assert(m@ =~= m@.subrange(0, 32));
    assert(y@ == p@.subrange(32, 64));
    assert(x@ == p@.subrange(0, 32));
    proof {
        lemma_be_nat_bound(z@);
        lemma_be_nat_bound(y@);
        assert(pow256(32) == pow256((32 - 0) as nat));
    }
    assert(borrow == 0);
    let mut zero = true;
    let mut j: usize = 0;
    while j < 32
        invariant
            0 <= j <= 32,
            y@.len() == 32,
            zero == (forall|t: int| 0 <= t < j ==> y@[t] == 0),
        decreases 32 - j,
    {
        if y[j] != 0 {
            zero = false;
        }
        j = j + 1;
    }
    proof {
        lemma_be_bytes_of_be_nat(z@);
        lemma_be_bytes_of_be_nat(y@);
        lemma_be_nat_zero_iff(y@);
    }
    if zero {
        assert(p@ =~= x@ + y@);
        return *p;
    }
    proof {
        lemma_neg_on_curve(p@, z@);
    }
    let r = concat32(&x, &z);
    r
}

/// Whether a G1 point has canonical coordinates and lies on the curve.
pub fn g1_point_is_valid(env: &Env, p: &G1Point) -> (r: bool)
    ensures
        r == g1_point_valid(*p),
{
    let enc = p.to_bytes();
    assert(enc@.subrange(0, 32) =~= p.x@);
    assert(enc@.subrange(32, 64) =~= p.y@);
    if is_canonical(&p.x) && is_canonical(&p.y) {
        g1_is_on_curve(env, &enc)
    } else {
        false
    }
}

/// Whether a G2 point is the identity, or has canonical coordinates and lies on
/// the twist in the prime-order subgroup.
pub fn g2_point_is_valid(p: &G2Point) -> (r: bool)
    ensures
        r == g2_point_valid(*p),
{
    let enc = p.to_host_bytes();
    let mut zero = true;
    let mut i: usize = 0;
    while i < 128
        invariant
            0 <= i <= 128,
            enc@.len() == 128,
            zero == (forall|j: int| 0 <= j < i ==> enc@[j] == 0),
        decreases 128 - i,
    {
        if enc[i] != 0 {
            zero = false;
        }
        i = i + 1;
    }
    if zero {
        return true;
    }
    assert(enc@.subrange(0, 32) =~= p.x.1@);
    assert(enc@.subrange(32, 64) =~= p.x.0@);
    assert(enc@.subrange(64, 96) =~= p.y.1@);
    assert(enc@.subrange(96, 128) =~= p.y.0@);
    if is_canonical(&p.x.0) && is_canonical(&p.x.1) && is_canonical(&p.y.0) && is_canonical(
        &p.y.1,
    ) {
        g2_on_curve_in_subgroup(&enc)
    } else {
        false
    }
}

/// Whether every point of the proof and of the key is valid.
pub fn points_are_valid(env: &Env, proof: &Groth16Proof, vk: &VerificationKey) -> (r: bool)
    ensures
        r == points_valid(*proof, *vk),
{
    if !(g1_point_is_valid(env, &proof.pi_a) && g2_point_is_valid(&proof.pi_b)
        && g1_point_is_valid(env, &proof.pi_c) && g1_point_is_valid(env, &vk.alpha)
        && g2_point_is_valid(&vk.beta) && g2_point_is_valid(&vk.gamma) && g2_point_is_valid(
        &vk.delta,
    )) {
        return false;
    }
    let mut i: usize = 0;
    while i < vk.ic.len()
        invariant
            0 <= i <= vk.ic@.len(),
            forall|j: int| 0 <= j < i ==> g1_point_valid(#[trigger] vk.ic@[j]),
        decreases vk.ic@.len() - i,
    {
        if !g1_point_is_valid(env, &vk.ic[i]) {
            return false;
        }
        i = i + 1;
    }
    true
}

/// Every pair holds a valid G1 point and a valid G2 point.
pub open spec fn pairs_valid(pairs: Seq<(G1Point, G2Point)>) -> bool {
    forall|i: int|
        0 <= i < pairs.len() ==> g1_point_valid(#[trigger] pairs[i].0) && g2_point_valid(
            pairs[i].1,
        )
}

/// Whether the product of e(P_i, Q_i) over all pairs is 1 in the target group.
/// A point that is not a valid curve point gives `Err(Malformed)`; the empty
/// product is 1.
pub fn pairing_product_equals_one(env: &Env, pairs: &Vec<(G1Point, G2Point)>) -> (r: Result<
    bool,
    DecodeError,
>)
    ensures
        r is Err <==> !pairs_valid(pairs@),
        r matches Ok(b) ==> b == (pairs@.len() == 0 || pairing_product_is_one(
            pairs@.map_values(|p: (G1Point, G2Point)| p.0.encoding()),
            pairs@.map_values(|p: (G1Point, G2Point)| p.1.host_encoding()),
        )),
{
    let mut g1s: Vec<[u8; 64]> = Vec::new();
    let mut g2s: Vec<[u8; 128]> = Vec::new();
    let mut i: usize = 0;
    while i < pairs.len()
        invariant
            0 <= i <= pairs@.len(),
            g1s@.len() == i,
            g2s@.len() == i,
            forall|j: int|
                0 <= j < i ==> {
                    &&& g1_point_valid((#[trigger] pairs@[j]).0)
                    &&& g2_point_valid(pairs@[j].1)
                    &&& g1s@[j]@ == pairs@[j].0.encoding()
                    &&& g2s@[j]@ == pairs@[j].1.host_encoding()
                },
        decreases pairs@.len() - i,
    {
        let (p, q) = pairs[i];
        if !(g1_point_is_valid(env, &p) && g2_point_is_valid(&q)) {
            assert(!pairs_valid(pairs@)) by {
                assert(pairs@[i as int] == (p, q));
            }
            return Err(DecodeError::Malformed);
        }
        g1s.push(p.to_bytes());
        g2s.push(q.to_host_bytes());
        i = i + 1;
    }
    if pairs.len() == 0 {
        return Ok(true);
    }
    assert forall|k: int| 0 <= k < g1s@.len() implies g1_valid(#[trigger] g1s@[k]@) && g2_valid(
        g2s@[k]@,
    ) by {
        assert(pairs@[k] == pairs@[k]);
    }
    assert forall|k: int| 0 <= k < g2s@.len() implies g2_valid(#[trigger] g2s@[k]@) by {
        assert(pairs@[k] == pairs@[k]);
    }
    assert(g1_encodings(g1s@) =~= pairs@.map_values(|p: (G1Point, G2Point)| p.0.encoding()));
    assert(g2_encodings(g2s@) =~= pairs@.map_values(|p: (G1Point, G2Point)| p.1.host_encoding()));
    Ok(pairing_check(env, &g1s, &g2s))
}

/// Checks a Groth16 proof against a verification key and public inputs
/// (32-byte big-endian scalars, taken modulo r).
pub fn verify(env: &Env, proof: &Groth16Proof, vk: &VerificationKey, inputs: &Vec<[u8; 32]>) -> (r:
    VerifyResult)
    ensures
        r == verify_outcome(*proof, *vk, input_encodings(inputs@)),
{
    let ghost ins = input_encodings(inputs@);
    let ghost ic = ic_encodings(vk.ic@);
    if vk.ic.len() == 0 || inputs.len() != vk.ic.len() - 1 {
        return VerifyResult::Malformed;
    }
    if !points_are_valid(env, proof, vk) {
        return VerifyResult::Malformed;
    }
    assert(g1_point_valid(vk.ic@[0]));
    let mut acc = vk.ic[0].to_bytes();
    let mut i: usize = 0;
    while i < inputs.len()
        invariant
            0 <= i <= inputs@.len(),
            inputs@.len() + 1 == vk.ic@.len(),
            ins == input_encodings(inputs@),
            ic == ic_encodings(vk.ic@),
            points_valid(*proof, *vk),
            acc@ == input_acc(ic, ins, i as nat),
            g1_valid(acc@),
        decreases inputs@.len() - i,
    {
        assert(g1_point_valid(vk.ic@[i + 1]));
        let term = g1_mul(env, &vk.ic[i + 1].to_bytes(), &inputs[i]);
        acc = g1_add(env, &acc, &term);
        i = i + 1;
    }
    let neg_acc = g1_neg(&acc);
    let neg_c = g1_neg(&proof.pi_c.to_bytes());
    let neg_alpha = g1_neg(&vk.alpha.to_bytes());
    let mut g1s: Vec<[u8; 64]> = Vec::new();
    g1s.push(proof.pi_a.to_bytes());
    g1s.push(neg_acc);
    g1s.push(neg_c);
    g1s.push(neg_alpha);
    let mut g2s: Vec<[u8; 128]> = Vec::new();
    g2s.push(proof.pi_b.to_host_bytes());
    g2s.push(vk.gamma.to_host_bytes());
    g2s.push(vk.delta.to_host_bytes());
    g2s.push(vk.beta.to_host_bytes());
    assert(g1_encodings(g1s@) =~= pairing_g1s(*proof, *vk, acc@));
    assert(g2_encodings(g2s@) =~= pairing_g2s(*proof, *vk));
    assert(ins.len() == inputs@.len());
    if pairing_check(env, &g1s, &g2s) {
        VerifyResult::Valid
    } else {
        VerifyResult::Invalid
    }
}

/// The G1 point written in slots `k` and `k + 1`, if both are canonical.
fn g1_at(b: &Vec<u8>, k: usize) -> (r: Option<G1Point>)
    requires
        32 * k + 64 <= b@.len(),
    ensures
        r is Some <==> forall|i: int| k <= i < k + 2 ==> is_canonical_fp(#[trigger] slot(b@, i)),
        r matches Some(p) ==> p.encoding() == b@.subrange(32 * k, 32 * k + 64),
{
    let n = b.len();
    assert(32 * k + 64 <= n);
    let start = 32 * k;
    let x = slot32(b.as_slice(), start);
    let y = slot32(b.as_slice(), start + 32);
    assert(x@ == slot(b@, k as int));
    assert(y@ == slot(b@, k + 1));
    if is_canonical(&x) && is_canonical(&y) {
        let p = G1Point { x, y };
        assert(p.encoding() =~= b@.subrange(start as int, start + 64));
        Some(p)
    } else {
        None
    }
}

/// The G2 point written in slots `k` to `k + 3`, if all four are canonical.
fn g2_at(b: &Vec<u8>, k: usize) -> (r: Option<G2Point>)
    requires
        32 * k + 128 <= b@.len(),
    ensures
        r is Some <==> forall|i: int| k <= i < k + 4 ==> is_canonical_fp(#[trigger] slot(b@, i)),
        r matches Some(p) ==> p.encoding() == b@.subrange(32 * k, 32 * k + 128),
{
    let n = b.len();
    assert(32 * k + 128 <= n);
    let start = 32 * k;
    let x0 = slot32(b.as_slice(), start);
    let x1 = slot32(b.as_slice(), start + 32);
    let y0 = slot32(b.as_slice(), start + 64);
    let y1 = slot32(b.as_slice(), start + 96);
    assert(x0@ == slot(b@, k as int));
    assert(x1@ == slot(b@, k + 1));
    assert(y0@ == slot(b@, k + 2));
    assert(y1@ == slot(b@, k + 3));
    if is_canonical(&x0) && is_canonical(&x1) && is_canonical(&y0) && is_canonical(&y1) {
        let p = G2Point { x: (x0, x1), y: (y0, y1) };
        assert(p.encoding() =~= b@.subrange(start as int, start + 128));
        Some(p)
    } else {
        None
    }
}

impl VerificationKey {
    /// Reads a key written as `alpha || beta || gamma || delta || ic...`, with
    /// the point encodings of `G1Point` and `G2Point`. A length that fits no
    /// key, or a coordinate that is not below p, gives `Err(Malformed)`.
    pub fn from_bytes(b: &Vec<u8>) -> (r: Result<VerificationKey, DecodeError>)
        ensures
            r is Ok <==> key_length_ok(b@.len()) && all_slots_canonical(b@, b@.len() as int),
            r matches Ok(vk) ==> key_matches(vk, b@),
    {
        let n = b.len();
        if n < 512 || (n - 448) % 64 != 0 {
            return Err(DecodeError::Malformed);
        }
        let alpha = g1_at(b, 0);
        let beta = g2_at(b, 2);
        let gamma = g2_at(b, 6);
        let delta = g2_at(b, 10);
        if alpha.is_none() || beta.is_none() || gamma.is_none() || delta.is_none() {
            return Err(DecodeError::Malformed);
        }
        let alpha = alpha.unwrap();
        let beta = beta.unwrap();
        let gamma = gamma.unwrap();
        let delta = delta.unwrap();
        assert forall|k: int| 0 <= k && 32 * k + 32 <= 448 implies is_canonical_fp(
            #[trigger] slot(b@, k),
        ) by {
            assert(0 <= k < 14);
        }
        let mut ic: Vec<G1Point> = Vec::new();
        let mut k: usize = 14;
        while 32 * k < n
            invariant
                14 <= k,
                32 * k <= n,
                n == b@.len(),
                (n - 448) % 64 == 0,
                (32 * k - 448) % 64 == 0,
                ic@.len() == (32 * k - 448) / 64,
                all_slots_canonical(b@, 32 * k),
                forall|i: int|
                    0 <= i < ic@.len() ==> (#[trigger] ic@[i]).encoding() == b@.subrange(
                        448 + 64 * i,
                        512 + 64 * i,
                    ),
            decreases n - 32 * k,
        {
            assert(32 * k + 64 <= n);
            match g1_at(b, k) {
                Some(p) => {
                    ic.push(p);
                    assert forall|j: int| 0 <= j && 32 * j + 32 <= 32 * k + 64 implies is_canonical_fp(
                        #[trigger] slot(b@, j),
                    ) by {
                        if j >= k {
                            assert(j == k || j == k + 1);
                        }
                    }
                    k = k + 2;
                },
                None => {
                    return Err(DecodeError::Malformed);
                },
            }
        }
        let vk = VerificationKey { alpha, beta, gamma, delta, ic };
        Ok(vk)
    }
}

} // verus!

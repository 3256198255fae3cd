//! Affine BN254 points and their fixed-width big-endian wire encodings.
use vstd::prelude::*;
use crate::bytes::{is_canonical, is_canonical_fp};

verus! {

/// Why an encoded value was refused before any curve arithmetic.
#[derive(Debug, Clone, Copy, PartialEq, Eq, Structural)]
pub enum DecodeError {
    /// A coordinate is not the canonical encoding of an element of F_p.
    Malformed,
}

/// A G1 point in affine coordinates, each a 32-byte big-endian element of F_p.
/// The identity is written with both coordinates zero.
#[derive(Debug, Clone, Copy)]
pub struct G1Point {
    pub x: [u8; 32],
    pub y: [u8; 32],
}

/// A G2 point in affine coordinates over F_p^2; each coordinate is the pair (c0, c1).
#[derive(Debug, Clone, Copy)]
pub struct G2Point {
    pub x: ([u8; 32], [u8; 32]),
    pub y: ([u8; 32], [u8; 32]),
}

/// Two 32-byte slots side by side.
pub fn concat32(a: &[u8; 32], b: &[u8; 32]) -> (r: [u8; 64])
    ensures
        r@ == a@ + b@,
{
    let mut r = [0u8; 64];
    let mut i: usize = 0;
    while i < 32
        invariant
            0 <= i <= 32,
            r@.len() == 64,
            forall|j: int| 0 <= j < i ==> r@[j] == a@[j] && r@[j + 32] == b@[j],
        decreases 32 - i,
    {
        r[i] = a[i];
        r[i + 32] = b[i];
        i = i + 1;
    }
    assert(r@ =~= a@ + b@);
    r
}

/// Two 64-byte slots side by side.
pub fn concat64(a: &[u8; 64], b: &[u8; 64]) -> (r: [u8; 128])
    ensures
        r@ == a@ + b@,
{
    let mut r = [0u8; 128];
    let mut i: usize = 0;
    while i < 64
        invariant
            0 <= i <= 64,
            r@.len() == 128,
            forall|j: int| 0 <= j < i ==> r@[j] == a@[j] && r@[j + 64] == b@[j],
        decreases 64 - i,
    {
        r[i] = a[i];
        r[i + 64] = b[i];
        i = i + 1;
    }
    assert(r@ =~= a@ + b@);
    r
}

/// The 32 bytes of `b` that start at `start`.
pub fn slot32(b: &[u8], start: usize) -> (r: [u8; 32])
    requires
        start + 32 <= b@.len(),
    ensures
        r@ == b@.subrange(start as int, start + 32),
{
    let n = b.len();
    let mut r = [0u8; 32];
    let mut i: usize = 0;
    while i < 32
        invariant
            0 <= i <= 32,
            n == b@.len(),
            start + 32 <= n,
            r@.len() == 32,
            forall|j: int| 0 <= j < i ==> r@[j] == b@[start + j],
        decreases 32 - i,
    {
        r[i] = b[start + i];
        i = i + 1;
    }
    assert(r@ =~= b@.subrange(start as int, start + 32));
    r
}

/// The four 32-byte slots of a 128-byte encoding are canonical field elements.
pub open spec fn slots_canonical(b: Seq<u8>) -> bool {
    &&& is_canonical_fp(b.subrange(0, 32))
    &&& is_canonical_fp(b.subrange(32, 64))
    &&& is_canonical_fp(b.subrange(64, 96))
    &&& is_canonical_fp(b.subrange(96, 128))
}

impl G1Point {
    /// Wire encoding `x || y`.
    pub open spec fn encoding(self) -> Seq<u8> {
        self.x@ + self.y@
    }

    pub open spec fn is_canonical(self) -> bool {
        is_canonical_fp(self.x@) && is_canonical_fp(self.y@)
    }

    pub fn to_bytes(&self) -> (r: [u8; 64])
        ensures
            r@ == self.encoding(),
    {
        concat32(&self.x, &self.y)
    }

    /// Reads `x || y`; refuses a coordinate that is not below p.
    pub fn from_bytes(b: &[u8; 64]) -> (r: Result<G1Point, DecodeError>)
        ensures
            r is Ok <==> is_canonical_fp(b@.subrange(0, 32)) && is_canonical_fp(
                b@.subrange(32, 64),
            ),
            r matches Ok(p) ==> p.encoding() == b@ && p.is_canonical(),
    {
        let x = slot32(b, 0);
        let y = slot32(b, 32);
        if is_canonical(&x) && is_canonical(&y) {
            let p = G1Point { x, y };
            assert(p.encoding() =~= b@);
            Ok(p)
        } else {
            Err(DecodeError::Malformed)
        }
    }
}

impl G2Point {
    /// Wire encoding `x.c0 || x.c1 || y.c0 || y.c1`.
    pub open spec fn encoding(self) -> Seq<u8> {
        self.x.0@ + self.x.1@ + self.y.0@ + self.y.1@
    }

    /// Encoding the pairing host reads: `x.c1 || x.c0 || y.c1 || y.c0`.
    pub open spec fn host_encoding(self) -> Seq<u8> {
        self.x.1@ + self.x.0@ + self.y.1@ + self.y.0@
    }

    pub open spec fn is_canonical(self) -> bool {
        &&& is_canonical_fp(self.x.0@)
        &&& is_canonical_fp(self.x.1@)
        &&& is_canonical_fp(self.y.0@)
        &&& is_canonical_fp(self.y.1@)
    }

    pub fn to_bytes(&self) -> (r: [u8; 128])
        ensures
            r@ == self.encoding(),
    {
        let x = concat32(&self.x.0, &self.x.1);
        let y = concat32(&self.y.0, &self.y.1);
        let r = concat64(&x, &y);
        assert(r@ =~= self.encoding());
        r
    }

    pub fn to_host_bytes(&self) -> (r: [u8; 128])
        ensures
            r@ == self.host_encoding(),
    {
        let x = concat32(&self.x.1, &self.x.0);
        let y = concat32(&self.y.1, &self.y.0);
        let r = concat64(&x, &y);
        assert(r@ =~= self.host_encoding());
        r
    }

    /// Reads `x.c0 || x.c1 || y.c0 || y.c1`; refuses a coordinate that is not below p.
    pub fn from_bytes(b: &[u8; 128]) -> (r: Result<G2Point, DecodeError>)
        ensures
            r is Ok <==> slots_canonical(b@),
            r matches Ok(p) ==> p.encoding() == b@ && p.is_canonical(),
    {
        let x0 = slot32(b, 0);
        let x1 = slot32(b, 32);
        let y0 = slot32(b, 64);
        let y1 = slot32(b, 96);
        if is_canonical(&x0) && is_canonical(&x1) && is_canonical(&y0) && is_canonical(&y1) {
            let p = G2Point { x: (x0, x1), y: (y0, y1) };
            assert(p.encoding() =~= b@);
            Ok(p)
        } else {
            Err(DecodeError::Malformed)
        }
    }
}

/// Encoding a canonical G1 point and decoding it again gives back the same
/// point: the encoding is accepted, and only that point has this encoding.
pub proof fn lemma_g1_round_trip(p: G1Point, q: G1Point)
    requires
        p.is_canonical(),
        q.encoding() == p.encoding(),
    ensures
        is_canonical_fp(p.encoding().subrange(0, 32)),
        is_canonical_fp(p.encoding().subrange(32, 64)),
        q == p,
{
    assert(p.encoding().subrange(0, 32) =~= p.x@);
    assert(p.encoding().subrange(32, 64) =~= p.y@);
    assert(q.encoding().subrange(0, 32) =~= q.x@);
    assert(q.encoding().subrange(32, 64) =~= q.y@);
    assert(q.x =~= p.x);
    assert(q.y =~= p.y);
}

/// Encoding a canonical G2 point and decoding it again gives back the same
/// point: the encoding is accepted, and only that point has this encoding.
pub proof fn lemma_g2_round_trip(p: G2Point, q: G2Point)
    requires
        p.is_canonical(),
        q.encoding() == p.encoding(),
    ensures
        slots_canonical(p.encoding()),
        q == p,
{
    let e = p.encoding();
    let f = q.encoding();
    assert(e.subrange(0, 32) =~= p.x.0@);
    assert(e.subrange(32, 64) =~= p.x.1@);
    assert(e.subrange(64, 96) =~= p.y.0@);
    assert(e.subrange(96, 128) =~= p.y.1@);
    assert(f.subrange(0, 32) =~= q.x.0@);
    assert(f.subrange(32, 64) =~= q.x.1@);
    assert(f.subrange(64, 96) =~= q.y.0@);
    assert(f.subrange(96, 128) =~= q.y.1@);
    assert(q.x.0 =~= p.x.0);
    assert(q.x.1 =~= p.x.1);
    assert(q.y.0 =~= p.y.0);
    assert(q.y.1 =~= p.y.1);
}

} // verus!

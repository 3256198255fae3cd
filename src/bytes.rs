use vstd::prelude::*;

verus! {

/// Value of a byte string read as a big-endian unsigned integer.
pub open spec fn be_nat(s: Seq<u8>) -> nat
    decreases s.len(),
{
    if s.len() == 0 {
        0
    } else {
        be_nat(s.drop_last()) * 256 + s.last() as nat
    }
}

pub open spec fn pow256(n: nat) -> nat
    decreases n,
{
    if n == 0 {
        1
    } else {
        256 * pow256((n - 1) as nat)
    }
}

/// Big-endian bytes of the BN254 base-field modulus
/// p = 0x30644e72e131a029b85045b68181585d97816a916871ca8d3c208c16d87cfd47.
pub open spec fn fp_modulus_bytes() -> Seq<u8> {
    seq![
        0x30u8, 0x64u8, 0x4eu8, 0x72u8, 0xe1u8, 0x31u8, 0xa0u8, 0x29u8,
        0xb8u8, 0x50u8, 0x45u8, 0xb6u8, 0x81u8, 0x81u8, 0x58u8, 0x5du8,
        0x97u8, 0x81u8, 0x6au8, 0x91u8, 0x68u8, 0x71u8, 0xcau8, 0x8du8,
        0x3cu8, 0x20u8, 0x8cu8, 0x16u8, 0xd8u8, 0x7cu8, 0xfdu8, 0x47u8,
    ]
}

/// Big-endian bytes of the BN254 group order
/// r = 0x30644e72e131a029b85045b68181585d2833e84879b9709143e1f593f0000001.
pub open spec fn fr_modulus_bytes() -> Seq<u8> {
    seq![
        0x30u8, 0x64u8, 0x4eu8, 0x72u8, 0xe1u8, 0x31u8, 0xa0u8, 0x29u8,
        0xb8u8, 0x50u8, 0x45u8, 0xb6u8, 0x81u8, 0x81u8, 0x58u8, 0x5du8,
        0x28u8, 0x33u8, 0xe8u8, 0x48u8, 0x79u8, 0xb9u8, 0x70u8, 0x91u8,
        0x43u8, 0xe1u8, 0xf5u8, 0x93u8, 0xf0u8, 0x00u8, 0x00u8, 0x01u8,
    ]
}

/// The BN254 base-field modulus p.
pub open spec fn fp_modulus() -> nat {
    be_nat(fp_modulus_bytes())
}

/// A 32-byte string is the canonical encoding of an element of F_p.
pub open spec fn is_canonical_fp(b: Seq<u8>) -> bool {
    b.len() == 32 && be_nat(b) < fp_modulus()
}

pub proof fn lemma_be_nat_bound(s: Seq<u8>)
    ensures
        be_nat(s) < pow256(s.len()),
    decreases s.len(),
{
    if s.len() > 0 {
        let d = s.drop_last();
        lemma_be_nat_bound(d);
        let a = be_nat(d);
        let p = pow256(d.len());
        assert(a + 1 <= p);
        assert((a + 1) * 256 <= p * 256) by (nonlinear_arith)
            requires
                a + 1 <= p,
        ;
    }
}

/// Splitting a byte string at `k` splits its big-endian value accordingly.
pub proof fn lemma_be_nat_split(s: Seq<u8>, k: int)
    requires
        0 <= k <= s.len(),
    ensures
        be_nat(s) == be_nat(s.subrange(0, k)) * pow256((s.len() - k) as nat) + be_nat(
            s.subrange(k, s.len() as int),
        ),
    decreases s.len(),
{
    let n = s.len() as int;
    if k == n {
        assert(s.subrange(0, k) =~= s);
        assert(s.subrange(k, n).len() == 0);
        assert(be_nat(s.subrange(k, n)) == 0);
        assert(pow256(0) == 1);
        assert(be_nat(s.subrange(0, k)) == be_nat(s));
        assert(be_nat(s) * 1 == be_nat(s));
    } else {
        let d = s.drop_last();
        lemma_be_nat_split(d, k);
        assert(d.subrange(0, k) =~= s.subrange(0, k));
        let tail = s.subrange(k, n);
        assert(tail.drop_last() =~= d.subrange(k, n - 1));
        assert(tail.last() == s.last());
        assert(be_nat(tail) == be_nat(tail.drop_last()) * 256 + tail.last() as nat);
        assert(be_nat(s) == be_nat(d) * 256 + s.last() as nat);
        let h = be_nat(s.subrange(0, k));
        let pw = pow256((n - 1 - k) as nat);
        let t = be_nat(d.subrange(k, n - 1));
        assert(pow256((n - k) as nat) == 256 * pw);
        assert((h * pw + t) * 256 + s.last() as nat == h * (256 * pw) + (t * 256
            + s.last() as nat)) by (nonlinear_arith);
        assert(be_nat(d) == h * pw + t);
        assert(be_nat(tail) == t * 256 + s.last() as nat);
        assert(be_nat(s) == h * pow256((n - k) as nat) + be_nat(tail));
    }
}

/// Two equal-length strings that agree before `i` and differ at `i` compare
/// as their bytes at `i` do.
pub proof fn lemma_be_nat_first_difference(a: Seq<u8>, b: Seq<u8>, i: int)
    requires
        a.len() == b.len(),
        0 <= i < a.len(),
        a.subrange(0, i) == b.subrange(0, i),
        a[i] < b[i],
    ensures
        be_nat(a) < be_nat(b),
{
    let n = a.len() as int;
    lemma_be_nat_split(a, i + 1);
    lemma_be_nat_split(b, i + 1);
    let ah = a.subrange(0, i + 1);
    let bh = b.subrange(0, i + 1);
    assert(ah.drop_last() =~= a.subrange(0, i));
    assert(bh.drop_last() =~= b.subrange(0, i));
    assert(be_nat(ah) + 1 <= be_nat(bh));
    let pw = pow256((n - i - 1) as nat);
    let at = be_nat(a.subrange(i + 1, n));
    lemma_be_nat_bound(a.subrange(i + 1, n));
    let x = be_nat(ah);
    let y = be_nat(bh);
    let bt = be_nat(b.subrange(i + 1, n));
    assert(x * pw + at < y * pw + bt) by (nonlinear_arith)
        requires
            x + 1 <= y,
            at < pw,
    ;
}

/// Prepending a byte to a string adds it at the string's weight.
pub proof fn lemma_be_nat_prepend(s: Seq<u8>, i: int)
    requires
        1 <= i <= s.len(),
    ensures
        be_nat(s.subrange(i - 1, s.len() as int)) == s[i - 1] as nat * pow256(
            (s.len() - i) as nat,
        ) + be_nat(s.subrange(i, s.len() as int)),
{
    let t = s.subrange(i - 1, s.len() as int);
    lemma_be_nat_split(t, 1);
    let head = t.subrange(0, 1);
    assert(head.drop_last().len() == 0);
    assert(be_nat(head) == be_nat(head.drop_last()) * 256 + head.last() as nat);
    assert(be_nat(head) == s[i - 1] as nat);
    assert(t.subrange(1, t.len() as int) =~= s.subrange(i, s.len() as int));
}

/// A byte string has value zero exactly when all its bytes are zero.
pub proof fn lemma_be_nat_zero_iff(s: Seq<u8>)
    ensures
        (be_nat(s) == 0) <==> (forall|t: int| 0 <= t < s.len() ==> s[t] == 0),
    decreases s.len(),
{
    if s.len() > 0 {
        let d = s.drop_last();
        lemma_be_nat_zero_iff(d);
        if be_nat(s) == 0 {
            assert forall|t: int| 0 <= t < s.len() implies s[t] == 0 by {
                if t < d.len() {
                    assert(d[t] == s[t]);
                }
            }
        }
        if forall|t: int| 0 <= t < s.len() ==> s[t] == 0 {
            assert forall|t: int| 0 <= t < d.len() implies d[t] == 0 by {
                assert(d[t] == s[t]);
            }
        }
    }
}

/// The `len` big-endian bytes of `n` taken modulo 256^len.
pub open spec fn be_bytes(n: nat, len: nat) -> Seq<u8>
    decreases len,
{
    if len == 0 {
        Seq::empty()
    } else {
        be_bytes(n / 256, (len - 1) as nat).push((n % 256) as u8)
    }
}

/// Reading back the big-endian bytes of a string's value gives the string.
pub proof fn lemma_be_bytes_of_be_nat(s: Seq<u8>)
    ensures
        be_bytes(be_nat(s), s.len()) == s,
    decreases s.len(),
{
    if s.len() > 0 {
        let d = s.drop_last();
        lemma_be_bytes_of_be_nat(d);
        let v = be_nat(s);
        assert(v == be_nat(d) * 256 + s.last() as nat);
        assert(v / 256 == be_nat(d)) by (nonlinear_arith)
            requires
                v == be_nat(d) * 256 + s.last() as nat,
                s.last() < 256,
        ;
        assert(v % 256 == s.last() as nat) by (nonlinear_arith)
            requires
                v == be_nat(d) * 256 + s.last() as nat,
                s.last() < 256,
        ;
        assert(be_bytes(v, s.len()) =~= s);
    }
}

/// Tells whether 32 bytes are the canonical big-endian encoding of an element
/// of the BN254 base field, that is whether their value is below p.
pub fn is_canonical(b: &[u8; 32]) -> (r: bool)
    ensures
        r == is_canonical_fp(b@),
{
    let m: [u8; 32] = [
        0x30, 0x64, 0x4e, 0x72, 0xe1, 0x31, 0xa0, 0x29, 0xb8, 0x50, 0x45, 0xb6, 0x81, 0x81, 0x58,
        0x5d, 0x97, 0x81, 0x6a, 0x91, 0x68, 0x71, 0xca, 0x8d, 0x3c, 0x20, 0x8c, 0x16, 0xd8, 0x7c,
        0xfd, 0x47,
    ];
    assert(m@ =~= fp_modulus_bytes());
    let mut i: usize = 0;
    while i < 32
        invariant
            0 <= i <= 32,
            m@ == fp_modulus_bytes(),
            b@.subrange(0, i as int) == m@.subrange(0, i as int),
        decreases 32 - i,
    {
        if b[i] < m[i] {
            proof {
                lemma_be_nat_first_difference(b@, m@, i as int);
            }
            return true;
        }
        if b[i] > m[i] {
            proof {
                assert(m@.subrange(0, i as int) == b@.subrange(0, i as int));
                lemma_be_nat_first_difference(m@, b@, i as int);
            }
            return false;
        }
        assert(b@.subrange(0, i + 1) =~= b@.subrange(0, i as int).push(b@[i as int]));
        assert(m@.subrange(0, i + 1) =~= m@.subrange(0, i as int).push(m@[i as int]));
        i = i + 1;
    }
    assert(b@ =~= b@.subrange(0, 32));
    assert(m@ =~= m@.subrange(0, 32));
    false
}

} // verus!

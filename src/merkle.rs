//! An append-only Merkle accumulator over 32-byte member hashes.
use vstd::prelude::*;
use crate::curve::concat32;
use crate::host::{sha256, sha256_of};
use soroban_sdk::Env;

verus! {

/// Root of the empty tree: 32 zero bytes, which no non-empty tree has short of
/// a SHA-256 digest of zero.
pub open spec fn empty_root() -> Seq<u8> {
    Seq::new(32, |i: int| 0u8)
}

/// Bottom node of a member hash: the digest of the hash followed by 32 zero
/// bytes, which keeps leaves apart from inner nodes and from the members
/// themselves.
pub open spec fn leaf_node(h: Seq<u8>) -> Seq<u8> {
    sha256_of(h + empty_root())
}

pub open spec fn leaf_nodes(leaves: Seq<Seq<u8>>) -> Seq<Seq<u8>> {
    leaves.map_values(|h: Seq<u8>| leaf_node(h))
}

/// Root committing to the member hashes `leaves`, in order.
pub open spec fn merkle_root(leaves: Seq<Seq<u8>>) -> Seq<u8> {
    level_root(leaf_nodes(leaves))
}

/// Parent of two sibling nodes.
pub open spec fn hash_pair(left: Seq<u8>, right: Seq<u8>) -> Seq<u8> {
    sha256_of(left + right)
}

/// One level up: siblings are hashed pairwise, a last node without a sibling
/// is carried up unchanged.
pub open spec fn next_level(s: Seq<Seq<u8>>) -> Seq<Seq<u8>> {
    Seq::new(
        ((s.len() + 1) / 2) as nat,
        |i: int|
            if 2 * i + 1 < s.len() {
                hash_pair(s[2 * i], s[2 * i + 1])
            } else {
                s[2 * i]
            },
    )
}

/// Root of the tree whose bottom level of nodes is `s`.
pub open spec fn level_root(s: Seq<Seq<u8>>) -> Seq<u8>
    decreases s.len(),
{
    if s.len() == 0 {
        empty_root()
    } else if s.len() == 1 {
        s[0]
    } else {
        level_root(next_level(s))
    }
}

/// The leaves after registering `h`: appended unless already present.
pub open spec fn register_leaves(leaves: Seq<Seq<u8>>, h: Seq<u8>) -> Seq<Seq<u8>> {
    if leaves.contains(h) {
        leaves
    } else {
        leaves.push(h)
    }
}

/// The leaves after registering each of `hashes` in turn.
pub open spec fn register_all(hashes: Seq<Seq<u8>>) -> Seq<Seq<u8>>
    decreases hashes.len(),
{
    if hashes.len() == 0 {
        Seq::empty()
    } else {
        register_leaves(register_all(hashes.drop_last()), hashes.last())
    }
}

pub open spec fn leaf_view(v: Seq<[u8; 32]>) -> Seq<Seq<u8>> {
    v.map_values(|l: [u8; 32]| l@)
}

/// Whether two 32-byte values are equal.
pub fn eq32(a: &[u8; 32], b: &[u8; 32]) -> (r: bool)
    ensures
        r == (a@ == b@),
{
    let mut i: usize = 0;
    while i < 32
        invariant
            0 <= i <= 32,
            forall|j: int| 0 <= j < i ==> a@[j] == b@[j],
        decreases 32 - i,
    {
        if a[i] != b[i] {
            return false;
        }
        i = i + 1;
    }
    assert(a@ =~= b@);
    true
}

/// Computes the level above `level`.
fn hash_level(env: &Env, level: &Vec<[u8; 32]>) -> (r: Vec<[u8; 32]>)
    requires
        level@.len() >= 2,
    ensures
        leaf_view(r@) == next_level(leaf_view(level@)),
        1 <= r@.len() < level@.len(),
{
    let ghost s = leaf_view(level@);
    let n = level.len();
    let half = n / 2 + n % 2;
    assert(half == (n + 1) / 2);
    let mut out: Vec<[u8; 32]> = Vec::new();
    let mut i: usize = 0;
    while i < half
        invariant
            n == level@.len(),
            n >= 2,
            half == (n + 1) / 2,
            s == leaf_view(level@),
            0 <= i <= (n + 1) / 2,
            out@.len() == i,
            forall|j: int| 0 <= j < i ==> (#[trigger] out@[j])@ == next_level(s)[j],
        decreases (n + 1) / 2 - i,
    {
        if 2 * i + 1 < n {
            let both = concat32(&level[2 * i], &level[2 * i + 1]);
            let h = sha256(env, &both);
            out.push(h);
        } else {
            out.push(level[2 * i]);
        }
        i = i + 1;
    }
    assert(leaf_view(out@) =~= next_level(s));
    out
}

/// Root of the tree whose member hashes are `leaves`, in order.
fn compute_root(env: &Env, leaves: &Vec<[u8; 32]>) -> (r: [u8; 32])
    ensures
        r@ == merkle_root(leaf_view(leaves@)),
{
    if leaves.len() == 0 {
        let z = [0u8; 32];
        assert(z@ =~= empty_root());
        assert(leaf_nodes(leaf_view(leaves@)).len() == 0);
        return z;
    }
    let ghost nodes = leaf_nodes(leaf_view(leaves@));
    let zero = [0u8; 32];
    assert(zero@ =~= empty_root());
    let mut level: Vec<[u8; 32]> = Vec::new();
    let mut i: usize = 0;
    while i < leaves.len()
        invariant
            0 <= i <= leaves@.len(),
            zero@ == empty_root(),
            nodes == leaf_nodes(leaf_view(leaves@)),
            level@.len() == i,
            forall|j: int| 0 <= j < i ==> (#[trigger] level@[j])@ == nodes[j],
        decreases leaves@.len() - i,
    {
        let node = sha256(env, &concat32(&leaves[i], &zero));
        level.push(node);
        i = i + 1;
    }
    assert(leaf_view(level@) =~= nodes);
    while level.len() > 1
        invariant
            level@.len() >= 1,
            level_root(leaf_view(level@)) == merkle_root(leaf_view(leaves@)),
        decreases level@.len(),
    {
        level = hash_level(env, &level);
    }
    level[0]
}

/// A set of registered member hashes, kept in insertion order, with the root
/// that commits to them.
pub struct MerkleAccumulator {
    leaves: Vec<[u8; 32]>,
    root: [u8; 32],
}

impl MerkleAccumulator {
    /// The registered hashes, in insertion order.
    pub closed spec fn leaves(&self) -> Seq<Seq<u8>> {
        leaf_view(self.leaves@)
    }

    /// The committed root.
    pub closed spec fn root(&self) -> Seq<u8> {
        self.root@
    }

    /// No hash is held twice, and the root is the root of the leaves.
    pub closed spec fn wf(&self) -> bool {
        &&& self.leaves().no_duplicates()
        &&& self.root@ == merkle_root(self.leaves())
    }

    pub fn new() -> (r: MerkleAccumulator)
        ensures
            r.wf(),
            r.leaves() == Seq::<Seq<u8>>::empty(),
            r.root() == empty_root(),
    {
        let r = MerkleAccumulator { leaves: Vec::new(), root: [0u8; 32] };
        assert(r.leaves() =~= Seq::<Seq<u8>>::empty());
        assert(r.root@ =~= empty_root());
        assert(leaf_nodes(r.leaves()).len() == 0);
        r
    }

    /// The accumulator after registering each of `hashes` in turn, with the
    /// root computed once at the end.
    pub fn from_hashes(env: &Env, hashes: &Vec<[u8; 32]>) -> (r: MerkleAccumulator)
        ensures
            r.wf(),
            r.leaves() == register_all(leaf_view(hashes@)),
            r.root() == merkle_root(r.leaves()),
    {
        let mut acc = MerkleAccumulator { leaves: Vec::new(), root: [0u8; 32] };
        let mut i: usize = 0;
        assert(acc.leaves() =~= register_all(leaf_view(hashes@).subrange(0, 0)));
        while i < hashes.len()
            invariant
                0 <= i <= hashes@.len(),
                acc.leaves().no_duplicates(),
                acc.leaves() == register_all(leaf_view(hashes@).subrange(0, i as int)),
            decreases hashes@.len() - i,
        {
            let ghost before = acc.leaves();
            let h = hashes[i];
            let mut present = false;
            let mut j: usize = 0;
            while j < acc.leaves.len()
                invariant
                    0 <= j <= acc.leaves@.len(),
                    present == exists|t: int| 0 <= t < j && acc.leaves@[t]@ == h@,
                decreases acc.leaves@.len() - j,
            {
                if eq32(&acc.leaves[j], &h) {
                    present = true;
                }
                j = j + 1;
            }
            assert(present == before.contains(h@)) by {
                if before.contains(h@) {
                    let t = choose|t: int| 0 <= t < before.len() && before[t] == h@;
                    assert(acc.leaves@[t]@ == h@);
                }
                if present {
                    let t = choose|t: int| 0 <= t < acc.leaves@.len() && acc.leaves@[t]@ == h@;
                    assert(before[t] == h@);
                }
            }
            if !present {
                acc.leaves.push(h);
                assert(acc.leaves() =~= before.push(h@));
            }
            let ghost pre = leaf_view(hashes@).subrange(0, i + 1);
            assert(pre.drop_last() =~= leaf_view(hashes@).subrange(0, i as int));
            assert(pre.last() == h@);
            i = i + 1;
        }
        assert(leaf_view(hashes@).subrange(0, hashes@.len() as int) =~= leaf_view(hashes@));
        acc.root = compute_root(env, &acc.leaves);
        acc
    }

    /// Whether `h` has been registered.
    pub fn contains(&self, h: &[u8; 32]) -> (r: bool)
        requires
            self.wf(),
        ensures
            r == self.leaves().contains(h@),
    {
        let mut i: usize = 0;
        while i < self.leaves.len()
            invariant
                0 <= i <= self.leaves@.len(),
                forall|j: int| 0 <= j < i ==> self.leaves@[j]@ != h@,
            decreases self.leaves@.len() - i,
        {
            if eq32(&self.leaves[i], h) {
                assert(self.leaves()[i as int] == h@);
                return true;
            }
            i = i + 1;
        }
        assert(!self.leaves().contains(h@)) by {
            if self.leaves().contains(h@) {
                let k = choose|k: int| 0 <= k < self.leaves().len() && self.leaves()[k] == h@;
                assert(self.leaves@[k]@ == h@);
            }
        }
        false
    }

    /// The latest committed root.
    pub fn current_root(&self) -> (r: [u8; 32])
        requires
            self.wf(),
        ensures
            r@ == self.root(),
            r@ == merkle_root(self.leaves()),
    {
        self.root
    }

    /// Adds `h` as the last leaf unless it is already present, recomputes the
    /// root and returns it.
    pub fn register(&mut self, env: &Env, h: &[u8; 32]) -> (r: [u8; 32])
        requires
            old(self).wf(),
        ensures
            final(self).wf(),
            final(self).leaves() == register_leaves(old(self).leaves(), h@),
            final(self).root() == merkle_root(final(self).leaves()),
            r@ == final(self).root(),
            final(self).leaves().contains(h@),
    {
        if self.contains(h) {
            return self.root;
        }
        let ghost before = self.leaves();
        self.leaves.push(*h);
        assert(self.leaves() =~= before.push(h@));
        assert(self.leaves()[before.len() as int] == h@);
        self.root = compute_root(env, &self.leaves);
        self.root
    }
}

/// Registering the same hash twice leaves the same leaves, and so the same
/// root, as registering it once.
pub proof fn lemma_register_idempotent(leaves: Seq<Seq<u8>>, h: Seq<u8>)
    ensures
        register_leaves(register_leaves(leaves, h), h) == register_leaves(leaves, h),
        merkle_root(register_leaves(register_leaves(leaves, h), h)) == merkle_root(
            register_leaves(leaves, h),
        ),
{
    let once = register_leaves(leaves, h);
    if !leaves.contains(h) {
        assert(once[leaves.len() as int] == h);
        assert(once.contains(h));
    }
}

/// After registering `h1` and then `h2`, both are members.
pub proof fn lemma_register_both_members(leaves: Seq<Seq<u8>>, h1: Seq<u8>, h2: Seq<u8>)
    ensures
        register_leaves(register_leaves(leaves, h1), h2).contains(h1),
        register_leaves(register_leaves(leaves, h1), h2).contains(h2),
{
    let one = register_leaves(leaves, h1);
    let two = register_leaves(one, h2);
    if !leaves.contains(h1) {
        assert(one[leaves.len() as int] == h1);
    }
    assert(one.contains(h1));
    if !one.contains(h2) {
        assert(two[one.len() as int] == h2);
        let k = choose|k: int| 0 <= k < one.len() && one[k] == h1;
        assert(two[k] == h1);
    }
}

} // verus!

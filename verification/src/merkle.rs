//! Binary Merkle tree over transaction hashes: root computation, proof
//! generation and proof verification.

use vstd::prelude::*;
use crate::crypto::{hash_sha256, spec_sha256};

verus! {

/// The views of a sequence of hashes.
pub open spec fn hashes_view(hs: Seq<crate::crypto::Hash>) -> Seq<Seq<u8>> {
    hs.map_values(|h: crate::crypto::Hash| h@)
}

/// The 32-byte zero hash.
pub open spec fn zero_hash() -> Seq<u8> {
    Seq::new(32, |i: int| 0u8)
}

/// Parent node of two children: SHA-256 of their concatenation.
pub open spec fn spec_hash_pair(left: Seq<u8>, right: Seq<u8>) -> Seq<u8> {
    spec_sha256(left + right)
}

/// A level with an odd number of nodes gets its last node duplicated.
pub open spec fn spec_pad(level: Seq<Seq<u8>>) -> Seq<Seq<u8>> {
    if level.len() % 2 != 0 {
        level.push(level.last())
    } else {
        level
    }
}

/// The level above `level`: pairwise parents of the padded level.
pub open spec fn spec_next_level(level: Seq<Seq<u8>>) -> Seq<Seq<u8>> {
    let p = spec_pad(level);
    Seq::new(p.len() / 2, |i: int| spec_hash_pair(p[2 * i], p[2 * i + 1]))
}

/// The root reached from a non-empty level by repeatedly taking the level
/// above until one node is left.
pub open spec fn spec_root_of_level(level: Seq<Seq<u8>>) -> Seq<u8>
    decreases level.len(),
{
    if level.len() <= 1 {
        level[0]
    } else {
        spec_root_of_level(spec_next_level(level))
    }
}

/// The Merkle root of a list of hashes; the zero hash for an empty list.
pub open spec fn spec_merkle_root(hashes: Seq<Seq<u8>>) -> Seq<u8> {
    if hashes.len() == 0 {
        zero_hash()
    } else {
        spec_root_of_level(hashes)
    }
}

/// The proof path of the node at `idx`: at each level the sibling hash and
/// whether that sibling is on the left.
pub open spec fn spec_proof_path(level: Seq<Seq<u8>>, idx: int) -> Seq<(Seq<u8>, bool)>
    decreases level.len(),
{
    if level.len() <= 1 {
        Seq::empty()
    } else {
        let p = spec_pad(level);
        let sibling = if idx % 2 == 0 { p[idx + 1] } else { p[idx - 1] };
        seq![(sibling, idx % 2 != 0)] + spec_proof_path(spec_next_level(level), idx / 2)
    }
}

/// The proof for `index` within `hashes`; empty when out of range.
pub open spec fn spec_merkle_proof(hashes: Seq<Seq<u8>>, index: int) -> Seq<(Seq<u8>, bool)> {
    if hashes.len() == 0 || index < 0 || index >= hashes.len() {
        Seq::empty()
    } else {
        spec_proof_path(hashes, index)
    }
}

/// Folding a proof onto a leaf: each node is hashed on its side of the
/// running value.
pub open spec fn spec_fold_proof(leaf: Seq<u8>, proof: Seq<(Seq<u8>, bool)>) -> Seq<u8>
    decreases proof.len(),
{
    if proof.len() == 0 {
        leaf
    } else {
        let node = proof[0];
        let next = if node.1 {
            spec_hash_pair(node.0, leaf)
        } else {
            spec_hash_pair(leaf, node.0)
        };
        spec_fold_proof(next, proof.drop_first())
    }
}

/// A single node in a Merkle proof.
#[derive(Debug, Clone, Copy)]
pub struct MerkleProofNode {
    pub hash: crate::crypto::Hash,
    pub is_left: bool,
}

impl View for MerkleProofNode {
    type V = (Seq<u8>, bool);

    open spec fn view(&self) -> (Seq<u8>, bool) {
        (self.hash@, self.is_left)
    }
}

/// The views of a proof.
pub open spec fn proof_view(p: Seq<MerkleProofNode>) -> Seq<(Seq<u8>, bool)> {
    p.map_values(|n: MerkleProofNode| n@)
}

proof fn lemma_next_level_len(level: Seq<Seq<u8>>)
    requires
        level.len() >= 2,
    ensures
        spec_next_level(level).len() < level.len(),
        spec_next_level(level).len() >= 1,
        spec_pad(level).len() == 2 * spec_next_level(level).len(),
{
}

/// Folding the path of a node onto that node gives the root of its level.
proof fn lemma_path_reaches_root(level: Seq<Seq<u8>>, idx: int)
    requires
        0 <= idx < level.len(),
    ensures
        spec_fold_proof(level[idx], spec_proof_path(level, idx)) == spec_root_of_level(level),
    decreases level.len(),
{
    if level.len() > 1 {
        lemma_next_level_len(level);
        let p = spec_pad(level);
        let next = spec_next_level(level);
        let path = spec_proof_path(level, idx);
        let rest = spec_proof_path(next, idx / 2);
        assert(path.drop_first() =~= rest);
        assert(p[idx] == level[idx]);
        let combined = if path[0].1 {
            spec_hash_pair(path[0].0, level[idx])
        } else {
            spec_hash_pair(level[idx], path[0].0)
        };
        assert(combined == next[idx / 2]);
        lemma_path_reaches_root(next, idx / 2);
    }
}

/// Law: the proof generated for any element of a non-empty list, folded onto
/// that element, gives the Merkle root of the list.
pub proof fn lemma_merkle_proof_roundtrip(hashes: Seq<Seq<u8>>, index: int)
    requires
        0 <= index < hashes.len(),
    ensures
        spec_fold_proof(hashes[index], spec_merkle_proof(hashes, index)) == spec_merkle_root(hashes),
{
    lemma_path_reaches_root(hashes, index);
}

/// The number of levels above `n` leaves: none for one leaf, else one more
/// than above the `n / 2` (rounded up) parents.
pub open spec fn tree_height(n: nat) -> nat
    decreases n,
{
    if n <= 1 {
        0
    } else {
        1 + tree_height(((n + 1) / 2) as nat)
    }
}

proof fn lemma_path_len(level: Seq<Seq<u8>>, idx: int)
    ensures
        spec_proof_path(level, idx).len() == tree_height(level.len()),
    decreases level.len(),
{
    if level.len() > 1 {
        lemma_next_level_len(level);
        lemma_path_len(spec_next_level(level), idx / 2);
        assert(spec_next_level(level).len() == (level.len() + 1) / 2);
    }
}

/// Law: a proof for a leaf has one node per level of the tree: `tree_height`
/// of the number of leaves (the base-2 logarithm rounded up).
pub proof fn lemma_merkle_proof_len(hashes: Seq<Seq<u8>>, index: int)
    requires
        0 <= index < hashes.len(),
    ensures
        spec_merkle_proof(hashes, index).len() == tree_height(hashes.len()),
{
    lemma_path_len(hashes, index);
}

/// Law: `tree_height(n)` is the base-2 logarithm of `n` rounded up: the
/// least `h` with `2^h >= n`.
pub proof fn lemma_tree_height_is_log2(n: nat)
    requires
        n >= 1,
    ensures
        vstd::arithmetic::power2::pow2(tree_height(n)) >= n,
        tree_height(n) > 0 ==> vstd::arithmetic::power2::pow2((tree_height(n) - 1) as nat) < n,
    decreases n,
{
    if n == 1 {
        vstd::arithmetic::power2::lemma_pow2_pos(0);
    } else {
        let m = ((n + 1) / 2) as nat;
        lemma_tree_height_is_log2(m);
        let h = tree_height(m);
        assert(tree_height(n) == h + 1);
        vstd::arithmetic::power2::lemma_pow2_unfold(h + 1);
        assert(vstd::arithmetic::power2::pow2(h + 1) == 2 * vstd::arithmetic::power2::pow2(h));
        if h > 0 {
            vstd::arithmetic::power2::lemma_pow2_unfold(h);
        } else {
            vstd::arithmetic::power2::lemma_pow2_pos(0);
            assert(vstd::arithmetic::power2::pow2(0) == 1) by {
                vstd::arithmetic::power2::lemma2_to64();
            }
        }
    }
}

/// Combine two child nodes into their parent node.
pub fn hash_pair(left: &crate::crypto::Hash, right: &crate::crypto::Hash) -> (h: crate::crypto::Hash)
    ensures
        h@ == spec_hash_pair(left@, right@),
{
    let mut combined: Vec<u8> = Vec::with_capacity(64);
    combined.extend_from_slice(left);
    combined.extend_from_slice(right);
    assert(combined@ =~= left@ + right@);
    hash_sha256(&combined)
}

/// Byte-wise equality of two hashes.
pub fn hash_eq(a: &crate::crypto::Hash, b: &crate::crypto::Hash) -> (r: bool)
    ensures
        r == (a@ == b@),
{
    let mut i: usize = 0;
    while i < 32
        invariant
            i <= 32,
            forall|j: int| 0 <= j < i ==> a@[j] == b@[j],
        decreases 32 - i,
    {
        if a[i] != b[i] {
            return false;
        }
        i += 1;
    }
    assert(a@ =~= b@);
    true
}

/// Pad the level and compute the level above it.
fn next_level(level: &mut Vec<crate::crypto::Hash>) -> (next: Vec<crate::crypto::Hash>)
    requires
        old(level).len() >= 2,
    ensures
        hashes_view(final(level)@) == spec_pad(hashes_view(old(level)@)),
        hashes_view(next@) == spec_next_level(hashes_view(old(level)@)),
{
    let ghost lv = hashes_view(level@);
    if level.len() % 2 != 0 {
        let last = level[level.len() - 1];
        level.push(last);
    }
    assert(hashes_view(level@) =~= spec_pad(lv));
    let half = level.len() / 2;
    let mut next: Vec<crate::crypto::Hash> = Vec::with_capacity(half);
    let mut i: usize = 0;
    while i < half
        invariant
            half == level.len() / 2,
            i <= half,
            hashes_view(level@) == spec_pad(lv),
            hashes_view(next@) =~= spec_next_level(lv).take(i as int),
        decreases half - i,
    {
        let ghost nv = hashes_view(next@);
        let h = hash_pair(&level[2 * i], &level[2 * i + 1]);
        proof {
            assert(hashes_view(level@)[2 * i as int] == level@[2 * i as int]@);
            assert(hashes_view(level@)[2 * i + 1] == level@[2 * i + 1]@);
        }
        next.push(h);
        assert(hashes_view(next@) =~= nv.push(h@));
        i += 1;
    }
    assert(spec_next_level(lv).take(half as int) =~= spec_next_level(lv));
    next
}

/// Compute the Merkle root of a list of transaction hashes.
///
/// A level with an odd number of nodes has its last node duplicated; an
/// empty list gives the zero hash.
pub fn compute_merkle_root(hashes: &[crate::crypto::Hash]) -> (root: crate::crypto::Hash)
    ensures
        root@ == spec_merkle_root(hashes_view(hashes@)),
{
    if hashes.len() == 0 {
        let z = [0u8; 32];
        assert(z@ =~= zero_hash());
        return z;
    }
    if hashes.len() == 1 {
        return hashes[0];
    }
    let mut current: Vec<crate::crypto::Hash> = vstd::slice::slice_to_vec(hashes);
    assert(current@ == hashes@);
    while current.len() > 1
        invariant
            current.len() >= 1,
            spec_root_of_level(hashes_view(current@)) == spec_root_of_level(hashes_view(hashes@)),
        decreases current.len(),
    {
        let ghost before = hashes_view(current@);
        proof { lemma_next_level_len(before); }
        let next = next_level(&mut current);
        current = next;
    }
    current[0]
}

/// Generate a Merkle proof for the element at `index` within `hashes`.
pub fn generate_proof(hashes: &[crate::crypto::Hash], index: usize) -> (proof: Vec<MerkleProofNode>)
    ensures
        proof_view(proof@) == spec_merkle_proof(hashes_view(hashes@), index as int),
{
    if hashes.len() == 0 || index >= hashes.len() {
        let empty: Vec<MerkleProofNode> = Vec::new();
        assert(proof_view(empty@) =~= Seq::<(Seq<u8>, bool)>::empty());
        return empty;
    }
    let ghost full = hashes_view(hashes@);
    let mut proof: Vec<MerkleProofNode> = Vec::new();
    let mut current: Vec<crate::crypto::Hash> = vstd::slice::slice_to_vec(hashes);
    assert(current@ == hashes@);
    let mut idx: usize = index;
    while current.len() > 1
        invariant
            current.len() >= 1,
            idx < current.len(),
            proof_view(proof@) + spec_proof_path(hashes_view(current@), idx as int)
                =~= spec_proof_path(full, index as int),
        decreases current.len(),
    {
        let ghost before = hashes_view(current@);
        let ghost pbefore = proof_view(proof@);
        proof { lemma_next_level_len(before); }
        let next = next_level(&mut current);
        let sibling_idx = if idx % 2 == 0 { idx + 1 } else { idx - 1 };
        let node = MerkleProofNode { hash: current[sibling_idx], is_left: idx % 2 != 0 };
        proof.push(node);
        assert(proof_view(proof@) =~= pbefore.push(node@));
        assert(spec_proof_path(before, idx as int) =~= seq![node@] + spec_proof_path(
            spec_next_level(before),
            (idx / 2) as int,
        ));
        current = next;
        idx = idx / 2;
    }
    proof
}

/// Verify that `leaf_hash` is part of the tree with the given `root`.
pub fn verify_proof(root: &crate::crypto::Hash, leaf_hash: &crate::crypto::Hash, proof: &[MerkleProofNode]) -> (ok: bool)
    ensures
        ok == (spec_fold_proof(leaf_hash@, proof_view(proof@)) == root@),
{
    let mut current: crate::crypto::Hash = *leaf_hash;
    let mut i: usize = 0;
    assert(proof_view(proof@).skip(0) =~= proof_view(proof@));
    while i < proof.len()
        invariant
            i <= proof.len(),
            spec_fold_proof(current@, proof_view(proof@).skip(i as int))
                == spec_fold_proof(leaf_hash@, proof_view(proof@)),
        decreases proof.len() - i,
    {
        let ghost rest = proof_view(proof@).skip(i as int);
        assert(rest.drop_first() =~= proof_view(proof@).skip(i + 1));
        let node = &proof[i];
        current = if node.is_left {
            hash_pair(&node.hash, &current)
        } else {
            hash_pair(&current, &node.hash)
        };
        i += 1;
    }
    assert(proof_view(proof@).skip(proof.len() as int) =~= Seq::<(Seq<u8>, bool)>::empty());
    assert(proof_view(proof@).skip(0) =~= proof_view(proof@));
    hash_eq(&current, root)
}

} // verus!

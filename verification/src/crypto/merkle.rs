//! Fixed-depth Poseidon Merkle tree over registration leaves; empty slots
//! are padded with 0. `lemma_path_roundtrip` proves that every leaf's path
//! recomputes the root.

use vstd::arithmetic::power2::pow2;
use vstd::prelude::*;

use crate::crypto::hash::{merkle_hash, spec_merkle_hash, vals};
use crate::errors::{msg, CrDrError, Result};
use crate::field::Fe;

verus! {

broadcast use vstd::arithmetic::power2::lemma_pow2_pos;

/// A Merkle authentication path.
#[derive(Debug, Clone, PartialEq, Eq)]
pub struct MerklePath {
    /// Sibling hashes, leaf level first.
    pub elements: Vec<Fe>,
    /// Direction bits, leaf level first: true = the current node is the
    /// right child.
    pub indices: Vec<bool>,
}

/// The leaves padded with zeros up to `cap`.
pub open spec fn spec_padded(leaves: Seq<nat>, cap: nat) -> Seq<nat> {
    leaves + Seq::new((cap - leaves.len()) as nat, |i: int| 0nat)
}

/// The parent level of `s`: pairwise Merkle hashes.
pub open spec fn spec_next_level(s: Seq<nat>) -> Seq<nat> {
    Seq::new(s.len() / 2, |k: int| spec_merkle_hash(s[2 * k], s[2 * k + 1]))
}

/// Level d of the tree over `base` (level 0 = base).
pub open spec fn spec_level(base: Seq<nat>, d: nat) -> Seq<nat>
    decreases d,
{
    if d == 0 {
        base
    } else {
        spec_next_level(spec_level(base, (d - 1) as nat))
    }
}

/// The root of the depth-`depth` tree over `base`.
pub open spec fn spec_root(base: Seq<nat>, depth: nat) -> nat {
    spec_level(base, depth)[0]
}

/// The index of a node's sibling.
pub open spec fn spec_sibling(i: nat) -> nat {
    if i % 2 == 0 {
        i + 1
    } else {
        (i - 1) as nat
    }
}

/// The sibling hashes of leaf `index`, leaf level first.
pub open spec fn spec_path_elements(base: Seq<nat>, depth: nat, index: nat) -> Seq<nat> {
    Seq::new(depth, |d: int| spec_level(base, d as nat)[spec_sibling(index / pow2(d as nat)) as int])
}

/// The direction bits of leaf `index`: the bits of the index.
pub open spec fn spec_path_indices(depth: nat, index: nat) -> Seq<bool> {
    Seq::new(depth, |d: int| (index / pow2(d as nat)) % 2 == 1)
}

/// One step up: hash the current node with its sibling on the right side.
pub open spec fn spec_step(cur: nat, sib: nat, is_right: bool) -> nat {
    if is_right {
        spec_merkle_hash(sib, cur)
    } else {
        spec_merkle_hash(cur, sib)
    }
}

/// Recompute a root from a leaf and a path.
pub open spec fn spec_fold(cur: nat, elements: Seq<nat>, indices: Seq<bool>) -> nat
    decreases elements.len(),
{
    if elements.len() == 0 || indices.len() == 0 {
        cur
    } else {
        spec_fold(
            spec_step(cur, elements[0], indices[0]),
            elements.drop_first(),
            indices.drop_first(),
        )
    }
}

/// Whether the path authenticates the leaf against the root.
pub open spec fn spec_verify_path(root: nat, leaf: nat, elements: Seq<nat>, indices: Seq<bool>) -> bool {
    elements.len() == indices.len() && spec_fold(leaf, elements, indices) == root
}

/// Level d of a 2^depth-leaf tree has 2^(depth-d) nodes.
proof fn lemma_level_len(base: Seq<nat>, depth: nat, d: nat)
    requires
        base.len() == pow2(depth),
        d <= depth,
    ensures
        spec_level(base, d).len() == pow2((depth - d) as nat),
    decreases d,
{
    if d > 0 {
        lemma_level_len(base, depth, (d - 1) as nat);
        vstd::arithmetic::power2::lemma_pow2_unfold((depth - d + 1) as nat);
    }
}

/// Shifting a leaf index up k levels: it stays below the level's width, and
/// one more level halves it.
proof fn lemma_index_at_level(index: nat, depth: nat, k: nat)
    requires
        index < pow2(depth),
        k <= depth,
    ensures
        index / pow2(k) < pow2((depth - k) as nat),
        (index / pow2(k)) / 2 == index / pow2(k + 1),
        index / pow2(0) == index,
        pow2(0) == 1,
{
    vstd::arithmetic::power2::lemma_pow2_adds(k, (depth - k) as nat);
    assert(k + (depth - k) as nat == depth);
    vstd::arithmetic::div_mod::lemma_multiply_divide_lt(
        index as int,
        pow2(k) as int,
        pow2((depth - k) as nat) as int,
    );
    vstd::arithmetic::div_mod::lemma_div_denominator(index as int, pow2(k) as int, 2);
    vstd::arithmetic::power2::lemma_pow2_unfold(k + 1);
    vstd::arithmetic::mul::lemma_mul_is_commutative(pow2(k) as int, 2);
    vstd::arithmetic::power2::lemma2_to64();
}

/// From level k upward, folding the node at index / 2^k with the rest of
/// the path gives the root.
proof fn lemma_fold_from_level(base: Seq<nat>, depth: nat, index: nat, k: nat)
    requires
        base.len() == pow2(depth),
        index < pow2(depth),
        k <= depth,
    ensures
        spec_fold(
            spec_level(base, k)[(index / pow2(k)) as int],
            spec_path_elements(base, depth, index).subrange(k as int, depth as int),
            spec_path_indices(depth, index).subrange(k as int, depth as int),
        ) == spec_root(base, depth),
    decreases depth - k,
{
    let els = spec_path_elements(base, depth, index).subrange(k as int, depth as int);
    let idx = spec_path_indices(depth, index).subrange(k as int, depth as int);
    if k == depth {
        lemma_index_at_level(index, depth, k);
        assert(index / pow2(k) == 0);
        assert(els.len() == 0);
    } else {
        let i = index / pow2(k);
        lemma_level_len(base, depth, k);
        lemma_level_len(base, depth, k + 1);
        lemma_index_at_level(index, depth, k);
        vstd::arithmetic::power2::lemma_pow2_unfold((depth - k) as nat);
        let lv = spec_level(base, k);
        let cur = lv[i as int];
        let sib = lv[spec_sibling(i) as int];
        let next = spec_level(base, k + 1);
        assert(next == spec_next_level(lv));
        assert(spec_step(cur, sib, i % 2 == 1) == next[(i / 2) as int]);
        assert(els[0] == sib);
        assert(idx[0] == (i % 2 == 1));
        lemma_fold_from_level(base, depth, index, k + 1);
        assert(els.drop_first() =~= spec_path_elements(base, depth, index).subrange(
            (k + 1) as int,
            depth as int,
        ));
        assert(idx.drop_first() =~= spec_path_indices(depth, index).subrange((k + 1) as int, depth as int));
    }
}

/// Membership round trip: the path of every leaf slot of a 2^depth-leaf
/// tree authenticates that slot's leaf against the root.
pub proof fn lemma_path_roundtrip(base: Seq<nat>, depth: nat, index: nat)
    requires
        base.len() == pow2(depth),
        index < pow2(depth),
    ensures
        spec_verify_path(
            spec_root(base, depth),
            base[index as int],
            spec_path_elements(base, depth, index),
            spec_path_indices(depth, index),
        ),
{
    lemma_fold_from_level(base, depth, index, 0);
    assert(spec_path_elements(base, depth, index).subrange(0, depth as int) =~= spec_path_elements(
        base,
        depth,
        index,
    ));
    assert(spec_path_indices(depth, index).subrange(0, depth as int) =~= spec_path_indices(
        depth,
        index,
    ));
    lemma_index_at_level(index, depth, 0);
}

/// A fixed-depth Merkle tree: levels[0] = padded leaves, levels[depth] = [root].
#[derive(Debug)]
pub struct MerkleTree {
    depth: usize,
    levels: Vec<Vec<Fe>>,
}

impl MerkleTree {
    #[verifier::type_invariant]
    spec fn wf(self) -> bool {
        &&& self.depth < usize::BITS
        &&& self.levels@.len() == self.depth + 1
        &&& vals(self.levels@[0]@).len() == pow2(self.depth as nat)
        &&& forall|d: int|
            0 <= d <= self.depth ==> vals(#[trigger] self.levels@[d]@) == spec_level(
                vals(self.levels@[0]@),
                d as nat,
            )
    }

    /// The padded leaf values.
    pub closed spec fn spec_base(self) -> Seq<nat> {
        vals(self.levels@[0]@)
    }

    /// The depth the tree was built with.
    pub closed spec fn spec_depth(self) -> nat {
        self.depth as nat
    }

    /// The depth the tree was built with.
    pub fn depth(&self) -> (r: usize)
        ensures
            r == self.spec_depth(),
    {
        self.depth
    }

    /// Build the tree over `leaves`, padded with 0 to 2^depth slots. Fails
    /// when there are more leaves than slots.
    pub fn new(leaves: &[Fe], depth: usize) -> (r: Result<Self>)
        requires
            depth < usize::BITS,
        ensures
            r is Ok <==> leaves@.len() <= pow2(depth as nat),
            r matches Err(e) ==> e is Merkle,
            r matches Ok(t) ==> t.spec_depth() == depth && t.spec_base() == spec_padded(
                vals(leaves@),
                pow2(depth as nat),
            ),
    {
        let cap: usize = 1usize << depth;
        proof {
            vstd::bits::lemma_usize_pow2_no_overflow(depth as nat);
            vstd::bits::lemma_usize_shl_is_mul(1, depth);
        }
        if leaves.len() > cap {
            return Err(CrDrError::Merkle(msg("leaves exceed capacity")));
        }
        let mut level0: Vec<Fe> = Vec::new();
        let mut i: usize = 0;
        while i < cap
            invariant
                cap == pow2(depth as nat),
                leaves@.len() <= cap,
                i <= cap,
                level0@.len() == i,
                forall|m: int|
                    0 <= m < i ==> #[trigger] level0@[m]@ == spec_padded(vals(leaves@), cap as nat)[m],
            decreases cap - i,
        {
            if i < leaves.len() {
                level0.push(leaves[i]);
            } else {
                level0.push(Fe::zero());
            }
            i += 1;
        }
        let ghost base = vals(level0@);
        assert(base =~= spec_padded(vals(leaves@), cap as nat));
        let mut levels: Vec<Vec<Fe>> = vec![level0];
        let mut d: usize = 0;
        while d < depth
            invariant
                depth < usize::BITS,
                base.len() == pow2(depth as nat),
                d <= depth,
                levels@.len() == d + 1,
                vals(levels@[0]@) == base,
                forall|e: int| 0 <= e <= d ==> vals(#[trigger] levels@[e]@) == spec_level(base, e as nat),
            decreases depth - d,
        {
            proof {
                lemma_level_len(base, depth as nat, d as nat);
                vstd::arithmetic::power2::lemma_pow2_unfold((depth - d) as nat);
            }
            let prev = &levels[d];
            let mut next: Vec<Fe> = Vec::new();
            let half = prev.len() / 2;
            let mut k: usize = 0;
            while k < half
                invariant
                    half == prev@.len() / 2,
                    prev@.len() <= usize::MAX,
                    k <= half,
                    next@.len() == k,
                    forall|m: int|
                        0 <= m < k ==> #[trigger] next@[m]@ == spec_merkle_hash(
                            prev@[2 * m]@,
                            prev@[2 * m + 1]@,
                        ),
                decreases half - k,
            {
                next.push(merkle_hash(prev[2 * k], prev[2 * k + 1]));
                k += 1;
            }
            assert(vals(next@) =~= spec_next_level(vals(prev@)));
            levels.push(next);
            d += 1;
        }
        let t = MerkleTree { depth, levels };
        Ok(t)
    }

    /// The root.
    pub fn root(&self) -> (r: Fe)
        ensures
            r@ == spec_root(self.spec_base(), self.spec_depth()),
    {
        proof {
            use_type_invariant(self);
            lemma_level_len(self.spec_base(), self.depth as nat, self.depth as nat);
        }
        self.levels[self.depth][0]
    }

    /// The authentication path of leaf slot `index`; fails when the index is
    /// not a slot of the tree.
    pub fn path(&self, index: usize) -> (r: Result<MerklePath>)
        ensures
            r is Ok <==> index < pow2(self.spec_depth()),
            r matches Ok(path) ==> vals(path.elements@) == spec_path_elements(
                self.spec_base(),
                self.spec_depth(),
                index as nat,
            ) && path.indices@ == spec_path_indices(self.spec_depth(), index as nat),
    {
        proof {
            use_type_invariant(self);
        }
        if index >= self.levels[0].len() {
            return Err(CrDrError::Merkle(msg("leaf index out of range")));
        }
        let ghost base = self.spec_base();
        let mut elements: Vec<Fe> = Vec::new();
        let mut indices: Vec<bool> = Vec::new();
        let mut idx: usize = index;
        let mut d: usize = 0;
        proof {
            lemma_index_at_level(index as nat, self.depth as nat, 0);
        }
        while d < self.depth
            invariant
                self.depth < usize::BITS,
                self.levels@.len() == self.depth + 1,
                base == vals(self.levels@[0]@),
                base.len() == pow2(self.depth as nat),
                forall|e: int|
                    0 <= e <= self.depth ==> vals(#[trigger] self.levels@[e]@) == spec_level(
                        base,
                        e as nat,
                    ),
                index < pow2(self.depth as nat),
                d <= self.depth,
                idx == (index as nat) / pow2(d as nat),
                elements@.len() == d,
                indices@.len() == d,
                forall|e: int|
                    0 <= e < d ==> #[trigger] elements@[e]@ == spec_path_elements(
                        base,
                        self.depth as nat,
                        index as nat,
                    )[e],
                forall|e: int|
                    0 <= e < d ==> #[trigger] indices@[e] == spec_path_indices(
                        self.depth as nat,
                        index as nat,
                    )[e],
            decreases self.depth - d,
        {
            proof {
                lemma_level_len(base, self.depth as nat, d as nat);
                lemma_index_at_level(index as nat, self.depth as nat, d as nat);
            }
            let sibling = idx ^ 1;
            let is_right = idx & 1 == 1;
            assert(sibling == spec_sibling(idx as nat)) by {
                assert(idx % 2 == 0 ==> idx ^ 1 == idx + 1) by (bit_vector);
                assert(idx % 2 == 1 ==> idx ^ 1 == idx - 1) by (bit_vector);
            }
            assert(is_right == (idx % 2 == 1)) by {
                assert((idx & 1 == 1) == (idx % 2 == 1)) by (bit_vector);
            }
            proof {
                vstd::arithmetic::power2::lemma_pow2_unfold((self.depth - d) as nat);
                assert(vals(self.levels@[d as int]@) == spec_level(base, d as nat));
                assert(self.levels@[d as int]@.len() == pow2((self.depth - d) as nat));
            }
            elements.push(self.levels[d][sibling]);
            assert(elements@[d as int]@ == spec_path_elements(base, self.depth as nat, index as nat)[d as int]);
            indices.push(is_right);
            assert(idx >> 1 == idx / 2) by (bit_vector);
            idx = idx >> 1;
            d += 1;
        }
        assert(vals(elements@) =~= spec_path_elements(base, self.depth as nat, index as nat));
        assert(indices@ =~= spec_path_indices(self.depth as nat, index as nat));
        Ok(MerklePath { elements, indices })
    }
}

/// Recompute the root from a leaf and a path; true iff it matches `root`.
pub fn verify_path(root: Fe, leaf: Fe, path: &MerklePath) -> (r: bool)
    ensures
        r == spec_verify_path(root@, leaf@, vals(path.elements@), path.indices@),
{
    if path.elements.len() != path.indices.len() {
        return false;
    }
    let ghost els = vals(path.elements@);
    let ghost idx = path.indices@;
    let mut cur = leaf;
    let mut d: usize = 0;
    assert(els.subrange(0, els.len() as int) =~= els);
    assert(idx.subrange(0, idx.len() as int) =~= idx);
    while d < path.elements.len()
        invariant
            path.elements@.len() == path.indices@.len(),
            els == vals(path.elements@),
            idx == path.indices@,
            d <= els.len(),
            spec_fold(leaf@, els, idx) == spec_fold(
                cur@,
                els.subrange(d as int, els.len() as int),
                idx.subrange(d as int, idx.len() as int),
            ),
        decreases els.len() - d,
    {
        let sib = path.elements[d];
        let ghost before_e = els.subrange(d as int, els.len() as int);
        let ghost before_i = idx.subrange(d as int, idx.len() as int);
        cur = if path.indices[d] {
            merkle_hash(sib, cur)
        } else {
            merkle_hash(cur, sib)
        };
        assert(before_e.drop_first() =~= els.subrange(d + 1, els.len() as int));
        assert(before_i.drop_first() =~= idx.subrange(d + 1, idx.len() as int));
        d += 1;
    }
    proof {
        Fe::lemma_eq_iff_view_eq(cur, root);
    }
    cur == root
}

} // verus!

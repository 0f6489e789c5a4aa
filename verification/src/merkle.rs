//! Binary Merkle trees over 32-byte hashes, with inclusion proofs.

use crate::codec::{sha256, sha256_digest};
use vstd::prelude::*;

verus! {

/// The hash of an inner node: SHA-256 of the left child followed by the
/// right child.
pub open spec fn node_hash(left: Seq<u8>, right: Seq<u8>) -> Seq<u8> {
    sha256_digest(left + right)
}

/// The root of a tree without leaves: 32 zero bytes.
pub open spec fn zero_hash() -> Seq<u8> {
    Seq::new(32, |i: int| 0u8)
}

/// The level above `level`: nodes are paired left to right, and a last
/// node without a partner is paired with itself.
pub open spec fn parent_level(level: Seq<Seq<u8>>) -> Seq<Seq<u8>> {
    Seq::new(
        ((level.len() + 1) / 2) as nat,
        |i: int|
            node_hash(
                level[2 * i],
                if 2 * i + 1 < level.len() {
                    level[2 * i + 1]
                } else {
                    level[2 * i]
                },
            ),
    )
}

/// The root over a level: zero for no nodes, the node itself for one,
/// else the root over the level above.
pub open spec fn root_of(level: Seq<Seq<u8>>) -> Seq<u8>
    decreases level.len(),
{
    if level.len() == 0 {
        zero_hash()
    } else if level.len() == 1 {
        level[0]
    } else {
        root_of(parent_level(level))
    }
}

/// The partner of node `i` in its level, and whether the partner stands
/// on the right.
pub open spec fn sibling_of(level: Seq<Seq<u8>>, i: int) -> (Seq<u8>, bool) {
    if i % 2 == 0 {
        (
            if i + 1 < level.len() {
                level[i + 1]
            } else {
                level[i]
            },
            true,
        )
    } else {
        (level[i - 1], false)
    }
}

/// The inclusion proof of node `i`: its partners from the bottom level up.
pub open spec fn path_of(level: Seq<Seq<u8>>, i: int) -> Seq<(Seq<u8>, bool)>
    decreases level.len(),
{
    if level.len() <= 1 {
        Seq::empty()
    } else {
        seq![sibling_of(level, i)] + path_of(parent_level(level), i / 2)
    }
}

/// One step up: the hash of a node joined with its partner.
pub open spec fn step_hash(node: Seq<u8>, sibling: (Seq<u8>, bool)) -> Seq<u8> {
    if sibling.1 {
        node_hash(node, sibling.0)
    } else {
        node_hash(sibling.0, node)
    }
}

/// The hash reached from `node` by following `path` upward.
pub open spec fn climb(node: Seq<u8>, path: Seq<(Seq<u8>, bool)>) -> Seq<u8>
    decreases path.len(),
{
    if path.len() == 0 {
        node
    } else {
        climb(step_hash(node, path[0]), path.drop_first())
    }
}

/// The hashes of a vector of nodes, as byte sequences.
pub open spec fn hashes(nodes: Seq<[u8; 32]>) -> Seq<Seq<u8>> {
    Seq::new(nodes.len(), |i: int| nodes[i]@)
}

/// An executable proof as a mathematical path.
pub open spec fn path_view(path: Seq<([u8; 32], bool)>) -> Seq<(Seq<u8>, bool)> {
    Seq::new(path.len(), |i: int| (path[i].0@, path[i].1))
}

/// Level `k + 1` is the parent of level `k`, which has two or more nodes.
pub open spec fn linked(levels: Seq<Vec<[u8; 32]>>, k: int) -> bool {
    &&& levels[k]@.len() > 1
    &&& hashes(levels[k + 1]@) == parent_level(hashes(levels[k]@))
}

/// Every leaf's inclusion proof leads to the root: following the path of
/// node `i` upward from that node ends at the root over the level.
pub proof fn lemma_path_reaches_root(level: Seq<Seq<u8>>, i: int)
    requires
        0 <= i < level.len(),
    ensures
        climb(level[i], path_of(level, i)) == root_of(level),
    decreases level.len(),
{
    if level.len() > 1 {
        let above = parent_level(level);
        let rest = path_of(above, i / 2);
        let path = path_of(level, i);
        assert(path[0] == sibling_of(level, i));
        assert(path.drop_first() =~= rest);
        assert(step_hash(level[i], sibling_of(level, i)) == above[i / 2]);
        lemma_path_reaches_root(above, i / 2);
    }
}

/// The root is a function of the leaves in their order: equal leaf
/// sequences have equal roots and equal proofs.
pub proof fn lemma_root_is_function_of_leaves(a: MerkleTree, b: MerkleTree)
    requires
        a.wf(),
        b.wf(),
        a.leaves() == b.leaves(),
    ensures
        a.root_hash() == b.root_hash(),
        forall|i: int| path_of(a.leaves(), i) == path_of(b.leaves(), i),
{
}

/// Why a proof could not be produced.
#[derive(Clone, Copy, Debug, PartialEq, Eq, Structural)]
pub enum MerkleError {
    /// The index is not below the number of leaves.
    IndexOutOfRange,
    /// The tree has no leaves.
    Empty,
}

/// Whether two hashes are the same bytes.
pub fn hash_eq(a: &[u8; 32], b: &[u8; 32]) -> (same: bool)
    ensures
        same == (a@ == b@),
{
    let mut i: usize = 0;
    while i < 32
        invariant
            0 <= i <= 32,
            forall|j: int| 0 <= j < i ==> a@[j] == b@[j],
        decreases 32 - i,
    {
        if a[i] != b[i] {
            return false;
        }
        i = i + 1;
    }
    assert(a@ =~= b@);
    true
}

/// Hashes two children into their parent.
pub fn hash_pair(left: &[u8; 32], right: &[u8; 32]) -> (parent: [u8; 32])
    ensures
        parent@ == node_hash(left@, right@),
{
    let mut joined: Vec<u8> = Vec::with_capacity(64);
    joined.extend_from_slice(left.as_slice());
    joined.extend_from_slice(right.as_slice());
    assert(joined@ =~= left@ + right@);
    sha256(joined.as_slice())
}

/// A Merkle tree: the leaves and every level above them, up to the root.
#[derive(Debug, Clone)]
pub struct MerkleTree {
    levels: Vec<Vec<[u8; 32]>>,
}

impl MerkleTree {
    /// The leaves, in order.
    pub closed spec fn leaves(&self) -> Seq<Seq<u8>> {
        hashes(self.levels@[0]@)
    }

    /// The root over the leaves.
    pub open spec fn root_hash(&self) -> Seq<u8> {
        root_of(self.leaves())
    }

    /// Each level is the parent of the one below, and only the top level
    /// has fewer than two nodes.
    pub closed spec fn wf(&self) -> bool {
        &&& self.levels@.len() >= 1
        &&& forall|k: int| 0 <= k < self.levels@.len() - 1 ==> #[trigger] linked(self.levels@, k)
        &&& self.levels@[self.levels@.len() - 1]@.len() <= 1
    }

    /// Builds the tree over the given leaves.
    pub fn build(leaves: Vec<[u8; 32]>) -> (tree: MerkleTree)
        ensures
            tree.wf(),
            tree.leaves() == hashes(leaves@),
    {
        let ghost bottom = leaves@;
        let mut levels: Vec<Vec<[u8; 32]>> = Vec::new();
        levels.push(leaves);
        while levels[levels.len() - 1].len() > 1
            invariant
                levels@.len() >= 1,
                levels@[0]@ == bottom,
                forall|k: int| 0 <= k < levels@.len() - 1 ==> #[trigger] linked(levels@, k),
            decreases levels@[levels@.len() - 1]@.len(),
        {
            let top = levels.len() - 1;
            let above = Self::level_above(&levels[top]);
            let ghost before = levels@;
            levels.push(above);
            assert forall|k: int| 0 <= k < levels@.len() - 1 implies #[trigger] linked(
                levels@,
                k,
            ) by {
                if k < top {
                    assert(linked(before, k));
                }
            }
        }
        MerkleTree { levels }
    }

    /// Builds the tree over the SHA-256 hashes of the given items.
    pub fn from_data(items: &[&[u8]]) -> (tree: MerkleTree)
        ensures
            tree.wf(),
            tree.leaves() == Seq::new(items@.len(), |i: int| sha256_digest(items@[i]@)),
    {
        let mut leaves: Vec<[u8; 32]> = Vec::new();
        let mut i: usize = 0;
        while i < items.len()
            invariant
                0 <= i <= items@.len(),
                leaves@.len() == i,
                forall|j: int| 0 <= j < i ==> (#[trigger] leaves@[j])@ == sha256_digest(items@[j]@),
            decreases items@.len() - i,
        {
            leaves.push(sha256(items[i]));
            i = i + 1;
        }
        assert(hashes(leaves@) =~= Seq::new(items@.len(), |i: int| sha256_digest(items@[i]@)));
        MerkleTree::build(leaves)
    }

    /// Computes the level above a level of two or more nodes.
    fn level_above(level: &Vec<[u8; 32]>) -> (above: Vec<[u8; 32]>)
        requires
            level@.len() > 1,
        ensures
            hashes(above@) == parent_level(hashes(level@)),
            above@.len() < level@.len(),
    {
        let n = level.len();
        let half = n / 2 + n % 2;
        let mut above: Vec<[u8; 32]> = Vec::new();
        let mut j: usize = 0;
        while j < half
            invariant
                n == level@.len(),
                half == (n + 1) / 2,
                j <= half,
                above@.len() == j,
                forall|m: int|
                    0 <= m < above@.len() ==> (#[trigger] above@[m])@ == parent_level(
                        hashes(level@),
                    )[m],
            decreases half - j,
        {
            let left = 2 * j;
            let parent = if left + 1 < n {
                hash_pair(&level[left], &level[left + 1])
            } else {
                hash_pair(&level[left], &level[left])
            };
            above.push(parent);
            j = j + 1;
        }
        assert(hashes(above@) =~= parent_level(hashes(level@)));
        above
    }

    /// The root: 32 zero bytes for a tree without leaves.
    pub fn root(&self) -> (root: [u8; 32])
        requires
            self.wf(),
        ensures
            root@ == self.root_hash(),
    {
        proof {
            self.lemma_root_of_levels(self.levels@.len() - 1);
        }
        let top = &self.levels[self.levels.len() - 1];
        if top.len() == 0 {
            let zero = [0u8; 32];
            assert(zero@ =~= zero_hash());
            zero
        } else {
            top[0]
        }
    }

    /// Every level has the root of the leaves.
    proof fn lemma_root_of_levels(&self, k: int)
        requires
            self.wf(),
            0 <= k < self.levels@.len(),
        ensures
            root_of(hashes(self.levels@[k]@)) == self.root_hash(),
        decreases k,
    {
        if k > 0 {
            self.lemma_root_of_levels(k - 1);
            assert(linked(self.levels@, k - 1));
        }
    }

    /// The number of leaves.
    pub fn leaf_count(&self) -> (n: usize)
        requires
            self.wf(),
        ensures
            n == self.leaves().len(),
    {
        self.levels[0].len()
    }

    /// The inclusion proof of the leaf at `index`: its partners, bottom up.
    pub fn inclusion_proof(&self, index: usize) -> (r: Result<Vec<([u8; 32], bool)>, MerkleError>)
        requires
            self.wf(),
        ensures
            r is Ok <==> index < self.leaves().len(),
            r is Ok ==> path_view(r.unwrap()@) == path_of(self.leaves(), index as int),
            r is Err ==> r.unwrap_err() == MerkleError::IndexOutOfRange,
    {
        if index >= self.levels[0].len() {
            return Err(MerkleError::IndexOutOfRange);
        }
        let mut path: Vec<([u8; 32], bool)> = Vec::new();
        let mut at: usize = index;
        let mut k: usize = 0;
        while k < self.levels.len() - 1
            invariant
                self.wf(),
                0 <= k < self.levels@.len(),
                at < self.levels@[k as int]@.len(),
                path_view(path@) + path_of(hashes(self.levels@[k as int]@), at as int) == path_of(
                    self.leaves(),
                    index as int,
                ),
            decreases self.levels@.len() - k,
        {
            let level = &self.levels[k];
            let ghost below = hashes(level@);
            let ghost so_far = path_view(path@);
            let step = if at % 2 == 0 {
                if at + 1 < level.len() {
                    (level[at + 1], true)
                } else {
                    (level[at], true)
                }
            } else {
                (level[at - 1], false)
            };
            path.push(step);
            proof {
                assert(linked(self.levels@, k as int));
                assert((step.0@, step.1) == sibling_of(below, at as int));
                assert(path_view(path@) =~= so_far.push(sibling_of(below, at as int)));
                assert(path_view(path@) + path_of(parent_level(below), at as int / 2) =~= so_far
                    + path_of(below, at as int));
            }
            at = at / 2;
            k = k + 1;
        }
        assert(path_view(path@) + Seq::<(Seq<u8>, bool)>::empty() =~= path_view(path@));
        Ok(path)
    }

    /// Whether following `path` upward from `leaf` ends at `root`.
    pub fn verify_proof(leaf: [u8; 32], path: &Vec<([u8; 32], bool)>, root: [u8; 32]) -> (ok:
        bool)
        ensures
            ok == (climb(leaf@, path_view(path@)) == root@),
    {
        let mut node = leaf;
        let mut i: usize = 0;
        assert(path_view(path@).skip(0) =~= path_view(path@));
        while i < path.len()
            invariant
                0 <= i <= path@.len(),
                climb(node@, path_view(path@).skip(i as int)) == climb(
                    leaf@,
                    path_view(path@),
                ),
            decreases path@.len() - i,
        {
            let ghost rest = path_view(path@).skip(i as int);
            let sibling = &path[i].0;
            let on_right = path[i].1;
            assert(rest[0] == (path@[i as int].0@, path@[i as int].1));
            assert(rest.drop_first() =~= path_view(path@).skip(i + 1));
            node = if on_right {
                hash_pair(&node, sibling)
            } else {
                hash_pair(sibling, &node)
            };
            i = i + 1;
        }
        hash_eq(&node, &root)
    }
}

/// A proof produced by a tree verifies against that tree's root, and
/// against no other root.
pub proof fn lemma_proof_verifies(tree: MerkleTree, index: int, other: Seq<u8>)
    requires
        tree.wf(),
        0 <= index < tree.leaves().len(),
    ensures
        climb(tree.leaves()[index], path_of(tree.leaves(), index)) == tree.root_hash(),
        other != tree.root_hash() ==> climb(tree.leaves()[index], path_of(tree.leaves(), index))
            != other,
{
    lemma_path_reaches_root(tree.leaves(), index);
}

} // verus!

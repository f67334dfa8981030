//! The Merkle hash tree: an ordered, append-only sequence of leaves with
//! a single root digest derived from them. The root is always a pure
//! function of the leaf sequence; it is recomputed from the leaves, never
//! held as independently mutable state.

use vstd::prelude::*;

use crate::hashing::{hash_leaf, hash_node, leaf_digest, node_digest};

verus! {

/// The byte sequences held by a sequence of byte vectors.
pub open spec fn bytes_views(s: Seq<Vec<u8>>) -> Seq<Seq<u8>> {
    Seq::new(s.len(), |i: int| s[i]@)
}

/// The leaf layer of the tree: each leaf's tagged digest, in leaf order.
pub open spec fn leaf_digests(leaves: Seq<Seq<u8>>) -> Seq<Seq<u8>> {
    Seq::new(leaves.len(), |i: int| leaf_digest(leaves[i]))
}

/// One level of upward hashing: adjacent digests are paired and hashed;
/// when the level has an odd count, the last digest is paired with itself.
pub open spec fn level_up(level: Seq<Seq<u8>>) -> Seq<Seq<u8>> {
    Seq::new(
        (level.len() + 1) / 2,
        |i: int|
            if 2 * i + 1 < level.len() {
                node_digest(level[2 * i], level[2 * i + 1])
            } else {
                node_digest(level[2 * i], level[2 * i])
            },
    )
}

/// The single digest a level collapses to, hashing upward level by level.
pub open spec fn root_of_level(level: Seq<Seq<u8>>) -> Seq<u8>
    recommends
        level.len() >= 1,
    decreases level.len(),
{
    if level.len() == 0 {
        Seq::empty()
    } else if level.len() == 1 {
        level[0]
    } else {
        root_of_level(level_up(level))
    }
}

/// The root digest of a non-empty leaf sequence.
pub open spec fn root_of(leaves: Seq<Seq<u8>>) -> Seq<u8>
    recommends
        leaves.len() >= 1,
{
    root_of_level(leaf_digests(leaves))
}

/// The Merkle tree. Its mathematical value is the ordered sequence of its
/// leaves' byte strings; every derived quantity (digests, the root) is a
/// function of that sequence.
#[derive(Debug, PartialEq, Eq, Clone)]
pub struct MerkleTree {
    leaves: Vec<Vec<u8>>,
}

impl View for MerkleTree {
    type V = Seq<Seq<u8>>;

    closed spec fn view(&self) -> Seq<Seq<u8>> {
        bytes_views(self.leaves@)
    }
}

impl MerkleTree {
    /// Well-formed trees fit the canonical encoding: the leaf count and
    /// every leaf's length fit in 32 bits.
    pub open spec fn wf(&self) -> bool {
        &&& self@.len() <= u32::MAX
        &&& forall|i: int| 0 <= i < self@.len() ==> (#[trigger] self@[i]).len() <= u32::MAX
    }

    /// Build a tree from a non-empty initial leaf batch.
    pub fn new(leaves: Vec<Vec<u8>>) -> (t: MerkleTree)
        requires
            leaves@.len() >= 1,
            leaves@.len() <= u32::MAX,
            forall|i: int| 0 <= i < leaves@.len() ==> (#[trigger] leaves@[i])@.len() <= u32::MAX,
        ensures
            t@ == bytes_views(leaves@),
            t@.len() == leaves@.len(),
            t.wf(),
    {
        MerkleTree { leaves }
    }

    /// Append further leaves to an existing tree: the result's leaves are
    /// the existing leaves followed by the new ones, and its root is the
    /// root of that combined sequence, exactly as if it were built fresh.
    pub fn from_tree(tree: MerkleTree, new_leaves: Vec<Vec<u8>>) -> (t: MerkleTree)
        requires
            tree.wf(),
            new_leaves@.len() >= 1,
            tree@.len() + new_leaves@.len() <= u32::MAX,
            forall|i: int| 0 <= i < new_leaves@.len() ==> (#[trigger] new_leaves@[i])@.len()
                <= u32::MAX,
        ensures
            t@ == tree@ + bytes_views(new_leaves@),
            t@.len() == tree@.len() + new_leaves@.len(),
            t.wf(),
    {
        let ghost old_leaves = tree.leaves@;
        let ghost added = new_leaves@;
        let mut leaves = tree.leaves;
        let mut rest = new_leaves;
        leaves.append(&mut rest);
        let t = MerkleTree { leaves };
        proof {
            assert(t@ =~= bytes_views(old_leaves) + bytes_views(added));
        }
        t
    }

    /// The number of leaves the tree holds.
    pub fn leaf_count(&self) -> (n: usize)
        ensures
            n == self@.len(),
    {
        self.leaves.len()
    }

    /// The root digest: absent exactly when the tree holds no leaves.
    pub fn get_root(&self) -> (r: Option<Vec<u8>>)
        ensures
            match r {
                Option::None => self@.len() == 0,
                Option::Some(d) => self@.len() > 0 && d@ == root_of(self@) && d@.len() == 32,
            },
    {
        if self.leaves.len() == 0 {
            Option::None
        } else {
            Option::Some(compute_root(&self.leaves))
        }
    }

    /// Wrap an already-validated leaf sequence; for the codec, which may
    /// reconstruct an empty tree from a persisted region.
    pub(crate) fn from_leaves(leaves: Vec<Vec<u8>>) -> (t: MerkleTree)
        ensures
            t@ == bytes_views(leaves@),
    {
        MerkleTree { leaves }
    }

    /// The leaves as stored; for the codec.
    pub(crate) fn leaves_ref(&self) -> (r: &Vec<Vec<u8>>)
        ensures
            bytes_views(r@) == self@,
    {
        &self.leaves
    }
}

/// Compute the root of a non-empty leaf sequence: hash each leaf in
/// order, then pair and hash upward (duplicating the last digest of an
/// odd level) until one digest remains.
fn compute_root(leaves: &Vec<Vec<u8>>) -> (r: Vec<u8>)
    requires
        leaves@.len() >= 1,
    ensures
        r@ == root_of(bytes_views(leaves@)),
        r@.len() == 32,
{
    let ghost target = root_of(bytes_views(leaves@));
    let mut level: Vec<Vec<u8>> = Vec::new();
    let mut i: usize = 0;
    while i < leaves.len()
        invariant
            i <= leaves@.len(),
            level@.len() == i,
            forall|k: int| 0 <= k < i ==> (#[trigger] level@[k])@ == leaf_digest(leaves@[k]@),
            forall|k: int| 0 <= k < i ==> (#[trigger] level@[k])@.len() == 32,
        decreases leaves@.len() - i,
    {
        let d = hash_leaf(&leaves[i]);
        level.push(d);
        i += 1;
    }
    proof {
        assert(bytes_views(level@) =~= leaf_digests(bytes_views(leaves@)));
    }
    while level.len() > 1
        invariant
            level@.len() >= 1,
            root_of_level(bytes_views(level@)) == target,
            forall|k: int| 0 <= k < level@.len() ==> (#[trigger] level@[k])@.len() == 32,
        decreases level@.len(),
    {
        let ghost cur = bytes_views(level@);
        let mut next: Vec<Vec<u8>> = Vec::new();
        let mut j: usize = 0;
        while j < level.len()
            invariant
                level@.len() >= 2,
                cur == bytes_views(level@),
                j <= level@.len(),
                j % 2 == 0 || j == level@.len(),
                next@.len() == (j + 1) / 2,
                forall|k: int| 0 <= k < next@.len() ==> (#[trigger] next@[k])@ == level_up(cur)[k],
                forall|k: int| 0 <= k < next@.len() ==> (#[trigger] next@[k])@.len() == 32,
            decreases level@.len() - j,
        {
            if j + 1 < level.len() {
                let d = hash_node(&level[j], &level[j + 1]);
                next.push(d);
                j += 2;
            } else {
                let d = hash_node(&level[j], &level[j]);
                next.push(d);
                j += 1;
            }
        }
        proof {
            assert(bytes_views(next@) =~= level_up(cur));
        }
        level = next;
    }
    let ghost last = bytes_views(level@);
    let r = match level.pop() {
        Option::Some(d) => d,
        Option::None => Vec::new(),
    };
    proof {
        assert(r@ == last[0]);
        assert(root_of_level(last) == last[0]);
    }
    r
}

/// Law: two trees over the same leaf sequence report the same leaf count
/// and, when non-empty, the same root; the root is a pure, deterministic
/// function of the leaves.
pub proof fn lemma_build_deterministic(t1: MerkleTree, t2: MerkleTree)
    requires
        t1@ == t2@,
    ensures
        t1@.len() == t2@.len(),
        t1@.len() > 0 ==> root_of(t1@) == root_of(t2@),
{
}

/// Law: appending a batch to a tree built from one sequence yields the
/// leaves, count and root of building the concatenation fresh. The
/// `appended` argument stands for `from_tree(new(l1), l2)` via the two
/// functions' contracts; the `rebuilt` one for `new` on the concatenation.
pub proof fn lemma_append_matches_rebuild(
    appended: MerkleTree,
    rebuilt: MerkleTree,
    l1: Seq<Seq<u8>>,
    l2: Seq<Seq<u8>>,
)
    requires
        l1.len() >= 1,
        l2.len() >= 1,
        appended@ == l1 + l2,
        rebuilt@ == l1 + l2,
    ensures
        appended@ == rebuilt@,
        appended@.len() == rebuilt@.len(),
        root_of(appended@) == root_of(rebuilt@),
{
}

} // verus!

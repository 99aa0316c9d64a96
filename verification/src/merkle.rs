//! The incremental Merkle tree of fixed depth that accumulates the notes.
//!
//! The tree is modelled by the leaves that were written, as a map from
//! position to value; every other position holds the empty leaf. The hash of
//! any node, the root among them, is a function of that map alone.

use vstd::prelude::*;
use std::collections::HashMap;
use crate::error::CoreError;
use crate::poseidon::{FieldElement, PoseidonHasher, hash_pair};

verus! {

/// Depth of the tree.
pub const TREE_DEPTH: usize = 20;

/// Number of leaves that the tree can hold: two to the power of its depth.
pub const MAX_LEAVES: u64 = 1048576;

/// Two to the power of `n`.
pub open spec fn two_pow(n: nat) -> nat
    decreases n,
{
    if n == 0 {
        1
    } else {
        2 * two_pow((n - 1) as nat)
    }
}

/// The hash of a subtree of height `level` in which nothing was written.
pub open spec fn empty_subtree(level: nat) -> nat
    decreases level,
{
    if level == 0 {
        hash_pair(0, 0)
    } else {
        hash_pair(empty_subtree((level - 1) as nat), empty_subtree((level - 1) as nat))
    }
}

/// The value at a leaf position: what was written there, else the empty
/// leaf.
pub open spec fn leaf_value(leaves: Map<nat, nat>, index: nat) -> nat {
    if leaves.contains_key(index) {
        leaves[index]
    } else {
        empty_subtree(0)
    }
}

/// The hash of the node at `index` of `level`; level 0 holds the leaves. The
/// even child is the left one.
pub open spec fn node_hash(leaves: Map<nat, nat>, level: nat, index: nat) -> nat
    decreases level,
{
    if level == 0 {
        leaf_value(leaves, index)
    } else {
        hash_pair(
            node_hash(leaves, (level - 1) as nat, 2 * index),
            node_hash(leaves, (level - 1) as nat, 2 * index + 1),
        )
    }
}

/// The root that belongs to a set of written leaves.
pub open spec fn root_of(leaves: Map<nat, nat>) -> nat {
    node_hash(leaves, 20, 0)
}

/// The position, at `level`, of the node above leaf `index`.
pub open spec fn ancestor(index: nat, level: nat) -> nat
    decreases level,
{
    if level == 0 {
        index
    } else {
        ancestor(index, (level - 1) as nat) / 2
    }
}

/// The position of the other child of the same parent.
pub open spec fn sibling(index: nat) -> nat {
    if index % 2 == 0 {
        index + 1
    } else {
        (index - 1) as nat
    }
}

/// The membership proof of a leaf position: the hash of the sibling at each
/// level, from the leaves up.
pub open spec fn proof_path(leaves: Map<nat, nat>, index: nat) -> Seq<nat> {
    Seq::new(20, |k: int| node_hash(leaves, k as nat, sibling(ancestor(index, k as nat))))
}

/// The hash reached after `k` steps up from `leaf` at `index` along `path`.
pub open spec fn climb(leaf: nat, index: nat, path: Seq<nat>, k: nat) -> nat
    decreases k,
{
    if k == 0 {
        leaf
    } else {
        let below = climb(leaf, index, path, (k - 1) as nat);
        if ancestor(index, (k - 1) as nat) % 2 == 0 {
            hash_pair(below, path[k - 1])
        } else {
            hash_pair(path[k - 1], below)
        }
    }
}

/// The root that a path leads to from `leaf` at `index`.
pub open spec fn path_root(leaf: nat, index: nat, path: Seq<nat>) -> nat {
    climb(leaf, index, path, path.len())
}

/// The values of a sequence of field elements.
pub open spec fn field_values(s: Seq<FieldElement>) -> Seq<nat> {
    s.map_values(|f: FieldElement| f@)
}

/// The written leaves that a level-0 store stands for.
pub open spec fn leaves_of(store: Map<u64, FieldElement>) -> Map<nat, nat> {
    Map::new(
        |k: nat| k <= u64::MAX && store.contains_key(k as u64),
        |k: nat| store[k as u64]@,
    )
}

/// What a tree is to its users.
pub ghost struct TreeModel {
    /// Number of leaves appended so far; the next free position.
    pub leaf_count: nat,
    /// The leaves that were written, by position.
    pub leaves: Map<nat, nat>,
    /// The current root.
    pub root: nat,
}

pub proof fn lemma_two_pow_20()
    ensures
        two_pow(20) == 1048576,
{
    reveal_with_fuel(two_pow, 21);
}

/// A leaf below `2^m` has its ancestor at level `k` below `2^(m-k)`.
pub proof fn lemma_ancestor_bound(index: nat, m: nat, k: nat)
    requires
        index < two_pow(m),
        k <= m,
    ensures
        ancestor(index, k) < two_pow((m - k) as nat),
    decreases k,
{
    if k > 0 {
        lemma_ancestor_bound(index, m, (k - 1) as nat);
        assert(two_pow((m - (k - 1)) as nat) == 2 * two_pow((m - k) as nat));
    }
}

/// A leaf of the tree has the root as its ancestor at the top level.
pub proof fn lemma_ancestor_top(index: nat)
    requires
        index < MAX_LEAVES,
    ensures
        ancestor(index, 20) == 0,
{
    lemma_two_pow_20();
    lemma_ancestor_bound(index, 20, 20);
}

/// Where every leaf position holds the empty leaf, every node is the empty
/// subtree of its level.
pub proof fn lemma_empty_nodes(leaves: Map<nat, nat>, level: nat, index: nat)
    requires
        forall|i: nat| leaf_value(leaves, i) == empty_subtree(0),
    ensures
        node_hash(leaves, level, index) == empty_subtree(level),
    decreases level,
{
    if level > 0 {
        lemma_empty_nodes(leaves, (level - 1) as nat, 2 * index);
        lemma_empty_nodes(leaves, (level - 1) as nat, 2 * index + 1);
    }
}

/// Writing a leaf changes no node but those above it.
pub proof fn lemma_write_elsewhere(
    leaves: Map<nat, nat>,
    at: nat,
    value: nat,
    level: nat,
    index: nat,
)
    requires
        index != ancestor(at, level),
    ensures
        node_hash(leaves.insert(at, value), level, index) == node_hash(leaves, level, index),
    decreases level,
{
    if level > 0 {
        lemma_write_elsewhere(leaves, at, value, (level - 1) as nat, 2 * index);
        lemma_write_elsewhere(leaves, at, value, (level - 1) as nat, 2 * index + 1);
    }
}

/// A node above a leaf is the hash of the node below it on the way and of
/// that node's sibling, the even one to the left.
pub proof fn lemma_step_up(leaves: Map<nat, nat>, index: nat, level: nat)
    ensures
        node_hash(leaves, level + 1, ancestor(index, level + 1)) == (if ancestor(index, level) % 2
            == 0 {
            hash_pair(
                node_hash(leaves, level, ancestor(index, level)),
                node_hash(leaves, level, sibling(ancestor(index, level))),
            )
        } else {
            hash_pair(
                node_hash(leaves, level, sibling(ancestor(index, level))),
                node_hash(leaves, level, ancestor(index, level)),
            )
        }),
{
    let a = ancestor(index, level);
    assert(ancestor(index, level + 1) == a / 2);
    if a % 2 == 0 {
        assert(2 * (a / 2) == a);
    } else {
        assert(2 * (a / 2) + 1 == a);
    }
}

/// Climbing from a leaf along its own membership proof passes through the
/// nodes above it.
pub proof fn lemma_climb_own_path(leaves: Map<nat, nat>, index: nat, k: nat)
    requires
        k <= 20,
    ensures
        climb(leaf_value(leaves, index), index, proof_path(leaves, index), k) == node_hash(
            leaves,
            k,
            ancestor(index, k),
        ),
    decreases k,
{
    if k > 0 {
        lemma_climb_own_path(leaves, index, (k - 1) as nat);
        lemma_step_up(leaves, index, (k - 1) as nat);
    }
}

/// Membership round trip: for every set of written leaves and every position
/// of the tree, the proof taken at that position leads from the value there
/// to the root.
pub proof fn lemma_membership_round_trip(leaves: Map<nat, nat>, index: nat)
    requires
        index < MAX_LEAVES,
    ensures
        path_root(leaf_value(leaves, index), index, proof_path(leaves, index)) == root_of(leaves),
{
    lemma_climb_own_path(leaves, index, 20);
    lemma_ancestor_top(index);
}

/// A tree whose positions all hold the empty leaf, whatever was written to
/// them before, has the root of the tree in which nothing was ever written.
pub proof fn lemma_cleared_tree_root(leaves: Map<nat, nat>)
    requires
        forall|i: nat| leaf_value(leaves, i) == empty_subtree(0),
    ensures
        root_of(leaves) == empty_subtree(20),
        root_of(leaves) == root_of(Map::<nat, nat>::empty()),
{
    lemma_empty_nodes(leaves, 20, 0);
    lemma_empty_nodes(Map::<nat, nat>::empty(), 20, 0);
}

/// The membership proof of a position does not depend on what that position
/// holds.
pub proof fn lemma_path_ignores_own_leaf(leaves: Map<nat, nat>, index: nat, value: nat)
    ensures
        proof_path(leaves.insert(index, value), index) == proof_path(leaves, index),
{
    assert forall|k: int| 0 <= k < 20 implies proof_path(leaves.insert(index, value), index)[k]
        == proof_path(leaves, index)[k] by {
        let a = ancestor(index, k as nat);
        assert(sibling(a) != a);
        lemma_write_elsewhere(leaves, index, value, k as nat, sibling(a));
    }
    assert(proof_path(leaves.insert(index, value), index) =~= proof_path(leaves, index));
}

/// Whether Poseidon keeps two different values apart on every step up a
/// path.
pub open spec fn climbs_apart(a: nat, b: nat, index: nat, path: Seq<nat>) -> bool {
    forall|k: nat|
        k < 20 && climb(a, index, path, k) != climb(b, index, path, k) ==> #[trigger] climb(
            a,
            index,
            path,
            k + 1,
        ) != climb(b, index, path, k + 1)
}

proof fn lemma_climbs_stay_apart(a: nat, b: nat, index: nat, path: Seq<nat>, k: nat)
    requires
        a != b,
        k <= 20,
        climbs_apart(a, b, index, path),
    ensures
        climb(a, index, path, k) != climb(b, index, path, k),
    decreases k,
{
    if k > 0 {
        lemma_climbs_stay_apart(a, b, index, path, (k - 1) as nat);
        assert(climb(a, index, path, ((k - 1) as nat) + 1) != climb(
            b,
            index,
            path,
            ((k - 1) as nat) + 1,
        ));
    }
}

/// Writing two different values to one position gives two different roots,
/// as long as Poseidon does not collide on the way from that position to the
/// root.
pub proof fn lemma_update_changes_root(leaves: Map<nat, nat>, index: nat, a: nat, b: nat)
    requires
        index < MAX_LEAVES,
        a != b,
        climbs_apart(a, b, index, proof_path(leaves, index)),
    ensures
        root_of(leaves.insert(index, a)) != root_of(leaves.insert(index, b)),
{
    let path = proof_path(leaves, index);
    lemma_path_ignores_own_leaf(leaves, index, a);
    lemma_path_ignores_own_leaf(leaves, index, b);
    lemma_membership_round_trip(leaves.insert(index, a), index);
    lemma_membership_round_trip(leaves.insert(index, b), index);
    lemma_climbs_stay_apart(a, b, index, path, 20);
}

/// What a level of the sparse store says of a node: the stored hash, or the
/// empty subtree of that level where nothing is stored.
pub open spec fn stored(nodes: Seq<HashMap<u64, FieldElement>>, level: int, index: u64) -> nat {
    if nodes[level]@.contains_key(index) {
        nodes[level]@[index]@
    } else {
        empty_subtree(level as nat)
    }
}

/// The root that a path of the tree's depth leads to from a leaf.
pub fn compute_root(
    hasher: &mut PoseidonHasher,
    leaf: FieldElement,
    index: u64,
    path: &[FieldElement],
) -> (root: FieldElement)
    requires
        path@.len() == TREE_DEPTH,
    ensures
        root@ == path_root(leaf@, index as nat, field_values(path@)),
{
    let ghost values = field_values(path@);
    let mut current_hash = leaf;
    let mut current_index = index;
    let mut k: usize = 0;
    while k < 20
        invariant
            k <= 20,
            path@.len() == 20,
            values == field_values(path@),
            current_index as nat == ancestor(index as nat, k as nat),
            current_hash@ == climb(leaf@, index as nat, values, k as nat),
        decreases 20 - k,
    {
        let sibling = path[k];
        assert(values[k as int] == sibling@);
        current_hash = if current_index % 2 == 0 {
            hasher.hash2(&current_hash, &sibling)
        } else {
            hasher.hash2(&sibling, &current_hash)
        };
        current_index = current_index / 2;
        k += 1;
    }
    current_hash
}

/// Merkle tree with incremental updates and sparse node storage.
pub struct MerkleTree {
    /// Number of leaves appended so far.
    leaf_count: u64,
    /// The hash of the empty subtree of each level, 0 to the depth.
    empty_hashes: Vec<FieldElement>,
    /// For each level, the nodes that differ from the empty subtree.
    nodes: Vec<HashMap<u64, FieldElement>>,
    /// The current root.
    root: FieldElement,
    /// The hasher that the tree owns.
    hasher: PoseidonHasher,
}

impl View for MerkleTree {
    type V = TreeModel;

    closed spec fn view(&self) -> TreeModel {
        TreeModel {
            leaf_count: self.leaf_count as nat,
            leaves: leaves_of(self.nodes@[0]@),
            root: self.root@,
        }
    }
}

impl MerkleTree {
    /// The invariant of the tree: every level of the store agrees with the
    /// written leaves, and so does the root.
    pub closed spec fn wf(&self) -> bool {
        &&& self.nodes@.len() == 21
        &&& self.empty_hashes@.len() == 21
        &&& forall|k: int|
            0 <= k <= 20 ==> (#[trigger] self.empty_hashes@[k])@ == empty_subtree(k as nat)
        &&& self.leaf_count <= MAX_LEAVES
        &&& forall|level: int, index: u64|
            0 <= level <= 20 ==> #[trigger] stored(self.nodes@, level, index) == node_hash(
                leaves_of(self.nodes@[0]@),
                level as nat,
                index as nat,
            )
        &&& self.root@ == root_of(leaves_of(self.nodes@[0]@))
    }

    /// In a well-formed tree the root is that of the written leaves, and the
    /// leaf count is within the capacity.
    pub proof fn lemma_wf(&self)
        requires
            self.wf(),
        ensures
            self@.root == root_of(self@.leaves),
            self@.leaf_count <= MAX_LEAVES,
    {
    }

    /// Create a new empty Merkle tree.
    #[inline]
    pub fn new() -> (tree: Self)
        ensures
            tree.wf(),
            tree@.leaf_count == 0,
            tree@.leaves == Map::<nat, nat>::empty(),
            tree@.root == empty_subtree(20),
    {
        let mut hasher = PoseidonHasher::new();
        let zero = FieldElement::zero();
        let mut empty_hashes: Vec<FieldElement> = Vec::new();
        let first = hasher.hash2(&zero, &zero);
        empty_hashes.push(first);
        let mut i: usize = 1;
        while i <= 20
            invariant
                1 <= i <= 21,
                empty_hashes@.len() == i,
                forall|k: int| 0 <= k < i ==> (#[trigger] empty_hashes@[k])@ == empty_subtree(k as nat),
            decreases 21 - i,
        {
            let below = empty_hashes[i - 1];
            let next = hasher.hash2(&below, &below);
            empty_hashes.push(next);
            i += 1;
        }
        let root = empty_hashes[20];
        let mut nodes: Vec<HashMap<u64, FieldElement>> = Vec::new();
        let mut j: usize = 0;
        while j <= 20
            invariant
                j <= 21,
                nodes@.len() == j,
                forall|k: int| 0 <= k < j ==> (#[trigger] nodes@[k])@ == Map::<u64, FieldElement>::empty(),
            decreases 21 - j,
        {
            nodes.push(HashMap::new());
            j += 1;
        }
        let tree = MerkleTree { leaf_count: 0, empty_hashes, nodes, root, hasher };
        proof {
            let leaves = leaves_of(tree.nodes@[0]@);
            assert(leaves =~= Map::<nat, nat>::empty());
            assert forall|level: int, index: u64| 0 <= level <= 20 implies #[trigger] stored(
                tree.nodes@,
                level,
                index,
            ) == node_hash(leaves, level as nat, index as nat) by {
                lemma_empty_nodes(leaves, level as nat, index as nat);
            }
            lemma_empty_nodes(leaves, 20, 0);
        }
        tree
    }

    /// Get the current root.
    pub fn root(&self) -> (r: FieldElement)
        ensures
            r@ == self@.root,
    {
        self.root
    }

    /// Get the current leaf count.
    pub fn leaf_count(&self) -> (n: u64)
        ensures
            n == self@.leaf_count,
    {
        self.leaf_count
    }

    /// Get the hash of the empty subtree of a level, 0 to the depth.
    pub fn empty_hash(&self, level: usize) -> (r: FieldElement)
        requires
            self.wf(),
            level <= TREE_DEPTH,
        ensures
            r@ == empty_subtree(level as nat),
    {
        self.empty_hashes[level]
    }

    /// Insert a new leaf at the next free position and return that position.
    /// A full tree is left as it is.
    pub fn insert(&mut self, leaf: FieldElement) -> (r: Result<u64, CoreError>)
        requires
            old(self).wf(),
        ensures
            final(self).wf(),
            old(self)@.leaf_count < MAX_LEAVES ==> r == Ok::<u64, CoreError>(
                old(self)@.leaf_count as u64,
            ) && final(self)@.leaf_count == old(self)@.leaf_count + 1 && final(self)@.leaves == old(
                self,
            )@.leaves.insert(old(self)@.leaf_count, leaf@) && final(self)@.root == root_of(
                final(self)@.leaves,
            ),
            old(self)@.leaf_count >= MAX_LEAVES ==> r is Err && r->Err_0 is TreeFull && final(self)@
                == old(self)@,
    {
        if self.leaf_count >= MAX_LEAVES {
            return Err(CoreError::TreeFull);
        }
        let index = self.leaf_count;
        let _ = self.update_leaf(index, leaf);
        self.leaf_count += 1;
        Ok(index)
    }

    /// Rewrite the leaf at a position of the tree, written before or not, and
    /// the hashes of all nodes above it.
    pub fn update_leaf(&mut self, index: u64, leaf: FieldElement) -> (r: Result<(), CoreError>)
        requires
            old(self).wf(),
            index < MAX_LEAVES,
        ensures
            r is Ok,
            final(self).wf(),
            final(self)@.leaf_count == old(self)@.leaf_count,
            final(self)@.leaves == old(self)@.leaves.insert(index as nat, leaf@),
            final(self)@.root == root_of(final(self)@.leaves),
    {
        let ghost old_leaves = self@.leaves;
        let ghost new_leaves = old_leaves.insert(index as nat, leaf@);
        let ghost old_nodes = self.nodes@;
        self.nodes[0].insert(index, leaf);
        proof {
            assert(leaves_of(self.nodes@[0]@) =~= new_leaves);
            assert forall|lv: int, idx: u64| 0 < lv <= 20 implies #[trigger] stored(
                self.nodes@,
                lv,
                idx,
            ) == node_hash(old_leaves, lv as nat, idx as nat) by {
                assert(stored(self.nodes@, lv, idx) == stored(old_nodes, lv, idx));
            }
        }
        let mut current_index = index;
        let mut current_hash = leaf;
        let mut level: usize = 0;
        while level < 20
            invariant
                level <= 20,
                self.nodes@.len() == 21,
                self.empty_hashes@.len() == 21,
                forall|k: int|
                    0 <= k <= 20 ==> (#[trigger] self.empty_hashes@[k])@ == empty_subtree(k as nat),
                self.leaf_count <= MAX_LEAVES,
                self.leaf_count == old(self).leaf_count,
                leaves_of(self.nodes@[0]@) == new_leaves,
                new_leaves == old_leaves.insert(index as nat, leaf@),
                current_index as nat == ancestor(index as nat, level as nat),
                current_hash@ == node_hash(new_leaves, level as nat, current_index as nat),
                forall|lv: int, idx: u64|
                    0 <= lv <= level ==> #[trigger] stored(self.nodes@, lv, idx) == node_hash(
                        new_leaves,
                        lv as nat,
                        idx as nat,
                    ),
                forall|lv: int, idx: u64|
                    level < lv <= 20 ==> #[trigger] stored(self.nodes@, lv, idx) == node_hash(
                        old_leaves,
                        lv as nat,
                        idx as nat,
                    ),
            decreases 20 - level,
        {
            let sibling_index = if current_index % 2 == 0 {
                current_index + 1
            } else {
                current_index - 1
            };
            let sibling_hash = match self.nodes[level].get(&sibling_index) {
                Some(h) => *h,
                None => self.empty_hashes[level],
            };
            assert(sibling_hash@ == stored(self.nodes@, level as int, sibling_index));
            let parent_hash = if current_index % 2 == 0 {
                self.hasher.hash2(&current_hash, &sibling_hash)
            } else {
                self.hasher.hash2(&sibling_hash, &current_hash)
            };
            let parent_index = current_index / 2;
            proof {
                lemma_step_up(new_leaves, index as nat, level as nat);
                assert(sibling_index as nat == sibling(current_index as nat));
            }
            let ghost before = self.nodes@;
            self.nodes[level + 1].insert(parent_index, parent_hash);
            proof {
                let now = self.nodes@;
                assert(now[0] == before[0]);
                assert forall|lv: int, idx: u64| 0 <= lv <= level + 1 implies #[trigger] stored(
                    now,
                    lv,
                    idx,
                ) == node_hash(new_leaves, lv as nat, idx as nat) by {
                    if lv == level + 1 {
                        if idx != parent_index {
                            assert(stored(now, lv, idx) == stored(before, lv, idx));
                            lemma_write_elsewhere(
                                old_leaves,
                                index as nat,
                                leaf@,
                                lv as nat,
                                idx as nat,
                            );
                        }
                    } else {
                        assert(now[lv] == before[lv]);
                        assert(stored(now, lv, idx) == stored(before, lv, idx));
                    }
                }
                assert forall|lv: int, idx: u64| level + 1 < lv <= 20 implies #[trigger] stored(
                    now,
                    lv,
                    idx,
                ) == node_hash(old_leaves, lv as nat, idx as nat) by {
                    assert(now[lv] == before[lv]);
                    assert(stored(now, lv, idx) == stored(before, lv, idx));
                }
            }
            current_index = parent_index;
            current_hash = parent_hash;
            level += 1;
        }
        proof {
            lemma_ancestor_top(index as nat);
        }
        self.root = current_hash;
        Ok(())
    }

    /// Get the membership proof of a position: the sibling hash at each
    /// level, from the leaves up. Any position may be asked for, written or
    /// not.
    pub fn get_proof(&self, index: u64) -> (proof: Vec<FieldElement>)
        requires
            self.wf(),
        ensures
            field_values(proof@) == proof_path(self@.leaves, index as nat),
    {
        let mut proof: Vec<FieldElement> = Vec::with_capacity(TREE_DEPTH);
        let mut current_index = index;
        let mut level: usize = 0;
        while level < 20
            invariant
                level <= 20,
                self.wf(),
                proof@.len() == level,
                current_index as nat == ancestor(index as nat, level as nat),
                forall|k: int|
                    0 <= k < level ==> (#[trigger] proof@[k])@ == node_hash(
                        self@.leaves,
                        k as nat,
                        sibling(ancestor(index as nat, k as nat)),
                    ),
            decreases 20 - level,
        {
            let sibling_index = if current_index % 2 == 0 {
                current_index + 1
            } else {
                current_index - 1
            };
            let sibling_hash = match self.nodes[level].get(&sibling_index) {
                Some(h) => *h,
                None => self.empty_hashes[level],
            };
            assert(sibling_hash@ == stored(self.nodes@, level as int, sibling_index));
            proof.push(sibling_hash);
            current_index = current_index / 2;
            level += 1;
        }
        assert(field_values(proof@) =~= proof_path(self@.leaves, index as nat));
        proof
    }

    /// Get the leaf that was written at a position, if any was.
    pub fn get_leaf(&self, index: u64) -> (r: Option<FieldElement>)
        requires
            self.wf(),
        ensures
            r is Some <==> self@.leaves.contains_key(index as nat),
            r is Some ==> r->Some_0@ == self@.leaves[index as nat],
    {
        match self.nodes[0].get(&index) {
            Some(h) => Some(*h),
            None => None,
        }
    }

    /// Verify a membership proof against a root. The tree is not consulted
    /// and not changed; only its hasher is used.
    pub fn verify_proof(
        &mut self,
        leaf: FieldElement,
        index: u64,
        proof: &[FieldElement],
        root: FieldElement,
    ) -> (ok: bool)
        ensures
            ok == (proof@.len() == TREE_DEPTH && path_root(
                leaf@,
                index as nat,
                field_values(proof@),
            ) == root@),
            final(self)@ == old(self)@,
            old(self).wf() ==> final(self).wf(),
    {
        Self::verify_proof_static(&mut self.hasher, leaf, index, proof, root)
    }

    /// Verify a membership proof against a root with a hasher of the
    /// caller's.
    pub fn verify_proof_static(
        hasher: &mut PoseidonHasher,
        leaf: FieldElement,
        index: u64,
        proof: &[FieldElement],
        root: FieldElement,
    ) -> (ok: bool)
        ensures
            ok == (proof@.len() == TREE_DEPTH && path_root(
                leaf@,
                index as nat,
                field_values(proof@),
            ) == root@),
    {
        if proof.len() != TREE_DEPTH {
            return false;
        }
        compute_root(hasher, leaf, index, proof).same(&root)
    }
}

impl Default for MerkleTree {
    /// The empty tree.
    #[inline]
    fn default() -> (tree: Self)
        ensures
            tree.wf(),
            tree@.leaf_count == 0,
            tree@.leaves == Map::<nat, nat>::empty(),
            tree@.root == empty_subtree(20),
    {
        MerkleTree::new()
    }
}

} // verus!

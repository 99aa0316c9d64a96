//! The state transition of a full transfer, as the transfer circuit checks
//! it: from the old root over the update of the sender's leaf to the update
//! of the recipient's leaf.

use vstd::prelude::*;
use crate::merkle::{
    compute_root, field_values, leaf_value, lemma_membership_round_trip,
    lemma_path_ignores_own_leaf, path_root, proof_path, root_of, MAX_LEAVES, TREE_DEPTH,
};
use crate::poseidon::{FieldElement, PoseidonHasher};

verus! {

/// One side of a transfer: a leaf position, the leaf before and after, and
/// the membership proofs of the position in two states.
pub struct TransferSide {
    /// Leaf position.
    pub index: u64,
    /// The leaf before the transfer.
    pub leaf_old: FieldElement,
    /// The leaf after the transfer.
    pub leaf_new: FieldElement,
    /// The proof in the old state.
    pub path_old: Vec<FieldElement>,
    /// For the sender, the proof in the new state; for the recipient, the
    /// proof in the state after the sender's update.
    pub path_new: Vec<FieldElement>,
}

/// What the check of a full transfer asks, on the values alone.
pub open spec fn transition_holds(
    old_root: nat,
    new_root: nat,
    sender_index: nat,
    sender_old: nat,
    sender_new: nat,
    sender_path_old: Seq<nat>,
    sender_path_new: Seq<nat>,
    recipient_index: nat,
    recipient_old: nat,
    recipient_new: nat,
    recipient_path_old: Seq<nat>,
    recipient_path_new: Seq<nat>,
) -> bool {
    let intermediate = path_root(sender_new, sender_index, sender_path_old);
    &&& sender_path_old.len() == 20
    &&& sender_path_new.len() == 20
    &&& recipient_path_old.len() == 20
    &&& recipient_path_new.len() == 20
    &&& path_root(sender_old, sender_index, sender_path_old) == old_root
    &&& path_root(recipient_old, recipient_index, recipient_path_old) == old_root
    &&& path_root(recipient_old, recipient_index, recipient_path_new) == intermediate
    &&& path_root(recipient_new, recipient_index, recipient_path_new) == new_root
    &&& path_root(sender_new, sender_index, sender_path_new) == new_root
}

/// Check the state transition of a full transfer in the order of the
/// circuit: the sender and the recipient stand in the old state; updating
/// the sender's leaf gives an intermediate root under which the recipient
/// still stands; updating the recipient's leaf gives the new root, under
/// which the sender's new leaf stands.
pub fn verify_full_transfer(
    hasher: &mut PoseidonHasher,
    old_state_root: FieldElement,
    new_state_root: FieldElement,
    sender: &TransferSide,
    recipient: &TransferSide,
) -> (ok: bool)
    ensures
        ok == transition_holds(
            old_state_root@,
            new_state_root@,
            sender.index as nat,
            sender.leaf_old@,
            sender.leaf_new@,
            field_values(sender.path_old@),
            field_values(sender.path_new@),
            recipient.index as nat,
            recipient.leaf_old@,
            recipient.leaf_new@,
            field_values(recipient.path_old@),
            field_values(recipient.path_new@),
        ),
{
    if sender.path_old.len() != TREE_DEPTH || sender.path_new.len() != TREE_DEPTH
        || recipient.path_old.len() != TREE_DEPTH || recipient.path_new.len() != TREE_DEPTH {
        return false;
    }
    let sender_in_old = compute_root(hasher, sender.leaf_old, sender.index, sender.path_old.as_slice());
    if !sender_in_old.same(&old_state_root) {
        return false;
    }
    let recipient_in_old = compute_root(
        hasher,
        recipient.leaf_old,
        recipient.index,
        recipient.path_old.as_slice(),
    );
    if !recipient_in_old.same(&old_state_root) {
        return false;
    }
    let intermediate = compute_root(hasher, sender.leaf_new, sender.index, sender.path_old.as_slice());
    let recipient_in_between = compute_root(
        hasher,
        recipient.leaf_old,
        recipient.index,
        recipient.path_new.as_slice(),
    );
    if !recipient_in_between.same(&intermediate) {
        return false;
    }
    let updated = compute_root(
        hasher,
        recipient.leaf_new,
        recipient.index,
        recipient.path_new.as_slice(),
    );
    if !updated.same(&new_state_root) {
        return false;
    }
    let sender_in_new = compute_root(hasher, sender.leaf_new, sender.index, sender.path_new.as_slice());
    sender_in_new.same(&new_state_root)
}

/// A transfer that is read off a tree passes the check: with the proofs
/// taken from the tree before the transfer, after the sender's leaf was
/// written and after the recipient's leaf was written, the old and the new
/// root are those of the tree before and after.
pub proof fn lemma_transition_of_tree(
    leaves: Map<nat, nat>,
    sender_index: nat,
    sender_new: nat,
    recipient_index: nat,
    recipient_new: nat,
)
    requires
        sender_index < MAX_LEAVES,
        recipient_index < MAX_LEAVES,
        sender_index != recipient_index,
    ensures
        ({
            let between = leaves.insert(sender_index, sender_new);
            let after = between.insert(recipient_index, recipient_new);
            transition_holds(
                root_of(leaves),
                root_of(after),
                sender_index,
                leaf_value(leaves, sender_index),
                sender_new,
                proof_path(leaves, sender_index),
                proof_path(after, sender_index),
                recipient_index,
                leaf_value(leaves, recipient_index),
                recipient_new,
                proof_path(leaves, recipient_index),
                proof_path(between, recipient_index),
            )
        }),
{
    let between = leaves.insert(sender_index, sender_new);
    let after = between.insert(recipient_index, recipient_new);
    lemma_membership_round_trip(leaves, sender_index);
    lemma_membership_round_trip(leaves, recipient_index);
    lemma_path_ignores_own_leaf(leaves, sender_index, sender_new);
    lemma_membership_round_trip(between, sender_index);
    lemma_membership_round_trip(between, recipient_index);
    lemma_path_ignores_own_leaf(between, recipient_index, recipient_new);
    lemma_membership_round_trip(after, recipient_index);
    lemma_membership_round_trip(after, sender_index);
    assert(leaf_value(between, recipient_index) == leaf_value(leaves, recipient_index));
    assert(leaf_value(after, sender_index) == sender_new);
}

} // verus!

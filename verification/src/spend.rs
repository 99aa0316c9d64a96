//! Spends: assembling the witness of a deposit, a withdrawal or a transfer
//! from the state, and applying a settled spend to it.

use vstd::prelude::*;
use crate::account::{holder_key, AccountSecret, PrivateAccount};
use crate::error::CoreError;
use crate::hexfmt::{hex_chars, hex_encode};
use crate::merkle::{field_values, lemma_membership_round_trip, path_root, proof_path, root_of};
use crate::poseidon::{
    be_bytes,
    be_value,
    bytes_to_field,
    commitment_of,
    field_to_bytes,
    modulus,
    nullifier_of,
    scalar_hex,
    u128_to_field,
    u64_to_field,
    FieldElement,
    PoseidonHasher,
};
use crate::state::{
    has_pubkey, leaf_stands, lemma_position_unique, position_of, StateManager, StateModel,
};
use crate::storage::pow256;
use crate::witness::{texts, DepositWitness, TransferWitness, WithdrawWitness};

verus! {

/// The hex forms of a list of numbers of the field.
pub open spec fn scalar_hexes(values: Seq<nat>) -> Seq<Seq<char>> {
    values.map_values(|v: nat| scalar_hex(v))
}

/// The recipient of a withdrawal as a number of the field: the address with
/// its last eight bytes set to zero, read big-endian. The first twelve bytes
/// of the address stand above eight zero bytes.
pub open spec fn packed_recipient(address: Seq<u8>) -> nat {
    be_value(address.subrange(0, 12)) * pow256(8)
}

/// The 32 bytes of a packed recipient: twelve zero bytes, the first twelve
/// bytes of the address, eight zero bytes.
pub open spec fn packed_recipient_bytes(address: Seq<u8>) -> Seq<u8> {
    Seq::new(
        32,
        |i: int|
            if 12 <= i < 24 {
                address[i - 12]
            } else {
                0u8
            },
    )
}

proof fn lemma_be_value_bound(s: Seq<u8>)
    ensures
        be_value(s) < pow256(s.len()),
    decreases s.len(),
{
    if s.len() > 0 {
        lemma_be_value_bound(s.drop_last());
    }
}

/// Bytes that follow shift the number before them up by their length.
proof fn lemma_be_value_concat(s: Seq<u8>, t: Seq<u8>)
    ensures
        be_value(s + t) == be_value(s) * pow256(t.len()) + be_value(t),
    decreases t.len(),
{
    if t.len() == 0 {
        assert(s + t =~= s);
        assert(pow256(0) == 1);
        assert(be_value(s) * 1 == be_value(s));
    } else {
        let head = t.drop_last();
        lemma_be_value_concat(s, head);
        assert((s + t).drop_last() =~= s + head);
        assert((s + t).last() == t.last());
        let a = be_value(s);
        let p = pow256(head.len());
        let b = be_value(head);
        let last = t.last() as nat;
        assert(be_value(s + t) == be_value(s + head) * 256 + last);
        assert(be_value(t) == b * 256 + last);
        assert(pow256(t.len()) == 256 * p);
        assert(be_value(s + head) == a * p + b);
        assert((a * p + b) * 256 + last == a * (256 * p) + (b * 256 + last)) by (nonlinear_arith);
        assert(be_value(s + t) == a * pow256(t.len()) + be_value(t));
    }
}

/// Zero bytes spell zero.
proof fn lemma_be_value_zeros(n: nat)
    ensures
        be_value(Seq::new(n, |i: int| 0u8)) == 0,
    decreases n,
{
    if n > 0 {
        lemma_be_value_zeros((n - 1) as nat);
        assert(Seq::new(n, |i: int| 0u8).drop_last() =~= Seq::new((n - 1) as nat, |i: int| 0u8));
    }
}

/// The bytes of a packed recipient spell its value, which is below the
/// field order.
pub proof fn lemma_packed_recipient(address: Seq<u8>)
    requires
        address.len() == 20,
    ensures
        be_value(packed_recipient_bytes(address)) == packed_recipient(address),
        packed_recipient(address) < pow256(20),
        packed_recipient(address) < modulus(),
{
    let head = address.subrange(0, 12);
    let front = Seq::new(12, |i: int| 0u8);
    let back = Seq::new(8, |i: int| 0u8);
    assert(packed_recipient_bytes(address) =~= (front + head) + back);
    lemma_be_value_zeros(12);
    lemma_be_value_zeros(8);
    lemma_be_value_concat(front, head);
    lemma_be_value_concat(front + head, back);
    lemma_be_value_bound(head);
    let h = be_value(head);
    assert(pow256(8) == 0x1_0000_0000_0000_0000 && pow256(12) == 0x1_0000_0000_0000_0000_0000_0000
        && pow256(20) == 0x1_0000_0000_0000_0000_0000_0000_0000_0000_0000_0000) by {
        reveal_with_fuel(pow256, 21);
    }
    assert(be_value(front + head) == h) by {
        assert(0 * pow256(12) == 0);
    }
    assert(packed_recipient(address) == h * 0x1_0000_0000_0000_0000);
}

/// Pack the 20-byte address of a recipient into a field element.
pub fn pack_recipient(address: &[u8; 20]) -> (f: FieldElement)
    ensures
        f@ == packed_recipient(address@),
        f.bytes_spec() == packed_recipient_bytes(address@),
{
    let mut bytes = [0u8; 32];
    let mut i: usize = 0;
    while i < 12
        invariant
            i <= 12,
            forall|k: int| 0 <= k < 32 && !(12 <= k < 12 + i) ==> bytes@[k] == 0u8,
            forall|k: int| 12 <= k < 12 + i ==> bytes@[k] == address@[k - 12],
        decreases 12 - i,
    {
        bytes[12 + i] = address[i];
        i += 1;
    }
    proof {
        assert(bytes@ =~= packed_recipient_bytes(address@));
        lemma_packed_recipient(address@);
    }
    bytes_to_field(&bytes)
}

/// What a deposit needs: the witness of the deposit circuit and the
/// commitment to send with the funds.
pub struct DepositPlan {
    pub witness: DepositWitness,
    pub commitment: [u8; 32],
}

/// Assemble the witness of a deposit of `amount` by the holder of `secret`.
pub fn prepare_deposit(secret: &AccountSecret, amount: u128, hasher: &mut PoseidonHasher) -> (plan:
    DepositPlan)
    ensures
        plan.commitment@ == be_bytes(commitment_of(secret.value(), amount as nat), 32),
        plan.witness.commitment@ == scalar_hex(commitment_of(secret.value(), amount as nat)),
        plan.witness.amount@ == scalar_hex(amount as nat),
        plan.witness.secret@ == scalar_hex(secret.value()),
{
    let commitment = secret.compute_deposit_commitment(hasher, amount);
    let amount_field = u128_to_field(amount);
    let secret_field = *secret.secret();
    proof {
        commitment.lemma_hex();
        amount_field.lemma_hex();
        secret_field.lemma_hex();
    }
    DepositPlan {
        witness: DepositWitness::new(commitment, amount_field, secret_field),
        commitment: field_to_bytes(&commitment),
    }
}

/// What a withdrawal needs: the witness of the withdrawal circuit, and the
/// nullifier and the root that go on chain with the proof.
pub struct WithdrawPlan {
    pub witness: WithdrawWitness,
    pub nullifier: [u8; 32],
    pub state_root: [u8; 32],
    pub account: PrivateAccount,
}

/// What a transfer needs: the witness of the transfer circuit and the
/// nullifier of the sender's spend.
pub struct TransferPlan {
    pub witness: TransferWitness,
    pub nullifier: [u8; 32],
    pub state_root: [u8; 32],
    pub account: PrivateAccount,
}

/// The holder's note, looked up for a spend of `amount`.
fn spender(state: &StateManager, secret: &AccountSecret, amount: u128, hasher: &mut PoseidonHasher) -> (r:
    Result<PrivateAccount, CoreError>)
    requires
        state.wf(),
    ensures
        !has_pubkey(state@.accounts, holder_key(secret.value())) ==> r is Err && r->Err_0
            is AccountNotFound && r->Err_0->AccountNotFound_0@ == hex_chars(
            holder_key(secret.value()),
        ),
        has_pubkey(state@.accounts, holder_key(secret.value())) ==> {
            let stored = state@.accounts[position_of(state@.accounts, holder_key(secret.value()))];
            &&& stored.balance < amount ==> r is Err && r->Err_0 is InsufficientBalance
                && r->Err_0->have == stored.balance && r->Err_0->need == amount
            &&& stored.balance >= amount ==> r == Ok::<PrivateAccount, CoreError>(stored)
        },
{
    let pubkey = field_to_bytes(&secret.derive_pubkey(hasher));
    match state.get_account(&pubkey) {
        Ok(Some(account)) => {
            proof {
                state.lemma_wf();
                let at = choose|at: int|
                    0 <= at < state@.accounts.len() && state@.accounts[at] == account;
                lemma_position_unique(state@, holder_key(secret.value()), at);
            }
            if account.balance < amount {
                Err(CoreError::InsufficientBalance { have: account.balance, need: amount })
            } else {
                Ok(account)
            }
        },
        _ => Err(CoreError::AccountNotFound(hex_encode(pubkey.as_slice()))),
    }
}

/// Assemble the witness of a withdrawal of `amount` to `recipient` from the
/// holder's note. The state is only read. The path is that of the note's
/// position: it leads from the note's leaf to the root where that leaf
/// stands in the tree, which it does once the note was created or updated
/// here, and not while the position holds the commitment of a deposit.
pub fn prepare_withdraw(
    state: &StateManager,
    secret: &AccountSecret,
    amount: u128,
    recipient: &[u8; 20],
    hasher: &mut PoseidonHasher,
) -> (r: Result<WithdrawPlan, CoreError>)
    requires
        state.wf(),
    ensures
        !has_pubkey(state@.accounts, holder_key(secret.value())) ==> r is Err && r->Err_0
            is AccountNotFound,
        has_pubkey(state@.accounts, holder_key(secret.value())) ==> {
            let stored = state@.accounts[position_of(state@.accounts, holder_key(secret.value()))];
            let nullifier = nullifier_of(secret.value(), stored.index as nat, stored.nonce as nat);
            &&& stored.balance < amount ==> r is Err && r->Err_0 is InsufficientBalance
                && r->Err_0->have == stored.balance && r->Err_0->need == amount
            &&& stored.balance >= amount ==> r is Ok && {
                let plan = r->Ok_0;
                &&& plan.account == stored
                &&& plan.nullifier@ == be_bytes(nullifier, 32)
                &&& plan.state_root@ == be_bytes(root_of(state@.leaves), 32)
                &&& plan.witness.state_root@ == scalar_hex(root_of(state@.leaves))
                &&& plan.witness.nullifier@ == scalar_hex(nullifier)
                &&& plan.witness.amount@ == scalar_hex(amount as nat)
                &&& plan.witness.recipient@ == scalar_hex(packed_recipient(recipient@))
                &&& plan.witness.secret@ == scalar_hex(secret.value())
                &&& plan.witness.balance@ == scalar_hex(stored.balance as nat)
                &&& plan.witness.nonce@ == scalar_hex(stored.nonce as nat)
                &&& plan.witness.index@ == scalar_hex(stored.index as nat)
                &&& texts(plan.witness.path@) == scalar_hexes(
                    proof_path(state@.leaves, stored.index as nat),
                )
                &&& leaf_stands(state@, stored) ==> path_root(
                    stored.leaf_spec(),
                    stored.index as nat,
                    proof_path(state@.leaves, stored.index as nat),
                ) == root_of(state@.leaves)
            }
        },
{
    let account = match spender(state, secret, amount, hasher) {
        Ok(a) => a,
        Err(e) => {
            return Err(e);
        },
    };
    proof {
        state.lemma_wf();
        lemma_membership_round_trip(state@.leaves, account.index as nat);
    }
    let nullifier = secret.compute_nullifier(hasher, account.index, account.nonce);
    let path = state.get_merkle_proof(account.index);
    let root = state.state_root();
    let recipient_field = pack_recipient(recipient);
    let amount_field = u128_to_field(amount);
    let balance_field = u128_to_field(account.balance);
    let nonce_field = u64_to_field(account.nonce);
    let index_field = u64_to_field(account.index);
    let secret_field = *secret.secret();
    let ghost values = field_values(path@);
    proof {
        root.lemma_hex();
        nullifier.lemma_hex();
        recipient_field.lemma_hex();
        amount_field.lemma_hex();
        balance_field.lemma_hex();
        nonce_field.lemma_hex();
        index_field.lemma_hex();
        secret_field.lemma_hex();
        assert(crate::witness::hex_forms(path@) =~= scalar_hexes(values)) by {
            assert forall|k: int| 0 <= k < path@.len() implies crate::witness::hex_forms(path@)[k]
                == scalar_hexes(values)[k] by {
                path@[k].lemma_hex();
            }
        }
    }
    let nullifier_bytes = field_to_bytes(&nullifier);
    let root_bytes = field_to_bytes(&root);
    match WithdrawWitness::new(
        root,
        nullifier,
        amount_field,
        recipient_field,
        secret_field,
        balance_field,
        nonce_field,
        index_field,
        path,
    ) {
        Ok(witness) => Ok(
            WithdrawPlan { witness, nullifier: nullifier_bytes, state_root: root_bytes, account },
        ),
        Err(_) => Err(CoreError::InvalidMerkleProof),
    }
}

/// Assemble the witness of a transfer of `amount` from the holder's note to
/// the holder of `recipient_pubkey`. The state is only read. The path is
/// that of the sender's position: it leads from the sender's leaf to the
/// root where that leaf stands in the tree.
pub fn prepare_transfer(
    state: &StateManager,
    secret: &AccountSecret,
    recipient_pubkey: &FieldElement,
    amount: u128,
    hasher: &mut PoseidonHasher,
) -> (r: Result<TransferPlan, CoreError>)
    requires
        state.wf(),
    ensures
        !has_pubkey(state@.accounts, holder_key(secret.value())) ==> r is Err && r->Err_0
            is AccountNotFound,
        has_pubkey(state@.accounts, holder_key(secret.value())) ==> {
            let stored = state@.accounts[position_of(state@.accounts, holder_key(secret.value()))];
            let nullifier = nullifier_of(secret.value(), stored.index as nat, stored.nonce as nat);
            &&& stored.balance < amount ==> r is Err && r->Err_0 is InsufficientBalance
                && r->Err_0->have == stored.balance && r->Err_0->need == amount
            &&& stored.balance >= amount ==> r is Ok && {
                let plan = r->Ok_0;
                &&& plan.account == stored
                &&& plan.nullifier@ == be_bytes(nullifier, 32)
                &&& plan.state_root@ == be_bytes(root_of(state@.leaves), 32)
                &&& plan.witness.old_state_root@ == scalar_hex(root_of(state@.leaves))
                &&& plan.witness.nullifier@ == scalar_hex(nullifier)
                &&& plan.witness.sender_secret@ == scalar_hex(secret.value())
                &&& plan.witness.sender_balance@ == scalar_hex(stored.balance as nat)
                &&& plan.witness.sender_nonce@ == scalar_hex(stored.nonce as nat)
                &&& plan.witness.sender_index@ == scalar_hex(stored.index as nat)
                &&& texts(plan.witness.sender_path@) == scalar_hexes(
                    proof_path(state@.leaves, stored.index as nat),
                )
                &&& plan.witness.recipient_pubkey@ == scalar_hex(recipient_pubkey@)
                &&& plan.witness.amount@ == scalar_hex(amount as nat)
                &&& leaf_stands(state@, stored) ==> path_root(
                    stored.leaf_spec(),
                    stored.index as nat,
                    proof_path(state@.leaves, stored.index as nat),
                ) == root_of(state@.leaves)
            }
        },
{
    let account = match spender(state, secret, amount, hasher) {
        Ok(a) => a,
        Err(e) => {
            return Err(e);
        },
    };
    proof {
        state.lemma_wf();
        lemma_membership_round_trip(state@.leaves, account.index as nat);
    }
    let nullifier = secret.compute_nullifier(hasher, account.index, account.nonce);
    let path = state.get_merkle_proof(account.index);
    let root = state.state_root();
    let amount_field = u128_to_field(amount);
    let balance_field = u128_to_field(account.balance);
    let nonce_field = u64_to_field(account.nonce);
    let index_field = u64_to_field(account.index);
    let secret_field = *secret.secret();
    let ghost values = field_values(path@);
    proof {
        root.lemma_hex();
        nullifier.lemma_hex();
        recipient_pubkey.lemma_hex();
        amount_field.lemma_hex();
        balance_field.lemma_hex();
        nonce_field.lemma_hex();
        index_field.lemma_hex();
        secret_field.lemma_hex();
        assert(crate::witness::hex_forms(path@) =~= scalar_hexes(values)) by {
            assert forall|k: int| 0 <= k < path@.len() implies crate::witness::hex_forms(path@)[k]
                == scalar_hexes(values)[k] by {
                path@[k].lemma_hex();
            }
        }
    }
    let nullifier_bytes = field_to_bytes(&nullifier);
    let root_bytes = field_to_bytes(&root);
    match TransferWitness::new(
        root,
        nullifier,
        secret_field,
        balance_field,
        nonce_field,
        index_field,
        path,
        *recipient_pubkey,
        amount_field,
    ) {
        Ok(witness) => Ok(
            TransferPlan { witness, nullifier: nullifier_bytes, state_root: root_bytes, account },
        ),
        Err(_) => Err(CoreError::InvalidMerkleProof),
    }
}

/// Why a spend cannot be settled, if it cannot.
pub ghost enum SpendBar {
    /// The holder has no note.
    NoAccount,
    /// The note holds less than the amount.
    Short,
    /// The nullifier of the spend is used already.
    Spent,
    /// The nonce of the note cannot advance.
    Exhausted,
}

/// What bars the spend of `amount` by the holder of `secret`, if anything.
pub open spec fn spend_bar(m: StateModel, secret: nat, amount: u128) -> Option<SpendBar> {
    let key = holder_key(secret);
    if !has_pubkey(m.accounts, key) {
        Some(SpendBar::NoAccount)
    } else {
        let stored = m.accounts[position_of(m.accounts, key)];
        if stored.balance < amount {
            Some(SpendBar::Short)
        } else if m.nullifiers.contains(
            be_bytes(nullifier_of(secret, stored.index as nat, stored.nonce as nat), 32),
        ) {
            Some(SpendBar::Spent)
        } else if stored.nonce == u64::MAX {
            Some(SpendBar::Exhausted)
        } else {
            None
        }
    }
}

/// The state after a spend of `amount` by the holder of `secret` was
/// settled: the note is debited, the tree holds the note's new leaf at its
/// position, and the nullifier of the spend is in the set.
pub open spec fn spent(m: StateModel, secret: nat, amount: u128) -> StateModel {
    let key = holder_key(secret);
    let at = position_of(m.accounts, key);
    let stored = m.accounts[at];
    let after = stored.debited(amount);
    StateModel {
        accounts: m.accounts.update(at, after),
        leaves: m.leaves.insert(stored.index as nat, after.leaf_spec()),
        nullifiers: m.nullifiers.push(
            be_bytes(nullifier_of(secret, stored.index as nat, stored.nonce as nat), 32),
        ),
        ..m
    }
}

/// Apply a settled spend of `amount` by the holder of `secret`: first the
/// note is debited and its leaf written, then the nullifier is marked. A
/// spend that cannot be settled changes nothing.
pub fn settle_spend(state: &mut StateManager, secret: &AccountSecret, amount: u128) -> (r: Result<
    PrivateAccount,
    CoreError,
>)
    requires
        old(state).wf(),
    ensures
        final(state).wf(),
        final(state).journal() == old(state).journal(),
        match spend_bar(old(state)@, secret.value(), amount) {
            None => r is Ok && final(state)@ == spent(old(state)@, secret.value(), amount)
                && r->Ok_0 == old(state)@.accounts[position_of(
                old(state)@.accounts,
                holder_key(secret.value()),
            )].debited(amount) && leaf_stands(final(state)@, r->Ok_0),
            Some(bar) => r is Err && final(state)@ == old(state)@ && match bar {
                SpendBar::NoAccount => r->Err_0 is AccountNotFound,
                SpendBar::Short => r->Err_0 is InsufficientBalance,
                SpendBar::Spent => r->Err_0 is NullifierUsed,
                SpendBar::Exhausted => r->Err_0 is Database,
            },
        },
{
    let pubkey = field_to_bytes(&secret.derive_pubkey(state.hasher()));
    let mut account = match state.get_account(&pubkey) {
        Ok(Some(account)) => account,
        _ => {
            return Err(CoreError::AccountNotFound(hex_encode(pubkey.as_slice())));
        },
    };
    let ghost before = state@;
    proof {
        state.lemma_wf();
        let at = choose|at: int| 0 <= at < before.accounts.len() && before.accounts[at] == account;
        lemma_position_unique(before, holder_key(secret.value()), at);
    }
    if account.balance < amount {
        return Err(CoreError::InsufficientBalance { have: account.balance, need: amount });
    }
    let nullifier = field_to_bytes(
        &secret.compute_nullifier(state.hasher(), account.index, account.nonce),
    );
    if state.is_nullifier_used(&nullifier) {
        return Err(CoreError::NullifierUsed(hex_encode(nullifier.as_slice())));
    }
    if account.nonce == u64::MAX {
        return Err(CoreError::Database(String::from_str("nonce cannot advance")));
    }
    let ghost stored = account;
    account.debit(amount);
    proof {
        assert(crate::state::has_index(before.accounts, account.index));
    }
    let _ = state.update_account(&account);
    proof {
        let at = position_of(before.accounts, holder_key(secret.value()));
        assert forall|k: int|
            0 <= k < before.accounts.len() && (#[trigger] before.accounts[k]).index
                == account.index implies k == at by {
            if k < at {
                assert(before.accounts[k].index < before.accounts[at].index);
            } else if at < k {
                assert(before.accounts[at].index < before.accounts[k].index);
            }
        }
        assert(stored.debited(amount) == account);
    }
    let _ = state.mark_nullifier_used(&nullifier);
    Ok(account)
}

} // verus!

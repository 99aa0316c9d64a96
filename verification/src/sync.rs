//! Chain synchronisation: how observed deposits, withdrawals and root
//! updates change the local state.
//!
//! Both ways of syncing, from the event log and from an indexer snapshot,
//! reduce what they observe to a sequence of steps and replay it. A leaf that
//! the tree holds already and a nullifier that the set holds already are
//! passed over, so replaying a sequence again changes nothing. The tree only
//! ever receives the leaves that the chain has; a recognized deposit adds to
//! the holder's note in the store and leaves the tree as the chain has it.

use vstd::prelude::*;
use crate::account::{holder_key, AccountSecret};
use crate::error::CoreError;
use crate::events::{DepositEvent, VeilocityEvent};
use crate::merkle::{root_of, MAX_LEAVES};
use crate::poseidon::{
    be_bytes, be_value, bytes_to_field, commitment_of, field_to_bytes, modulus, PoseidonHasher,
};
use crate::state::{
    deposit_credited, fill_gap, has_pubkey, lies_at_or_after, sound, StateManager, StateModel,
};
use crate::storage::same_bytes;

verus! {

/// Maximum blocks to scan per batch.
pub const BLOCKS_PER_BATCH: u64 = 10000;

/// One observation to replay.
#[derive(Debug, Clone, Copy)]
pub enum SyncStep {
    /// The chain's tree holds `commitment` at `index`; if the amount of the
    /// deposit behind it is known, it is given.
    Leaf { index: u64, commitment: [u8; 32], amount: Option<u128> },
    /// A spend with this nullifier was settled.
    Spend { nullifier: [u8; 32] },
    /// Something that changes nothing, such as a root update.
    Note,
}

/// What replaying one step did.
#[derive(Debug, Clone, Copy, PartialEq, Eq, Structural)]
pub enum StepOutcome {
    /// The leaf was appended; `ours` says whether it was recognized as a
    /// deposit of the holder.
    LeafAdded { ours: bool },
    /// The tree held the position already.
    LeafKnown,
    /// The nullifier was marked.
    NullifierAdded,
    /// The nullifier was marked before.
    NullifierKnown,
    /// Nothing to do.
    Noted,
}

/// What a replay did, in numbers.
#[derive(Debug, Clone, Copy, PartialEq, Eq, Structural)]
pub struct SyncStats {
    /// Leaves that the tree gained, gap fillers included.
    pub leaves_added: u64,
    /// Deposits recognized as the holder's.
    pub own_deposits_found: u64,
    /// Nullifiers that the set gained.
    pub nullifiers_added: u64,
}

/// Whether a commitment is that of a deposit of `amount` by the holder of
/// `secret`.
pub open spec fn is_holders(secret: nat, commitment: Seq<u8>, amount: u128) -> bool {
    commitment == be_bytes(commitment_of(secret, amount as nat), 32)
}

/// Whether a step shows a deposit of the holder.
pub open spec fn recognized(secret: nat, step: SyncStep) -> bool {
    step matches SyncStep::Leaf { commitment, amount, .. } && amount is Some && is_holders(
        secret,
        commitment@,
        amount->Some_0,
    )
}

/// The state after the tree took a leaf at `index`, with empty leaves before
/// it where positions were skipped.
pub open spec fn leaf_taken(m: StateModel, index: u64, commitment: Seq<u8>) -> StateModel {
    StateModel {
        leaf_count: (index + 1) as nat,
        leaves: fill_gap(m.leaves, m.leaf_count, index as nat).insert(
            index as nat,
            be_value(commitment) % modulus(),
        ),
        ..m
    }
}

/// The state after one step, or nothing where the tree cannot hold the leaf.
pub open spec fn step_applied(m: StateModel, secret: nat, step: SyncStep) -> Option<StateModel> {
    match step {
        SyncStep::Leaf { index, commitment, amount } => {
            if index < m.leaf_count {
                Some(m)
            } else if index >= MAX_LEAVES {
                None
            } else if recognized(secret, step) {
                deposit_credited(
                    leaf_taken(m, index, commitment@),
                    holder_key(secret),
                    index,
                    amount->Some_0,
                )
            } else {
                Some(leaf_taken(m, index, commitment@))
            }
        },
        SyncStep::Spend { nullifier } => {
            if m.nullifiers.contains(nullifier@) {
                Some(m)
            } else {
                Some(StateModel { nullifiers: m.nullifiers.push(nullifier@), ..m })
            }
        },
        SyncStep::Note => Some(m),
    }
}

/// The state after a sequence of steps, or nothing where one of them cannot
/// be applied.
pub open spec fn replayed(m: StateModel, secret: nat, steps: Seq<SyncStep>) -> Option<StateModel>
    decreases steps.len(),
{
    if steps.len() == 0 {
        Some(m)
    } else {
        match replayed(m, secret, steps.drop_last()) {
            Some(before) => step_applied(before, secret, steps.last()),
            None => None,
        }
    }
}

/// How many steps of a replay add a recognized deposit.
pub open spec fn own_deposits(m: StateModel, secret: nat, steps: Seq<SyncStep>) -> nat
    decreases steps.len(),
{
    if steps.len() == 0 {
        0
    } else {
        let counted = own_deposits(m, secret, steps.drop_last());
        match replayed(m, secret, steps.drop_last()) {
            Some(before) => if steps.last() matches SyncStep::Leaf { index, .. } && index
                >= before.leaf_count && recognized(secret, steps.last()) {
                counted + 1
            } else {
                counted
            },
            None => counted,
        }
    }
}

/// The step that an event of the vault stands for.
pub open spec fn step_of(event: VeilocityEvent) -> SyncStep {
    match event {
        VeilocityEvent::Deposit(d) => SyncStep::Leaf {
            index: d.leaf_index,
            commitment: d.commitment,
            amount: Some(d.amount),
        },
        VeilocityEvent::Withdrawal(w) => SyncStep::Spend { nullifier: w.nullifier },
        VeilocityEvent::StateRootUpdated(_) => SyncStep::Note,
    }
}

/// Whether a state is where a replay stopped: the steps before one that
/// cannot be applied were applied, and nothing else.
pub open spec fn stopped_at(
    m: StateModel,
    secret: nat,
    steps: Seq<SyncStep>,
    end: StateModel,
) -> bool {
    exists|k: int|
        0 <= k < steps.len() && #[trigger] replayed(m, secret, steps.take(k)) == Some(end)
            && step_applied(end, secret, steps[k]) is None
}

/// Whether one state has everything that makes another pass over a step:
/// at least its leaves and all its nullifiers.
pub open spec fn covers(later: StateModel, earlier: StateModel) -> bool {
    &&& earlier.leaf_count <= later.leaf_count
    &&& forall|n: Seq<u8>| earlier.nullifiers.contains(n) ==> later.nullifiers.contains(n)
}

/// A step leaves a sound state sound, never takes a leaf or a nullifier
/// away, and can be applied whenever the tree has room for its leaf.
pub proof fn lemma_step(m: StateModel, secret: nat, step: SyncStep)
    requires
        sound(m),
    ensures
        step_applied(m, secret, step) is Some ==> sound(step_applied(m, secret, step)->Some_0)
            && covers(step_applied(m, secret, step)->Some_0, m),
        step_applied(m, secret, step) is None <==> (step matches SyncStep::Leaf { index, .. }
            && index >= m.leaf_count && index >= MAX_LEAVES),
{
    match step {
        SyncStep::Leaf { index, commitment, amount } => {
            if index >= m.leaf_count && index < MAX_LEAVES {
                let grown = leaf_taken(m, index, commitment@);
                assert(sound(grown)) by {
                    assert forall|i: int| 0 <= i < grown.accounts.len() implies (
                    #[trigger] grown.accounts[i]).index < grown.leaf_count by {
                        assert(m.accounts[i].index < m.leaf_count);
                    }
                }
                if recognized(secret, step) {
                    let key = holder_key(secret);
                    if has_pubkey(grown.accounts, key) {
                        let at = crate::state::position_of(grown.accounts, key);
                        crate::state::lemma_update_keeps_sound(
                            grown,
                            at,
                            grown.accounts[at].credited(amount->Some_0),
                        );
                    } else {
                        assert(!lies_at_or_after(grown.accounts, index)) by {
                            if lies_at_or_after(grown.accounts, index) {
                                let k = choose|k: int|
                                    0 <= k < grown.accounts.len() && (#[trigger] grown.accounts[k]).index
                                        >= index;
                                assert(m.accounts[k].index < m.leaf_count);
                            }
                        }
                        let note = crate::account::PrivateAccount {
                            pubkey: crate::storage::bytes32(key),
                            balance: amount->Some_0,
                            nonce: 0,
                            index: index,
                        };
                        crate::poseidon::lemma_be_bytes_len(crate::poseidon::pubkey_of(secret), 32);
                        crate::storage::lemma_bytes32(key);
                        crate::state::lemma_append_keeps_sound(grown, note);
                    }
                }
            }
        },
        SyncStep::Spend { nullifier } => {
            if !m.nullifiers.contains(nullifier@) {
                let next = m.nullifiers.push(nullifier@);
                assert forall|n: Seq<u8>| m.nullifiers.contains(n) implies next.contains(n) by {
                    let k = choose|k: int| 0 <= k < m.nullifiers.len() && m.nullifiers[k] == n;
                    assert(next[k] == n);
                }
                assert(next.no_duplicates()) by {
                    assert forall|i: int, j: int|
                        0 <= i < next.len() && 0 <= j < next.len() && i != j implies next[i]
                        != next[j] by {
                        if i == m.nullifiers.len() {
                            assert(m.nullifiers[j] == next[j]);
                        } else if j == m.nullifiers.len() {
                            assert(m.nullifiers[i] == next[i]);
                        }
                    }
                }
            }
        },
        SyncStep::Note => {},
    }
}

/// A replay leaves a sound state sound and never takes a leaf or a nullifier
/// away.
pub proof fn lemma_replay(m: StateModel, secret: nat, steps: Seq<SyncStep>)
    requires
        sound(m),
    ensures
        replayed(m, secret, steps) is Some ==> sound(replayed(m, secret, steps)->Some_0) && covers(
            replayed(m, secret, steps)->Some_0,
            m,
        ),
    decreases steps.len(),
{
    if steps.len() > 0 {
        lemma_replay(m, secret, steps.drop_last());
        if replayed(m, secret, steps.drop_last()) is Some {
            lemma_step(replayed(m, secret, steps.drop_last())->Some_0, secret, steps.last());
        }
    }
}

/// A step that was applied once is passed over by every state that covers
/// the state it led to.
pub proof fn lemma_step_passed_over(m: StateModel, secret: nat, step: SyncStep, later: StateModel)
    requires
        sound(m),
        step_applied(m, secret, step) is Some,
        covers(later, step_applied(m, secret, step)->Some_0),
    ensures
        step_applied(later, secret, step) == Some(later),
{
    lemma_step(m, secret, step);
    match step {
        SyncStep::Leaf { index, commitment, amount } => {
            if index >= m.leaf_count {
                let grown = leaf_taken(m, index, commitment@);
                if recognized(secret, step) {
                    assert(step_applied(m, secret, step)->Some_0.leaf_count == grown.leaf_count);
                }
            }
        },
        SyncStep::Spend { nullifier } => {
            if !m.nullifiers.contains(nullifier@) {
                let next = m.nullifiers.push(nullifier@);
                assert(next[m.nullifiers.len() as int] == nullifier@);
                assert(next.contains(nullifier@));
            }
        },
        SyncStep::Note => {},
    }
}

/// Every step of a replay that went through is passed over by every state
/// that covers its result.
pub proof fn lemma_replay_passed_over(
    m: StateModel,
    secret: nat,
    steps: Seq<SyncStep>,
    later: StateModel,
)
    requires
        sound(m),
        replayed(m, secret, steps) is Some,
        covers(later, replayed(m, secret, steps)->Some_0),
    ensures
        replayed(later, secret, steps) == Some(later),
    decreases steps.len(),
{
    if steps.len() > 0 {
        let before = replayed(m, secret, steps.drop_last())->Some_0;
        lemma_replay(m, secret, steps.drop_last());
        lemma_step(before, secret, steps.last());
        lemma_replay_passed_over(m, secret, steps.drop_last(), later);
        lemma_step_passed_over(before, secret, steps.last(), later);
    }
}

/// Sync idempotence: replaying a sequence of steps on the state that it led
/// to changes nothing.
pub proof fn lemma_replay_idempotent(m: StateModel, secret: nat, steps: Seq<SyncStep>)
    requires
        sound(m),
        replayed(m, secret, steps) is Some,
    ensures
        replayed(replayed(m, secret, steps)->Some_0, secret, steps) == replayed(m, secret, steps),
{
    lemma_replay_passed_over(m, secret, steps, replayed(m, secret, steps)->Some_0);
}

/// Check if a deposit belongs to the holder of a secret: its commitment is
/// that of the deposited amount under the secret.
pub fn check_deposit_ownership(
    secret: &AccountSecret,
    deposit: &DepositEvent,
    hasher: &mut PoseidonHasher,
) -> (ours: bool)
    ensures
        ours == is_holders(secret.value(), deposit.commitment@, deposit.amount),
{
    let expected = secret.compute_deposit_commitment(hasher, deposit.amount);
    let expected_bytes = field_to_bytes(&expected);
    same_bytes(&expected_bytes, &deposit.commitment)
}

/// Take the leaf of a deposit into the tree. A position that the tree holds
/// already is passed over; positions that were skipped are filled with the
/// empty leaf. Returns whether the leaf was appended.
pub fn process_deposit(state: &mut StateManager, deposit: &DepositEvent) -> (r: Result<
    bool,
    CoreError,
>)
    requires
        old(state).wf(),
    ensures
        final(state).wf(),
        final(state).journal() == old(state).journal(),
        deposit.leaf_index < old(state)@.leaf_count ==> r == Ok::<bool, CoreError>(false) && final(state)@ == old(state)@,
        old(state)@.leaf_count <= deposit.leaf_index < MAX_LEAVES ==> r == Ok::<bool, CoreError>(true)
            && final(state)@ == leaf_taken(old(state)@, deposit.leaf_index, deposit.commitment@),
        old(state)@.leaf_count <= deposit.leaf_index && deposit.leaf_index >= MAX_LEAVES ==> r is Err
            && r->Err_0 is TreeFull && final(state)@ == old(state)@,
{
    take_leaf(state, deposit.leaf_index, &deposit.commitment)
}

/// Take a leaf of the chain's tree into the local tree.
fn take_leaf(state: &mut StateManager, index: u64, commitment: &[u8; 32]) -> (r: Result<
    bool,
    CoreError,
>)
    requires
        old(state).wf(),
    ensures
        final(state).wf(),
        final(state).journal() == old(state).journal(),
        index < old(state)@.leaf_count ==> r == Ok::<bool, CoreError>(false) && final(state)@ == old(state)@,
        old(state)@.leaf_count <= index < MAX_LEAVES ==> r == Ok::<bool, CoreError>(true) && final(state)@ == leaf_taken(old(state)@, index, commitment@),
        old(state)@.leaf_count <= index && index >= MAX_LEAVES ==> r is Err && r->Err_0 is TreeFull
            && final(state)@ == old(state)@,
{
    let expected_index = state.leaf_count();
    if index < expected_index {
        return Ok(false);
    }
    if index >= MAX_LEAVES {
        return Err(CoreError::TreeFull);
    }
    let ghost start = state@;
    proof {
        state.lemma_wf();
        assert(fill_gap(start.leaves, start.leaf_count, start.leaf_count) =~= start.leaves);
    }
    while state.leaf_count() < index
        invariant
            state.wf(),
            start == old(state)@,
            start.leaf_count <= state@.leaf_count <= index < MAX_LEAVES,
            state@ == (StateModel {
                leaf_count: state@.leaf_count,
                leaves: fill_gap(start.leaves, start.leaf_count, state@.leaf_count),
                ..start
            }),
            state.journal() == old(state).journal(),
        decreases index - state@.leaf_count,
    {
        let ghost count = state@.leaf_count;
        let empty = state.tree().empty_hash(0);
        let _ = state.insert_leaf(empty);
        proof {
            assert(fill_gap(start.leaves, start.leaf_count, count).insert(
                count,
                crate::merkle::empty_subtree(0),
            ) =~= fill_gap(start.leaves, start.leaf_count, count + 1));
        }
    }
    let commitment_field = bytes_to_field(commitment);
    let _ = state.insert_leaf(commitment_field);
    Ok(true)
}

/// Create or credit the holder's note for a recognized deposit.
pub fn create_account_from_deposit(
    state: &mut StateManager,
    secret: &AccountSecret,
    deposit: &DepositEvent,
) -> (r: Result<(), CoreError>)
    requires
        old(state).wf(),
    ensures
        final(state).wf(),
        final(state).journal() == old(state).journal(),
        match deposit_credited(
            old(state)@,
            holder_key(secret.value()),
            deposit.leaf_index,
            deposit.amount,
        ) {
            Some(m) => r is Ok && final(state)@ == m,
            None => r is Err && r->Err_0 is Database && final(state)@ == old(state)@,
        },
{
    match state.credit_deposit(secret, deposit.leaf_index, deposit.amount) {
        Ok(_) => Ok(()),
        Err(e) => Err(e),
    }
}

/// Replay one step on the state.
pub fn apply_step(state: &mut StateManager, secret: &AccountSecret, step: &SyncStep) -> (r: Result<
    StepOutcome,
    CoreError,
>)
    requires
        old(state).wf(),
    ensures
        final(state).wf(),
        final(state).journal() == old(state).journal(),
        match step_applied(old(state)@, secret.value(), *step) {
            Some(m) => r is Ok && final(state)@ == m && r->Ok_0 == outcome_of(
                old(state)@,
                secret.value(),
                *step,
            ),
            None => r is Err && r->Err_0 is TreeFull && final(state)@ == old(state)@,
        },
{
    proof {
        state.lemma_wf();
        lemma_step(state@, secret.value(), *step);
    }
    match step {
        SyncStep::Leaf { index, commitment, amount } => {
            let ours = match amount {
                Some(a) => {
                    let expected = secret.compute_deposit_commitment(state.hasher(), *a);
                    let expected_bytes = field_to_bytes(&expected);
                    same_bytes(&expected_bytes, commitment)
                },
                None => false,
            };
            match take_leaf(state, *index, commitment) {
                Err(e) => Err(e),
                Ok(false) => Ok(StepOutcome::LeafKnown),
                Ok(true) => {
                    if ours {
                        match amount {
                            Some(a) => {
                                let credited = state.credit_deposit(secret, *index, *a);
                                assert(credited is Ok);
                            },
                            None => {},
                        }
                    }
                    Ok(StepOutcome::LeafAdded { ours })
                },
            }
        },
        SyncStep::Spend { nullifier } => {
            if state.is_nullifier_used(nullifier) {
                Ok(StepOutcome::NullifierKnown)
            } else {
                let _ = state.mark_nullifier_used(nullifier);
                Ok(StepOutcome::NullifierAdded)
            }
        },
        SyncStep::Note => Ok(StepOutcome::Noted),
    }
}

/// What replaying a step on a state reports.
pub open spec fn outcome_of(m: StateModel, secret: nat, step: SyncStep) -> StepOutcome {
    match step {
        SyncStep::Leaf { index, .. } => if index < m.leaf_count {
            StepOutcome::LeafKnown
        } else {
            StepOutcome::LeafAdded { ours: recognized(secret, step) }
        },
        SyncStep::Spend { nullifier } => if m.nullifiers.contains(nullifier@) {
            StepOutcome::NullifierKnown
        } else {
            StepOutcome::NullifierAdded
        },
        SyncStep::Note => StepOutcome::Noted,
    }
}

/// The step that an event stands for.
pub fn event_step(event: &VeilocityEvent) -> (step: SyncStep)
    ensures
        step == step_of(*event),
{
    match event {
        VeilocityEvent::Deposit(d) => SyncStep::Leaf {
            index: d.leaf_index,
            commitment: d.commitment,
            amount: Some(d.amount),
        },
        VeilocityEvent::Withdrawal(w) => SyncStep::Spend { nullifier: w.nullifier },
        VeilocityEvent::StateRootUpdated(_) => SyncStep::Note,
    }
}

/// Replay steps in their order. The replay stops at the first step that
/// cannot be applied, with the steps before it applied.
pub fn replay_steps(state: &mut StateManager, secret: &AccountSecret, steps: &Vec<SyncStep>) -> (r:
    Result<SyncStats, CoreError>)
    requires
        old(state).wf(),
    ensures
        final(state).wf(),
        final(state).journal() == old(state).journal(),
        final(state)@.checkpoint == old(state)@.checkpoint,
        match replayed(old(state)@, secret.value(), steps@) {
            Some(m) => r is Ok && final(state)@ == m && r->Ok_0.leaves_added == m.leaf_count - old(state)@.leaf_count && r->Ok_0.nullifiers_added == m.nullifiers.len() - old(state)@.nullifiers.len() && r->Ok_0.own_deposits_found == own_deposits(
                old(state)@,
                secret.value(),
                steps@,
            ),
            None => r is Err && r->Err_0 is TreeFull && stopped_at(
                old(state)@,
                secret.value(),
                steps@,
                final(state)@,
            ),
        },
{
    let ghost start = state@;
    let first_count = state.leaf_count();
    let mut own: u64 = 0;
    let mut marked: u64 = 0;
    let mut i: usize = 0;
    proof {
        state.lemma_wf();
    }
    while i < steps.len()
        invariant
            i <= steps@.len(),
            state.wf(),
            start == old(state)@,
            sound(start),
            first_count == start.leaf_count,
            state.journal() == old(state).journal(),
            replayed(start, secret.value(), steps@.take(i as int)) == Some(state@),
            own == own_deposits(start, secret.value(), steps@.take(i as int)),
            own <= i,
            marked <= i,
            marked == state@.nullifiers.len() - start.nullifiers.len(),
            state@.leaf_count >= start.leaf_count,
            state@.checkpoint == start.checkpoint,
        decreases steps@.len() - i,
    {
        let ghost before = state@;
        proof {
            assert(steps@.take(i + 1).drop_last() =~= steps@.take(i as int));
            assert(steps@.take(i + 1).last() == steps@[i as int]);
            state.lemma_wf();
            lemma_step(before, secret.value(), steps@[i as int]);
        }
        match apply_step(state, secret, &steps[i]) {
            Err(e) => {
                proof {
                    lemma_replay_stops(start, secret.value(), steps@, i + 1);
                    assert(replayed(start, secret.value(), steps@.take(i as int)) == Some(state@));
                }
                return Err(e);
            },
            Ok(outcome) => {
                match outcome {
                    StepOutcome::LeafAdded { ours } => {
                        if ours {
                            own += 1;
                        }
                    },
                    StepOutcome::NullifierAdded => {
                        marked += 1;
                    },
                    _ => {},
                }
            },
        }
        i += 1;
    }
    proof {
        assert(steps@.take(i as int) =~= steps@);
    }
    Ok(
        SyncStats {
            leaves_added: state.leaf_count() - first_count,
            own_deposits_found: own,
            nullifiers_added: marked,
        },
    )
}

/// A replay that has stopped stays stopped.
pub proof fn lemma_replay_stops(m: StateModel, secret: nat, steps: Seq<SyncStep>, k: int)
    requires
        0 <= k <= steps.len(),
        replayed(m, secret, steps.take(k)) is None,
    ensures
        replayed(m, secret, steps) is None,
    decreases steps.len() - k,
{
    if k < steps.len() {
        assert(steps.take(k + 1).drop_last() =~= steps.take(k));
        lemma_replay_stops(m, secret, steps, k + 1);
    } else {
        assert(steps.take(k) =~= steps);
    }
}

/// The steps that a list of events stands for.
pub open spec fn steps_of(events: Seq<VeilocityEvent>) -> Seq<SyncStep> {
    events.map_values(|e: VeilocityEvent| step_of(e))
}

/// Replay the events of a block range in their order.
pub fn apply_events(state: &mut StateManager, secret: &AccountSecret, events: &Vec<VeilocityEvent>) -> (r:
    Result<SyncStats, CoreError>)
    requires
        old(state).wf(),
    ensures
        final(state).wf(),
        final(state).journal() == old(state).journal(),
        final(state)@.checkpoint == old(state)@.checkpoint,
        match replayed(old(state)@, secret.value(), steps_of(events@)) {
            Some(m) => r is Ok && final(state)@ == m && r->Ok_0.leaves_added == m.leaf_count - old(state)@.leaf_count && r->Ok_0.nullifiers_added == m.nullifiers.len() - old(state)@.nullifiers.len() && r->Ok_0.own_deposits_found == own_deposits(
                old(state)@,
                secret.value(),
                steps_of(events@),
            ),
            None => r is Err && r->Err_0 is TreeFull && stopped_at(
                old(state)@,
                secret.value(),
                steps_of(events@),
                final(state)@,
            ),
        },
{
    let mut steps: Vec<SyncStep> = Vec::new();
    let mut i: usize = 0;
    while i < events.len()
        invariant
            i <= events@.len(),
            steps@ == steps_of(events@).take(i as int),
        decreases events@.len() - i,
    {
        steps.push(event_step(&events[i]));
        proof {
            assert(steps@ =~= steps_of(events@).take(i + 1));
        }
        i += 1;
    }
    proof {
        assert(steps_of(events@).take(i as int) =~= steps_of(events@));
    }
    replay_steps(state, secret, &steps)
}

/// Replay the events of one batch and, if all of them went through, move
/// the sync checkpoint to the last block of the batch.
pub fn sync_batch(
    state: &mut StateManager,
    secret: &AccountSecret,
    events: &Vec<VeilocityEvent>,
    to_block: u64,
) -> (r: Result<SyncStats, CoreError>)
    requires
        old(state).wf(),
    ensures
        final(state).wf(),
        final(state).journal() == old(state).journal(),
        match replayed(old(state)@, secret.value(), steps_of(events@)) {
            Some(m) => r is Ok && final(state)@ == (StateModel { checkpoint: Some(to_block), ..m }),
            None => r is Err && r->Err_0 is TreeFull && stopped_at(
                old(state)@,
                secret.value(),
                steps_of(events@),
                final(state)@,
            ),
        },
{
    match apply_events(state, secret, events) {
        Err(e) => Err(e),
        Ok(stats) => {
            let _ = state.set_sync_checkpoint(to_block);
            Ok(stats)
        },
    }
}

/// The first block that a sync has to scan: the block after the checkpoint,
/// but not before the block in which the vault was deployed. Nothing is left
/// to scan behind the last block that a block number can name.
pub fn first_block(checkpoint: Option<u64>, deployment_block: u64) -> (from: Option<u64>)
    ensures
        from == (match checkpoint {
            None => Some(deployment_block),
            Some(c) => if c == u64::MAX {
                None
            } else if c + 1 >= deployment_block {
                Some((c + 1) as u64)
            } else {
                Some(deployment_block)
            },
        }),
        from is Some ==> from->Some_0 >= deployment_block,
        from is Some && checkpoint is Some ==> from->Some_0 > checkpoint->Some_0,
{
    match checkpoint {
        None => Some(deployment_block),
        Some(c) => {
            if c == u64::MAX {
                None
            } else if c + 1 >= deployment_block {
                Some(c + 1)
            } else {
                Some(deployment_block)
            }
        },
    }
}

/// The next batch of a scan from `from` up to the head of the chain: at most
/// [`BLOCKS_PER_BATCH`] blocks, and none where the head lies before `from`.
pub fn next_batch(from: u64, head: u64) -> (batch: Option<(u64, u64)>)
    ensures
        from > head ==> batch is None,
        from <= head ==> batch == Some(
            (from, if head - from >= BLOCKS_PER_BATCH {
                (from + BLOCKS_PER_BATCH - 1) as u64
            } else {
                head
            }),
        ),
        batch is Some ==> batch->Some_0.0 == from && from <= batch->Some_0.1 <= head
            && batch->Some_0.1 - from < BLOCKS_PER_BATCH,
{
    if from > head {
        None
    } else if head - from >= BLOCKS_PER_BATCH {
        Some((from, from + (BLOCKS_PER_BATCH - 1)))
    } else {
        Some((from, head))
    }
}

/// Whether the local root is the root that the chain reports.
pub fn roots_match(state: &StateManager, chain_root: &[u8; 32]) -> (same: bool)
    requires
        state.wf(),
    ensures
        same == (chain_root@ == be_bytes(root_of(state@.leaves), 32)),
{
    let local = field_to_bytes(&state.state_root());
    same_bytes(&local, chain_root)
}

} // verus!

//! Syncing from an indexer: what a snapshot of the chain's state says, and
//! how it is replayed on the local state.

use vstd::prelude::*;
use crate::account::AccountSecret;
use crate::decimal::{parse_u128, parsed_u128};
use crate::error::CoreError;
use crate::hexfmt::{
    has_0x, hex_chars, hex_decode, is_hex, lemma_hex_round_trip, trim_0x, trim_hex_prefix, unhex,
};
use crate::merkle::{root_of, MAX_LEAVES};
use crate::poseidon::{be_bytes, field_to_bytes};
use crate::state::{empty_state, fill_gap, sound, StateManager, StateModel};
use crate::storage::{bytes32, lemma_bytes32, same_bytes};
use crate::indexer::leaf_map;
use crate::sync::{
    leaf_taken, lemma_step, own_deposits, replay_steps, replayed, step_applied, stopped_at,
    SyncStats, SyncStep,
};

verus! {

/// The state of the chain as an indexer reports it.
#[derive(Debug, Clone)]
pub struct SyncStateResponse {
    /// Current Merkle root (hex).
    pub state_root: String,
    /// All leaves in the order of their positions (hex).
    pub leaves: Vec<String>,
    /// Used nullifiers (hex).
    pub nullifiers: Vec<String>,
    /// Last synced block.
    pub last_block: u64,
    /// Deposit count.
    pub deposit_count: u64,
    /// Value locked in the vault, in wei, in decimal.
    pub tvl_wei: String,
    /// Whether the indexer is still catching up.
    pub is_syncing: bool,
    /// Sync progress in percent.
    pub sync_progress: u8,
}

/// A deposit as an indexer reports it.
#[derive(Debug, Clone)]
pub struct DepositInfo {
    pub commitment: String,
    /// Amount in wei, in decimal.
    pub amount_wei: String,
    pub leaf_index: u64,
    pub block_number: u64,
    pub tx_hash: String,
}

/// The 32 bytes that a hex scalar spells, with or without `0x` before its
/// digits.
pub open spec fn parsed_bytes32(s: Seq<char>) -> Option<Seq<u8>> {
    let digits = trim_0x(s);
    if is_hex(digits) && digits.len() == 64 {
        Some(unhex(digits))
    } else {
        None
    }
}

/// The amount of the first deposit that is reported for a position; an
/// amount that does not read as a number counts as zero.
pub open spec fn known_amount(deposits: Seq<DepositInfo>, index: u64) -> Option<u128>
    decreases deposits.len(),
{
    if deposits.len() == 0 {
        None
    } else if deposits[0].leaf_index == index {
        Some(
            match parsed_u128(deposits[0].amount_wei@) {
                Some(a) => a,
                None => 0,
            },
        )
    } else {
        known_amount(deposits.skip(1), index)
    }
}

/// Whether every leaf and every nullifier of a snapshot is a hex scalar.
pub open spec fn well_formed(leaves: Seq<String>, nullifiers: Seq<String>) -> bool {
    &&& forall|i: int| 0 <= i < leaves.len() ==> parsed_bytes32((#[trigger] leaves[i])@) is Some
    &&& forall|i: int|
        0 <= i < nullifiers.len() ==> parsed_bytes32((#[trigger] nullifiers[i])@) is Some
}

/// The steps that a snapshot stands for: its leaves in the order of their
/// positions, each with the amount that is reported for it, and then its
/// nullifiers.
pub open spec fn snapshot_steps_spec(
    leaves: Seq<String>,
    nullifiers: Seq<String>,
    deposits: Seq<DepositInfo>,
) -> Seq<SyncStep> {
    Seq::new(
        leaves.len() + nullifiers.len(),
        |i: int|
            if i < leaves.len() {
                SyncStep::Leaf {
                    index: i as u64,
                    commitment: bytes32(parsed_bytes32(leaves[i]@)->Some_0),
                    amount: known_amount(deposits, i as u64),
                }
            } else {
                SyncStep::Spend {
                    nullifier: bytes32(parsed_bytes32(nullifiers[i - leaves.len()]@)->Some_0),
                }
            },
    )
}

/// The root that a snapshot reports: the bytes that its hex digits spell,
/// and 32 zero bytes where they spell none.
pub open spec fn reported_root(s: Seq<char>) -> Seq<u8> {
    let digits = trim_0x(s);
    if is_hex(digits) {
        unhex(digits)
    } else {
        Seq::new(32, |i: int| 0u8)
    }
}

/// What syncing from a snapshot did.
#[derive(Debug, Clone, Copy)]
pub struct SnapshotReport {
    pub stats: SyncStats,
    /// Whether the local root is the root that the snapshot reports.
    pub root_matches: bool,
}

/// Read a hex scalar of 32 bytes.
pub fn parse_bytes32(s: &str) -> (r: Option<[u8; 32]>)
    ensures
        r is Some <==> parsed_bytes32(s@) is Some,
        r is Some ==> r->Some_0@ == parsed_bytes32(s@)->Some_0 && r->Some_0 == bytes32(
            parsed_bytes32(s@)->Some_0,
        ),
{
    let digits = trim_hex_prefix(s);
    match hex_decode(digits) {
        Err(_) => None,
        Ok(bytes) => {
            if bytes.len() != 32 {
                return None;
            }
            let arr = crate::storage::decode_pubkey(bytes.as_slice());
            proof {
                lemma_bytes32(bytes@);
            }
            Some(arr)
        },
    }
}

/// The amount that is reported for a position.
pub fn lookup_amount(deposits: &Vec<DepositInfo>, index: u64) -> (r: Option<u128>)
    ensures
        r == known_amount(deposits@, index),
{
    let mut i: usize = 0;
    assert(deposits@.skip(0) =~= deposits@);
    while i < deposits.len()
        invariant
            i <= deposits@.len(),
            known_amount(deposits@, index) == known_amount(deposits@.skip(i as int), index),
        decreases deposits@.len() - i,
    {
        proof {
            assert(deposits@.skip(i as int)[0] == deposits@[i as int]);
            assert(deposits@.skip(i as int).skip(1) =~= deposits@.skip(i + 1));
        }
        if deposits[i].leaf_index == index {
            return Some(
                match parse_u128(deposits[i].amount_wei.as_str()) {
                    Some(a) => a,
                    None => 0,
                },
            );
        }
        i += 1;
    }
    None
}

/// The steps that a snapshot stands for. A snapshot with a leaf or a
/// nullifier that is no hex scalar of 32 bytes is refused as a whole.
pub fn snapshot_steps(snapshot: &SyncStateResponse, deposits: &Vec<DepositInfo>) -> (r: Result<
    Vec<SyncStep>,
    CoreError,
>)
    ensures
        well_formed(snapshot.leaves@, snapshot.nullifiers@) ==> r is Ok && r->Ok_0@
            == snapshot_steps_spec(snapshot.leaves@, snapshot.nullifiers@, deposits@),
        !well_formed(snapshot.leaves@, snapshot.nullifiers@) ==> r is Err && r->Err_0
            is InvalidFieldElement,
{
    let ghost want = snapshot_steps_spec(snapshot.leaves@, snapshot.nullifiers@, deposits@);
    let mut steps: Vec<SyncStep> = Vec::new();
    let mut i: usize = 0;
    while i < snapshot.leaves.len()
        invariant
            i <= snapshot.leaves@.len(),
            steps@.len() == i,
            want == snapshot_steps_spec(snapshot.leaves@, snapshot.nullifiers@, deposits@),
            forall|k: int| 0 <= k < i ==> parsed_bytes32((#[trigger] snapshot.leaves@[k])@) is Some,
            forall|k: int| 0 <= k < i ==> steps@[k] == want[k],
        decreases snapshot.leaves@.len() - i,
    {
        match parse_bytes32(snapshot.leaves[i].as_str()) {
            None => {
                return Err(CoreError::InvalidFieldElement);
            },
            Some(leaf) => {
                let amount = lookup_amount(deposits, i as u64);
                steps.push(SyncStep::Leaf { index: i as u64, commitment: leaf, amount });
            },
        }
        i += 1;
    }
    let mut j: usize = 0;
    while j < snapshot.nullifiers.len()
        invariant
            j <= snapshot.nullifiers@.len(),
            i == snapshot.leaves@.len(),
            steps@.len() == i + j,
            want == snapshot_steps_spec(snapshot.leaves@, snapshot.nullifiers@, deposits@),
            forall|k: int|
                0 <= k < snapshot.leaves@.len() ==> parsed_bytes32(
                    (#[trigger] snapshot.leaves@[k])@,
                ) is Some,
            forall|k: int|
                0 <= k < j ==> parsed_bytes32((#[trigger] snapshot.nullifiers@[k])@) is Some,
            forall|k: int| 0 <= k < i + j ==> steps@[k] == want[k],
        decreases snapshot.nullifiers@.len() - j,
    {
        match parse_bytes32(snapshot.nullifiers[j].as_str()) {
            None => {
                return Err(CoreError::InvalidFieldElement);
            },
            Some(nullifier) => {
                steps.push(SyncStep::Spend { nullifier });
            },
        }
        j += 1;
    }
    assert(steps@ =~= want);
    Ok(steps)
}

/// Whether the local root is the root that a snapshot reports.
pub fn root_reported(state: &StateManager, reported: &str) -> (same: bool)
    requires
        state.wf(),
    ensures
        same == (reported_root(reported@) == be_bytes(root_of(state@.leaves), 32)),
{
    let local = field_to_bytes(&state.state_root());
    let digits = trim_hex_prefix(reported);
    match hex_decode(digits) {
        Ok(bytes) => {
            if bytes.len() != 32 {
                return false;
            }
            let arr = crate::storage::decode_pubkey(bytes.as_slice());
            same_bytes(&local, &arr)
        },
        Err(_) => {
            let zero = [0u8; 32];
            assert(zero@ =~= Seq::new(32, |i: int| 0u8));
            same_bytes(&local, &zero)
        },
    }
}

/// Sync from a snapshot: its leaves are appended where the local tree is
/// shorter, deposits of the holder among the appended leaves are credited,
/// its nullifiers are joined to the set, and the sync checkpoint moves to
/// the snapshot's last block. Whether the roots agree is reported, not
/// enforced.
pub fn sync_from_snapshot(
    state: &mut StateManager,
    secret: &AccountSecret,
    snapshot: &SyncStateResponse,
    deposits: &Vec<DepositInfo>,
) -> (r: Result<SnapshotReport, CoreError>)
    requires
        old(state).wf(),
    ensures
        final(state).wf(),
        final(state).journal() == old(state).journal(),
        !well_formed(snapshot.leaves@, snapshot.nullifiers@) ==> r is Err && r->Err_0
            is InvalidFieldElement && final(state)@ == old(state)@,
        well_formed(snapshot.leaves@, snapshot.nullifiers@) ==> match replayed(
            old(state)@,
            secret.value(),
            snapshot_steps_spec(snapshot.leaves@, snapshot.nullifiers@, deposits@),
        ) {
            Some(m) => r is Ok && final(state)@ == (StateModel {
                checkpoint: Some(snapshot.last_block),
                ..m
            }) && r->Ok_0.root_matches == (reported_root(snapshot.state_root@) == be_bytes(
                root_of(m.leaves),
                32,
            )) && r->Ok_0.stats.own_deposits_found == own_deposits(
                old(state)@,
                secret.value(),
                snapshot_steps_spec(snapshot.leaves@, snapshot.nullifiers@, deposits@),
            ),
            None => r is Err && r->Err_0 is TreeFull && stopped_at(
                old(state)@,
                secret.value(),
                snapshot_steps_spec(snapshot.leaves@, snapshot.nullifiers@, deposits@),
                final(state)@,
            ),
        },
{
    let steps = match snapshot_steps(snapshot, deposits) {
        Ok(steps) => steps,
        Err(e) => {
            return Err(e);
        },
    };
    let stats = match replay_steps(state, secret, &steps) {
        Ok(stats) => stats,
        Err(e) => {
            return Err(e);
        },
    };
    let _ = state.set_sync_checkpoint(snapshot.last_block);
    let root_matches = root_reported(state, snapshot.state_root.as_str());
    Ok(SnapshotReport { stats, root_matches })
}

/// Whether a list of texts is the hex form of a list of 32-byte values.
pub open spec fn serves(texts: Seq<String>, items: Seq<Seq<u8>>) -> bool {
    &&& texts.len() == items.len()
    &&& forall|i: int|
        0 <= i < items.len() ==> (#[trigger] items[i]).len() == 32 && texts[i]@ == seq!['0', 'x']
            + hex_chars(items[i])
}

/// The hex form of 32 bytes reads back as those bytes.
pub proof fn lemma_served_scalar(text: Seq<char>, bytes: Seq<u8>)
    requires
        bytes.len() == 32,
        text == seq!['0', 'x'] + hex_chars(bytes),
    ensures
        parsed_bytes32(text) == Some(bytes),
{
    let digits = hex_chars(bytes);
    lemma_hex_round_trip(bytes);
    assert(has_0x(text));
    assert(text.subrange(2, text.len() as int) =~= digits);
    assert(trim_0x(digits) == digits);
    assert(trim_0x(text) == digits);
}

proof fn lemma_served_leaves(
    secret: nat,
    leaves_text: Seq<String>,
    nullifiers_text: Seq<String>,
    deposits: Seq<DepositInfo>,
    leaves: Seq<Seq<u8>>,
    nullifiers: Seq<Seq<u8>>,
    k: int,
)
    requires
        serves(leaves_text, leaves),
        serves(nullifiers_text, nullifiers),
        leaves.len() <= MAX_LEAVES,
        0 <= k <= leaves.len(),
    ensures
        ({
            let steps = snapshot_steps_spec(leaves_text, nullifiers_text, deposits);
            let end = replayed(empty_state(), secret, steps.take(k));
            &&& end is Some
            &&& sound(end->Some_0)
            &&& end->Some_0.leaf_count == k
            &&& end->Some_0.leaves == leaf_map(leaves.take(k))
            &&& end->Some_0.nullifiers.len() == 0
        }),
    decreases k,
{
    let steps = snapshot_steps_spec(leaves_text, nullifiers_text, deposits);
    if k == 0 {
        assert(steps.take(0) =~= Seq::<SyncStep>::empty());
        assert(leaf_map(leaves.take(0)) =~= Map::<nat, nat>::empty());
    } else {
        lemma_served_leaves(secret, leaves_text, nullifiers_text, deposits, leaves, nullifiers, k - 1);
        assert(steps.take(k).drop_last() =~= steps.take(k - 1));
        let step = steps[k - 1];
        assert(steps.take(k).last() == step);
        let before = replayed(empty_state(), secret, steps.take(k - 1))->Some_0;
        lemma_served_scalar(leaves_text[k - 1]@, leaves[k - 1]);
        lemma_bytes32(leaves[k - 1]);
        lemma_step(before, secret, step);
        let commitment = bytes32(leaves[k - 1]);
        let grown = leaf_taken(before, (k - 1) as u64, commitment@);
        assert(grown.leaves =~= leaf_map(leaves.take(k))) by {
            assert(fill_gap(before.leaves, before.leaf_count, (k - 1) as nat) =~= before.leaves);
            assert forall|p: nat| p < k implies #[trigger] grown.leaves[p] == leaf_map(
                leaves.take(k),
            )[p] by {
                if p < k - 1 {
                    assert(leaves.take(k - 1)[p as int] == leaves.take(k)[p as int]);
                }
            }
        }
        let after = step_applied(before, secret, step)->Some_0;
        assert(after.leaves == grown.leaves && after.leaf_count == grown.leaf_count
            && after.nullifiers == grown.nullifiers);
    }
}

proof fn lemma_served_nullifiers(
    secret: nat,
    leaves_text: Seq<String>,
    nullifiers_text: Seq<String>,
    deposits: Seq<DepositInfo>,
    leaves: Seq<Seq<u8>>,
    nullifiers: Seq<Seq<u8>>,
    j: int,
)
    requires
        serves(leaves_text, leaves),
        serves(nullifiers_text, nullifiers),
        leaves.len() <= MAX_LEAVES,
        0 <= j <= nullifiers.len(),
    ensures
        ({
            let steps = snapshot_steps_spec(leaves_text, nullifiers_text, deposits);
            let end = replayed(empty_state(), secret, steps.take(leaves.len() as int + j));
            &&& end is Some
            &&& sound(end->Some_0)
            &&& end->Some_0.leaf_count == leaves.len()
            &&& end->Some_0.leaves == leaf_map(leaves)
            &&& forall|i: int| 0 <= i < j ==> end->Some_0.nullifiers.contains(#[trigger] nullifiers[i])
        }),
    decreases j,
{
    let steps = snapshot_steps_spec(leaves_text, nullifiers_text, deposits);
    let n = leaves.len() as int;
    if j == 0 {
        lemma_served_leaves(secret, leaves_text, nullifiers_text, deposits, leaves, nullifiers, n);
        assert(leaves.take(n) =~= leaves);
    } else {
        lemma_served_nullifiers(
            secret,
            leaves_text,
            nullifiers_text,
            deposits,
            leaves,
            nullifiers,
            j - 1,
        );
        assert(steps.take(n + j).drop_last() =~= steps.take(n + j - 1));
        let step = steps[n + j - 1];
        assert(steps.take(n + j).last() == step);
        let before = replayed(empty_state(), secret, steps.take(n + j - 1))->Some_0;
        lemma_served_scalar(nullifiers_text[j - 1]@, nullifiers[j - 1]);
        lemma_bytes32(nullifiers[j - 1]);
        lemma_step(before, secret, step);
        let after = step_applied(before, secret, step)->Some_0;
        assert(after.nullifiers.contains(nullifiers[j - 1])) by {
            if !before.nullifiers.contains(nullifiers[j - 1]) {
                let grown = before.nullifiers.push(nullifiers[j - 1]);
                assert(grown[before.nullifiers.len() as int] == nullifiers[j - 1]);
            }
        }
    }
}

/// Snapshot convergence: a client that starts from nothing and replays
/// what an indexer serves of a list of leaves and nullifiers ends with as
/// many leaves, with the root of the tree of those leaves, and with every
/// nullifier in its set.
pub proof fn lemma_snapshot_converges(
    secret: nat,
    leaves_text: Seq<String>,
    nullifiers_text: Seq<String>,
    deposits: Seq<DepositInfo>,
    leaves: Seq<Seq<u8>>,
    nullifiers: Seq<Seq<u8>>,
)
    requires
        serves(leaves_text, leaves),
        serves(nullifiers_text, nullifiers),
        leaves.len() <= MAX_LEAVES,
    ensures
        well_formed(leaves_text, nullifiers_text),
        ({
            let end = replayed(
                empty_state(),
                secret,
                snapshot_steps_spec(leaves_text, nullifiers_text, deposits),
            );
            &&& end is Some
            &&& end->Some_0.leaf_count == leaves.len()
            &&& end->Some_0.leaves == leaf_map(leaves)
            &&& root_of(end->Some_0.leaves) == root_of(leaf_map(leaves))
            &&& forall|i: int|
                0 <= i < nullifiers.len() ==> end->Some_0.nullifiers.contains(
                    #[trigger] nullifiers[i],
                )
        }),
{
    let steps = snapshot_steps_spec(leaves_text, nullifiers_text, deposits);
    lemma_served_nullifiers(
        secret,
        leaves_text,
        nullifiers_text,
        deposits,
        leaves,
        nullifiers,
        nullifiers.len() as int,
    );
    assert(steps.take((leaves.len() + nullifiers.len()) as int) =~= steps);
    assert forall|i: int| 0 <= i < leaves_text.len() implies parsed_bytes32(
        (#[trigger] leaves_text[i])@,
    ) is Some by {
        lemma_served_scalar(leaves_text[i]@, leaves[i]);
    }
    assert forall|i: int| 0 <= i < nullifiers_text.len() implies parsed_bytes32(
        (#[trigger] nullifiers_text[i])@,
    ) is Some by {
        lemma_served_scalar(nullifiers_text[i]@, nullifiers[i]);
    }
}

} // verus!

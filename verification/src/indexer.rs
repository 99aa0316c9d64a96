//! The indexer's side of a snapshot: the chain's leaves and nullifiers as
//! they are collected from the events, and what is served of them.

use vstd::prelude::*;
use crate::decimal::{decimal_digits, u128_to_decimal};
use crate::error::CoreError;
use crate::events::VeilocityEvent;
use crate::hexfmt::{hex_chars, hex_prefixed};
use crate::merkle::{empty_subtree, root_of, MerkleTree, MAX_LEAVES};
use crate::poseidon::{be_bytes, be_value, bytes_to_field, field_to_bytes, modulus};
use crate::snapshot::{DepositInfo, SyncStateResponse};
use crate::storage::same_bytes;

verus! {

/// Maximum blocks that the indexer scans per batch.
pub const BLOCKS_PER_BATCH: u64 = 9000;

/// Indexed deposit data.
#[derive(Debug, Clone, Copy)]
pub struct IndexedDeposit {
    pub commitment: [u8; 32],
    pub amount: u128,
    pub leaf_index: u64,
    pub block_number: u64,
    pub tx_hash: [u8; 32],
}

/// Indexed withdrawal data.
#[derive(Debug, Clone, Copy)]
pub struct IndexedWithdrawal {
    pub nullifier: [u8; 32],
    pub recipient: [u8; 20],
    pub amount: u128,
    pub block_number: u64,
    pub tx_hash: [u8; 32],
}

/// What the indexer serves.
#[derive(Debug, Clone)]
pub struct IndexerState {
    /// Current Merkle root.
    pub state_root: [u8; 32],
    /// All leaves in the order of their positions.
    pub leaves: Vec<[u8; 32]>,
    /// All deposits indexed.
    pub deposits: Vec<IndexedDeposit>,
    /// All withdrawals indexed.
    pub withdrawals: Vec<IndexedWithdrawal>,
    /// Used nullifiers.
    pub nullifiers: Vec<[u8; 32]>,
    /// Last synced block.
    pub last_block: u64,
    /// On-chain deposit count.
    pub deposit_count: u64,
    /// Total value locked, in wei, in decimal.
    pub tvl_wei: String,
    /// Is currently syncing.
    pub is_syncing: bool,
    /// Sync progress (0-100).
    pub sync_progress: u8,
}

impl IndexerState {
    /// The state before anything was indexed: the root of the empty tree,
    /// and syncing.
    #[inline]
    pub fn new() -> (s: Self)
        ensures
            s.state_root@ == be_bytes(empty_subtree(20), 32),
            s.leaves@.len() == 0,
            s.deposits@.len() == 0,
            s.withdrawals@.len() == 0,
            s.nullifiers@.len() == 0,
            s.last_block == 0,
            s.deposit_count == 0,
            s.tvl_wei@ == "0"@,
            s.is_syncing,
            s.sync_progress == 0,
    {
        let tree = MerkleTree::new();
        IndexerState {
            state_root: field_to_bytes(&tree.root()),
            leaves: Vec::new(),
            deposits: Vec::new(),
            withdrawals: Vec::new(),
            nullifiers: Vec::new(),
            last_block: 0,
            deposit_count: 0,
            tvl_wei: String::from_str("0"),
            is_syncing: true,
            sync_progress: 0,
        }
    }
}

impl Default for IndexerState {
    /// The state before anything was indexed.
    #[inline]
    fn default() -> (s: Self)
        ensures
            s.state_root@ == be_bytes(empty_subtree(20), 32),
            s.leaves@.len() == 0,
            s.deposits@.len() == 0,
            s.withdrawals@.len() == 0,
            s.nullifiers@.len() == 0,
            s.last_block == 0,
            s.deposit_count == 0,
            s.tvl_wei@ == "0"@,
            s.is_syncing,
            s.sync_progress == 0,
    {
        IndexerState::new()
    }
}

/// The share of the blocks from the deployment of the vault up to the head
/// that lies before `from_block`, in percent, rounded down and at most 100.
/// Where the head is the deployment block, everything is synced.
pub open spec fn progress(deployment_block: u64, from_block: u64, current_block: u64) -> nat {
    let total = if current_block >= deployment_block {
        (current_block - deployment_block) as nat
    } else {
        0
    };
    let synced = if from_block >= deployment_block {
        (from_block - deployment_block) as nat
    } else {
        0
    };
    if total == 0 || synced >= total {
        100
    } else {
        synced * 100 / total
    }
}

/// How far the indexer has come, in percent.
pub fn sync_progress(deployment_block: u64, from_block: u64, current_block: u64) -> (p: u8)
    ensures
        p == progress(deployment_block, from_block, current_block),
        p <= 100,
{
    let total = current_block.saturating_sub(deployment_block);
    let synced = from_block.saturating_sub(deployment_block);
    if total == 0 || synced >= total {
        100
    } else {
        let share = (synced as u128) * 100 / (total as u128);
        assert(share < 100) by (nonlinear_arith)
            requires
                share as int == (synced as int * 100) / (total as int),
                0 <= synced < total,
        ;
        share as u8
    }
}

/// What the indexer has collected.
pub ghost struct IndexModel {
    /// The leaves of the chain's tree, by position.
    pub leaves: Seq<Seq<u8>>,
    /// The deposits, in the order in which they were indexed.
    pub deposits: Seq<IndexedDeposit>,
    /// The withdrawals, in the order in which they were indexed.
    pub withdrawals: Seq<IndexedWithdrawal>,
    /// The used nullifiers, each once.
    pub nullifiers: Seq<Seq<u8>>,
    /// The last block that was indexed.
    pub last_block: u64,
}

/// The written leaves of the tree that belongs to a list of leaves.
pub open spec fn leaf_map(leaves: Seq<Seq<u8>>) -> Map<nat, nat> {
    Map::new(|k: nat| k < leaves.len(), |k: nat| be_value(leaves[k as int]) % modulus())
}

/// The empty leaf as bytes.
pub open spec fn empty_leaf_bytes() -> Seq<u8> {
    be_bytes(empty_subtree(0), 32)
}

/// A list of leaves grown to `len` with empty leaves.
pub open spec fn padded(leaves: Seq<Seq<u8>>, len: nat) -> Seq<Seq<u8>> {
    if leaves.len() >= len {
        leaves
    } else {
        leaves + Seq::new((len - leaves.len()) as nat, |i: int| empty_leaf_bytes())
    }
}

/// What indexing one event gives, or nothing where the tree cannot hold
/// the leaf of a deposit. A deposit at a position that is indexed already
/// is passed over, and so is a nullifier that is known.
pub open spec fn indexed(m: IndexModel, event: VeilocityEvent) -> Option<IndexModel> {
    match event {
        VeilocityEvent::Deposit(d) => {
            if d.leaf_index < m.leaves.len() {
                Some(m)
            } else if d.leaf_index >= MAX_LEAVES {
                None
            } else {
                Some(
                    IndexModel {
                        leaves: padded(m.leaves, d.leaf_index as nat).push(d.commitment@),
                        deposits: m.deposits.push(
                            IndexedDeposit {
                                commitment: d.commitment,
                                amount: d.amount,
                                leaf_index: d.leaf_index,
                                block_number: d.block_number,
                                tx_hash: d.tx_hash,
                            },
                        ),
                        ..m
                    },
                )
            }
        },
        VeilocityEvent::Withdrawal(w) => Some(
            IndexModel {
                withdrawals: m.withdrawals.push(
                    IndexedWithdrawal {
                        nullifier: w.nullifier,
                        recipient: w.recipient,
                        amount: w.amount,
                        block_number: w.block_number,
                        tx_hash: w.tx_hash,
                    },
                ),
                nullifiers: if m.nullifiers.contains(w.nullifier@) {
                    m.nullifiers
                } else {
                    m.nullifiers.push(w.nullifier@)
                },
                ..m
            },
        ),
        VeilocityEvent::StateRootUpdated(_) => Some(m),
    }
}

/// What indexing a list of events gives.
pub open spec fn indexed_all(m: IndexModel, events: Seq<VeilocityEvent>) -> Option<IndexModel>
    decreases events.len(),
{
    if events.len() == 0 {
        Some(m)
    } else {
        match indexed_all(m, events.drop_last()) {
            Some(before) => indexed(before, events.last()),
            None => None,
        }
    }
}

/// The indexer: the chain's tree and what was collected from the events.
pub struct Indexer {
    tree: MerkleTree,
    leaves: Vec<[u8; 32]>,
    deposits: Vec<IndexedDeposit>,
    withdrawals: Vec<IndexedWithdrawal>,
    nullifiers: Vec<[u8; 32]>,
    last_block: u64,
}

impl View for Indexer {
    type V = IndexModel;

    closed spec fn view(&self) -> IndexModel {
        IndexModel {
            leaves: self.leaves@.map_values(|l: [u8; 32]| l@),
            deposits: self.deposits@,
            withdrawals: self.withdrawals@,
            nullifiers: self.nullifiers@.map_values(|n: [u8; 32]| n@),
            last_block: self.last_block,
        }
    }
}

impl Indexer {
    /// The invariant of the indexer: its tree holds its leaves.
    pub closed spec fn wf(&self) -> bool {
        &&& self.tree.wf()
        &&& self.tree@.leaf_count == self.leaves@.len()
        &&& self.tree@.leaves == leaf_map(self@.leaves)
        &&& self.leaves@.len() <= MAX_LEAVES
    }

    /// The root of the indexer's tree.
    pub closed spec fn root_value(&self) -> nat {
        self.tree@.root
    }

    pub proof fn lemma_wf(&self)
        requires
            self.wf(),
        ensures
            self.root_value() == root_of(leaf_map(self@.leaves)),
    {
        self.tree.lemma_wf();
    }

    /// An indexer that has seen nothing.
    #[inline]
    pub fn new() -> (ix: Self)
        ensures
            ix.wf(),
            ix@.leaves.len() == 0,
            ix@.deposits.len() == 0,
            ix@.withdrawals.len() == 0,
            ix@.nullifiers.len() == 0,
            ix@.last_block == 0,
    {
        let ix = Indexer {
            tree: MerkleTree::new(),
            leaves: Vec::new(),
            deposits: Vec::new(),
            withdrawals: Vec::new(),
            nullifiers: Vec::new(),
            last_block: 0,
        };
        proof {
            assert(ix@.leaves =~= Seq::<Seq<u8>>::empty());
            assert(ix.tree@.leaves =~= leaf_map(ix@.leaves));
        }
        ix
    }

    fn knows_nullifier(&self, nullifier: &[u8; 32]) -> (r: bool)
        ensures
            r == self@.nullifiers.contains(nullifier@),
    {
        let ghost list = self@.nullifiers;
        let mut i: usize = 0;
        while i < self.nullifiers.len()
            invariant
                i <= self.nullifiers@.len(),
                list == self@.nullifiers,
                list.len() == self.nullifiers@.len(),
                forall|k: int| 0 <= k < i ==> (#[trigger] list[k]) != nullifier@,
            decreases self.nullifiers@.len() - i,
        {
            if same_bytes(&self.nullifiers[i], nullifier) {
                assert(list[i as int] == nullifier@);
                return true;
            }
            i += 1;
        }
        false
    }

    /// Append one leaf to the list and to the tree.
    fn push_leaf(&mut self, leaf: [u8; 32])
        requires
            old(self).wf(),
            old(self)@.leaves.len() < MAX_LEAVES,
        ensures
            final(self).wf(),
            final(self)@ == (IndexModel { leaves: old(self)@.leaves.push(leaf@), ..old(self)@ }),
    {
        let ghost before = self@;
        let _ = self.tree.insert(bytes_to_field(&leaf));
        self.leaves.push(leaf);
        proof {
            assert(self@.leaves =~= before.leaves.push(leaf@));
            assert(self.tree@.leaves =~= leaf_map(self@.leaves));
        }
    }

    /// Index one event.
    pub fn index_event(&mut self, event: &VeilocityEvent) -> (r: Result<(), CoreError>)
        requires
            old(self).wf(),
        ensures
            final(self).wf(),
            match indexed(old(self)@, *event) {
                Some(m) => r is Ok && final(self)@ == m,
                None => r is Err && r->Err_0 is TreeFull && final(self)@ == old(self)@,
            },
    {
        match event {
            VeilocityEvent::Deposit(d) => {
                if d.leaf_index < self.leaves.len() as u64 {
                    return Ok(());
                }
                if d.leaf_index >= MAX_LEAVES {
                    return Err(CoreError::TreeFull);
                }
                let ghost start = self@;
                let empty = field_to_bytes(&self.tree.empty_hash(0));
                while (self.leaves.len() as u64) < d.leaf_index
                    invariant
                        self.wf(),
                        start == old(self)@,
                        empty@ == empty_leaf_bytes(),
                        start.leaves.len() <= self@.leaves.len() <= d.leaf_index < MAX_LEAVES,
                        self@ == (IndexModel {
                            leaves: padded(start.leaves, self@.leaves.len()),
                            ..start
                        }),
                    decreases d.leaf_index - self@.leaves.len(),
                {
                    let ghost count = self@.leaves.len();
                    self.push_leaf(empty);
                    proof {
                        assert(padded(start.leaves, count).push(empty@) =~= padded(
                            start.leaves,
                            count + 1,
                        ));
                    }
                }
                self.push_leaf(d.commitment);
                let ghost grown = self@;
                self.deposits.push(
                    IndexedDeposit {
                        commitment: d.commitment,
                        amount: d.amount,
                        leaf_index: d.leaf_index,
                        block_number: d.block_number,
                        tx_hash: d.tx_hash,
                    },
                );
                Ok(())
            },
            VeilocityEvent::Withdrawal(w) => {
                if !self.knows_nullifier(&w.nullifier) {
                    let ghost prior = self@.nullifiers;
                    self.nullifiers.push(w.nullifier);
                    proof {
                        assert(self@.nullifiers =~= prior.push(w.nullifier@));
                    }
                }
                self.withdrawals.push(
                    IndexedWithdrawal {
                        nullifier: w.nullifier,
                        recipient: w.recipient,
                        amount: w.amount,
                        block_number: w.block_number,
                        tx_hash: w.tx_hash,
                    },
                );
                Ok(())
            },
            VeilocityEvent::StateRootUpdated(_) => Ok(()),
        }
    }

    /// Index the events of a batch in their order and note the last block
    /// of the batch. Indexing stops at the first event that cannot be
    /// indexed, with the events before it indexed.
    pub fn index_events(&mut self, events: &Vec<VeilocityEvent>, to_block: u64) -> (r: Result<
        (),
        CoreError,
    >)
        requires
            old(self).wf(),
        ensures
            final(self).wf(),
            match indexed_all(old(self)@, events@) {
                Some(m) => r is Ok && final(self)@ == (IndexModel { last_block: to_block, ..m }),
                None => r is Err && r->Err_0 is TreeFull && exists|k: int|
                    0 <= k < events@.len() && #[trigger] indexed_all(old(self)@, events@.take(k))
                        == Some(final(self)@) && indexed(final(self)@, events@[k]) is None,
            },
    {
        let ghost start = self@;
        let mut i: usize = 0;
        while i < events.len()
            invariant
                i <= events@.len(),
                self.wf(),
                start == old(self)@,
                indexed_all(start, events@.take(i as int)) == Some(self@),
            decreases events@.len() - i,
        {
            proof {
                assert(events@.take(i + 1).drop_last() =~= events@.take(i as int));
                assert(events@.take(i + 1).last() == events@[i as int]);
                lemma_last_block_kept(start, events@.take(i as int));
            }
            match self.index_event(&events[i]) {
                Err(e) => {
                    proof {
                        lemma_indexing_stops(start, events@, i + 1);
                    }
                    return Err(e);
                },
                Ok(()) => {},
            }
            i += 1;
        }
        proof {
            assert(events@.take(i as int) =~= events@);
        }
        self.last_block = to_block;
        Ok(())
    }

    /// What is served of the collected state. The deposit count, the value
    /// locked and the progress come from the chain and are handed in.
    pub fn state(
        &self,
        deposit_count: u64,
        tvl_wei: String,
        is_syncing: bool,
        sync_progress: u8,
    ) -> (s: IndexerState)
        requires
            self.wf(),
        ensures
            s.state_root@ == be_bytes(root_of(leaf_map(self@.leaves)), 32),
            s.leaves@.map_values(|l: [u8; 32]| l@) == self@.leaves,
            s.deposits@ == self@.deposits,
            s.withdrawals@ == self@.withdrawals,
            s.nullifiers@.map_values(|n: [u8; 32]| n@) == self@.nullifiers,
            s.last_block == self@.last_block,
            s.deposit_count == deposit_count,
            s.tvl_wei == tvl_wei,
            s.is_syncing == is_syncing,
            s.sync_progress == sync_progress,
    {
        proof {
            self.tree.lemma_wf();
        }
        IndexerState {
            state_root: field_to_bytes(&self.tree.root()),
            leaves: copy_all(&self.leaves),
            deposits: copy_deposits(&self.deposits),
            withdrawals: copy_withdrawals(&self.withdrawals),
            nullifiers: copy_all(&self.nullifiers),
            last_block: self.last_block,
            deposit_count,
            tvl_wei,
            is_syncing,
            sync_progress,
        }
    }
}

fn copy_all(items: &Vec<[u8; 32]>) -> (r: Vec<[u8; 32]>)
    ensures
        r@ == items@,
{
    let mut out: Vec<[u8; 32]> = Vec::new();
    let mut i: usize = 0;
    while i < items.len()
        invariant
            i <= items@.len(),
            out@ == items@.take(i as int),
        decreases items@.len() - i,
    {
        out.push(items[i]);
        proof {
            assert(out@ =~= items@.take(i + 1));
        }
        i += 1;
    }
    proof {
        assert(items@.take(i as int) =~= items@);
    }
    out
}

fn copy_deposits(items: &Vec<IndexedDeposit>) -> (r: Vec<IndexedDeposit>)
    ensures
        r@ == items@,
{
    let mut out: Vec<IndexedDeposit> = Vec::new();
    let mut i: usize = 0;
    while i < items.len()
        invariant
            i <= items@.len(),
            out@ == items@.take(i as int),
        decreases items@.len() - i,
    {
        out.push(items[i]);
        proof {
            assert(out@ =~= items@.take(i + 1));
        }
        i += 1;
    }
    proof {
        assert(items@.take(i as int) =~= items@);
    }
    out
}

fn copy_withdrawals(items: &Vec<IndexedWithdrawal>) -> (r: Vec<IndexedWithdrawal>)
    ensures
        r@ == items@,
{
    let mut out: Vec<IndexedWithdrawal> = Vec::new();
    let mut i: usize = 0;
    while i < items.len()
        invariant
            i <= items@.len(),
            out@ == items@.take(i as int),
        decreases items@.len() - i,
    {
        out.push(items[i]);
        proof {
            assert(out@ =~= items@.take(i + 1));
        }
        i += 1;
    }
    proof {
        assert(items@.take(i as int) =~= items@);
    }
    out
}

/// Indexing never changes the last block.
pub proof fn lemma_last_block_kept(m: IndexModel, events: Seq<VeilocityEvent>)
    ensures
        indexed_all(m, events) is Some ==> indexed_all(m, events)->Some_0.last_block == m.last_block,
    decreases events.len(),
{
    if events.len() > 0 {
        lemma_last_block_kept(m, events.drop_last());
    }
}

/// Indexing that has stopped stays stopped.
pub proof fn lemma_indexing_stops(m: IndexModel, events: Seq<VeilocityEvent>, k: int)
    requires
        0 <= k <= events.len(),
        indexed_all(m, events.take(k)) is None,
    ensures
        indexed_all(m, events) is None,
    decreases events.len() - k,
{
    if k < events.len() {
        assert(events.take(k + 1).drop_last() =~= events.take(k));
        lemma_indexing_stops(m, events, k + 1);
    } else {
        assert(events.take(k) =~= events);
    }
}

/// The hex forms of a list of 32-byte values.
pub open spec fn hex_list(items: Seq<[u8; 32]>) -> Seq<Seq<char>> {
    items.map_values(|b: [u8; 32]| seq!['0', 'x'] + hex_chars(b@))
}

fn hex_all(items: &Vec<[u8; 32]>) -> (r: Vec<String>)
    ensures
        r@.map_values(|s: String| s@) == hex_list(items@),
{
    let mut out: Vec<String> = Vec::new();
    let mut i: usize = 0;
    while i < items.len()
        invariant
            i <= items@.len(),
            out@.len() == i,
            forall|k: int|
                0 <= k < i ==> (#[trigger] out@[k])@ == seq!['0', 'x'] + hex_chars(items@[k]@),
        decreases items@.len() - i,
    {
        out.push(hex_prefixed(items[i].as_slice()));
        i += 1;
    }
    assert(out@.map_values(|s: String| s@) =~= hex_list(items@));
    out
}

/// The answer to a request for the sync state: roots, leaves and
/// nullifiers in hex, the rest as it is.
pub fn sync_response(state: &IndexerState) -> (r: SyncStateResponse)
    ensures
        r.state_root@ == seq!['0', 'x'] + hex_chars(state.state_root@),
        r.leaves@.map_values(|s: String| s@) == hex_list(state.leaves@),
        r.nullifiers@.map_values(|s: String| s@) == hex_list(state.nullifiers@),
        r.last_block == state.last_block,
        r.deposit_count == state.deposit_count,
        r.tvl_wei@ == state.tvl_wei@,
        r.is_syncing == state.is_syncing,
        r.sync_progress == state.sync_progress,
{
    SyncStateResponse {
        state_root: hex_prefixed(state.state_root.as_slice()),
        leaves: hex_all(&state.leaves),
        nullifiers: hex_all(&state.nullifiers),
        last_block: state.last_block,
        deposit_count: state.deposit_count,
        tvl_wei: state.tvl_wei.clone(),
        is_syncing: state.is_syncing,
        sync_progress: state.sync_progress,
    }
}

/// The answer to a request for the deposits: one entry for each indexed
/// deposit, in their order, with the amount in decimal.
pub fn deposits_response(state: &IndexerState) -> (r: Vec<DepositInfo>)
    ensures
        r@.len() == state.deposits@.len(),
        forall|k: int|
            0 <= k < r@.len() ==> {
                let info = #[trigger] r@[k];
                let d = state.deposits@[k];
                &&& info.commitment@ == seq!['0', 'x'] + hex_chars(d.commitment@)
                &&& info.amount_wei@ == decimal_digits(d.amount as nat)
                &&& info.leaf_index == d.leaf_index
                &&& info.block_number == d.block_number
                &&& info.tx_hash@ == seq!['0', 'x'] + hex_chars(d.tx_hash@)
            },
{
    let mut out: Vec<DepositInfo> = Vec::new();
    let mut i: usize = 0;
    while i < state.deposits.len()
        invariant
            i <= state.deposits@.len(),
            out@.len() == i,
            forall|k: int|
                0 <= k < i ==> {
                    let info = #[trigger] out@[k];
                    let d = state.deposits@[k];
                    &&& info.commitment@ == seq!['0', 'x'] + hex_chars(d.commitment@)
                    &&& info.amount_wei@ == decimal_digits(d.amount as nat)
                    &&& info.leaf_index == d.leaf_index
                    &&& info.block_number == d.block_number
                    &&& info.tx_hash@ == seq!['0', 'x'] + hex_chars(d.tx_hash@)
                },
        decreases state.deposits@.len() - i,
    {
        let d = state.deposits[i];
        out.push(
            DepositInfo {
                commitment: hex_prefixed(d.commitment.as_slice()),
                amount_wei: u128_to_decimal(d.amount),
                leaf_index: d.leaf_index,
                block_number: d.block_number,
                tx_hash: hex_prefixed(d.tx_hash.as_slice()),
            },
        );
        i += 1;
    }
    out
}

} // verus!

//! The events of the vault contract, as plain values, and their order.

use vstd::prelude::*;
use crate::hexfmt::{hex_chars, hex_prefixed};

verus! {

/// A deposit into the vault.
#[derive(Debug, Clone, Copy)]
pub struct DepositEvent {
    /// The deposit commitment.
    pub commitment: [u8; 32],
    /// Amount deposited in wei.
    pub amount: u128,
    /// Assigned leaf index.
    pub leaf_index: u64,
    /// Block timestamp.
    pub timestamp: u64,
    /// Block number where the event was emitted.
    pub block_number: u64,
    /// Transaction hash.
    pub tx_hash: [u8; 32],
}

impl DepositEvent {
    /// Create from the fields of a log entry.
    pub fn from_log(
        commitment: [u8; 32],
        amount: u128,
        leaf_index: u64,
        timestamp: u64,
        block_number: u64,
        tx_hash: [u8; 32],
    ) -> (e: Self)
        ensures
            e == (DepositEvent { commitment, amount, leaf_index, timestamp, block_number, tx_hash }),
    {
        DepositEvent { commitment, amount, leaf_index, timestamp, block_number, tx_hash }
    }

    /// Get commitment as hex string.
    pub fn commitment_hex(&self) -> (s: String)
        ensures
            s@ == seq!['0', 'x'] + hex_chars(self.commitment@),
    {
        hex_prefixed(self.commitment.as_slice())
    }
}

/// A withdrawal from the vault.
#[derive(Debug, Clone, Copy)]
pub struct WithdrawalEvent {
    /// The nullifier used.
    pub nullifier: [u8; 32],
    /// Recipient address.
    pub recipient: [u8; 20],
    /// Amount withdrawn in wei.
    pub amount: u128,
    /// Block number.
    pub block_number: u64,
    /// Transaction hash.
    pub tx_hash: [u8; 32],
}

impl WithdrawalEvent {
    /// Create from the fields of a log entry.
    pub fn from_log(
        nullifier: [u8; 32],
        recipient: [u8; 20],
        amount: u128,
        block_number: u64,
        tx_hash: [u8; 32],
    ) -> (e: Self)
        ensures
            e == (WithdrawalEvent { nullifier, recipient, amount, block_number, tx_hash }),
    {
        WithdrawalEvent { nullifier, recipient, amount, block_number, tx_hash }
    }

    /// Get nullifier as hex string.
    pub fn nullifier_hex(&self) -> (s: String)
        ensures
            s@ == seq!['0', 'x'] + hex_chars(self.nullifier@),
    {
        hex_prefixed(self.nullifier.as_slice())
    }
}

/// An update of the anchored state root.
#[derive(Debug, Clone, Copy)]
pub struct StateRootUpdatedEvent {
    /// Previous state root.
    pub old_root: [u8; 32],
    /// New state root.
    pub new_root: [u8; 32],
    /// Batch index.
    pub batch_index: u64,
    /// Block timestamp.
    pub timestamp: u64,
    /// Block number.
    pub block_number: u64,
    /// Transaction hash.
    pub tx_hash: [u8; 32],
}

impl StateRootUpdatedEvent {
    /// Create from the fields of a log entry.
    pub fn from_log(
        old_root: [u8; 32],
        new_root: [u8; 32],
        batch_index: u64,
        timestamp: u64,
        block_number: u64,
        tx_hash: [u8; 32],
    ) -> (e: Self)
        ensures
            e == (StateRootUpdatedEvent {
                old_root,
                new_root,
                batch_index,
                timestamp,
                block_number,
                tx_hash,
            }),
    {
        StateRootUpdatedEvent { old_root, new_root, batch_index, timestamp, block_number, tx_hash }
    }
}

/// Any event of the vault.
#[derive(Debug, Clone, Copy)]
pub enum VeilocityEvent {
    Deposit(DepositEvent),
    Withdrawal(WithdrawalEvent),
    StateRootUpdated(StateRootUpdatedEvent),
}

impl VeilocityEvent {
    /// The block number of the event, in specifications.
    pub open spec fn block(self) -> u64 {
        match self {
            VeilocityEvent::Deposit(e) => e.block_number,
            VeilocityEvent::Withdrawal(e) => e.block_number,
            VeilocityEvent::StateRootUpdated(e) => e.block_number,
        }
    }

    /// Get the block number of the event.
    pub fn block_number(&self) -> (n: u64)
        ensures
            n == self.block(),
    {
        match self {
            VeilocityEvent::Deposit(e) => e.block_number,
            VeilocityEvent::Withdrawal(e) => e.block_number,
            VeilocityEvent::StateRootUpdated(e) => e.block_number,
        }
    }

    /// Get the transaction hash of the event.
    pub fn tx_hash(&self) -> (h: [u8; 32])
        ensures
            h == match *self {
                VeilocityEvent::Deposit(e) => e.tx_hash,
                VeilocityEvent::Withdrawal(e) => e.tx_hash,
                VeilocityEvent::StateRootUpdated(e) => e.tx_hash,
            },
    {
        match self {
            VeilocityEvent::Deposit(e) => e.tx_hash,
            VeilocityEvent::Withdrawal(e) => e.tx_hash,
            VeilocityEvent::StateRootUpdated(e) => e.tx_hash,
        }
    }
}

/// Which events a query asks for.
#[derive(Debug, Clone, Copy)]
pub struct EventFilter {
    /// Start block (inclusive).
    pub from_block: Option<u64>,
    /// End block (inclusive).
    pub to_block: Option<u64>,
    /// Filter by commitment (for deposits).
    pub commitment: Option<[u8; 32]>,
    /// Filter by nullifier (for withdrawals).
    pub nullifier: Option<[u8; 32]>,
}

impl EventFilter {
    /// Create a new filter starting from a specific block.
    pub fn from_block(block: u64) -> (f: Self)
        ensures
            f == (EventFilter {
                from_block: Some(block),
                to_block: None,
                commitment: None,
                nullifier: None,
            }),
    {
        EventFilter { from_block: Some(block), to_block: None, commitment: None, nullifier: None }
    }

    /// Create a filter for a specific block range.
    pub fn block_range(from: u64, to: u64) -> (f: Self)
        ensures
            f == (EventFilter {
                from_block: Some(from),
                to_block: Some(to),
                commitment: None,
                nullifier: None,
            }),
    {
        EventFilter { from_block: Some(from), to_block: Some(to), commitment: None, nullifier: None }
    }
}

impl Default for EventFilter {
    fn default() -> (f: Self)
        ensures
            f == (EventFilter { from_block: None, to_block: None, commitment: None, nullifier: None }),
    {
        EventFilter { from_block: None, to_block: None, commitment: None, nullifier: None }
    }
}

/// A sequence with one more event, placed behind every event of its block
/// and of earlier blocks.
pub open spec fn placed(s: Seq<VeilocityEvent>, e: VeilocityEvent) -> Seq<VeilocityEvent>
    decreases s.len(),
{
    if s.len() == 0 {
        seq![e]
    } else if s.last().block() <= e.block() {
        s.push(e)
    } else {
        placed(s.drop_last(), e).push(s.last())
    }
}

/// The events of a sequence in the order of their blocks; events of one
/// block keep the order that they came in.
pub open spec fn in_block_order(s: Seq<VeilocityEvent>) -> Seq<VeilocityEvent>
    decreases s.len(),
{
    if s.len() == 0 {
        Seq::<VeilocityEvent>::empty()
    } else {
        placed(in_block_order(s.drop_last()), s.last())
    }
}

/// Whether no event stands before one of an earlier block.
pub open spec fn blocks_ascend(s: Seq<VeilocityEvent>) -> bool {
    forall|i: int, j: int| 0 <= i < j < s.len() ==> (#[trigger] s[i]).block() <= (#[trigger] s[j]).block()
}

/// Placing an event keeps the blocks in order and adds that event only.
pub proof fn lemma_placed(s: Seq<VeilocityEvent>, e: VeilocityEvent)
    requires
        blocks_ascend(s),
    ensures
        blocks_ascend(placed(s, e)),
        placed(s, e).len() == s.len() + 1,
        placed(s, e).to_multiset() == s.to_multiset().insert(e),
    decreases s.len(),
{
    broadcast use vstd::seq_lib::group_to_multiset_ensures;

    if s.len() == 0 {
        assert(seq![e] =~= Seq::<VeilocityEvent>::empty().push(e));
        assert(s =~= Seq::<VeilocityEvent>::empty());
    } else if s.last().block() <= e.block() {
        let t = s.push(e);
        assert forall|i: int, j: int| 0 <= i < j < t.len() implies (#[trigger] t[i]).block() <= (
        #[trigger] t[j]).block() by {
            if j == s.len() {
                if i < s.len() - 1 {
                    assert(s[i].block() <= s[s.len() - 1].block());
                }
            } else {
                assert(s[i].block() <= s[j].block());
            }
        }
    } else {
        let head = s.drop_last();
        assert forall|i: int, j: int| 0 <= i < j < head.len() implies (#[trigger] head[i]).block() <= (
        #[trigger] head[j]).block() by {
            assert(s[i].block() <= s[j].block());
        }
        lemma_placed(head, e);
        let p = placed(head, e);
        let t = p.push(s.last());
        assert forall|k: int| 0 <= k < p.len() implies (#[trigger] p[k]).block() <= s.last().block() by {
            assert(p.to_multiset().count(p[k]) > 0);
            if p[k] != e {
                assert(head.to_multiset().count(p[k]) > 0);
                let w = choose|w: int| 0 <= w < head.len() && head[w] == p[k];
                assert(s[w].block() <= s[s.len() - 1].block());
            }
        }
        assert forall|i: int, j: int| 0 <= i < j < t.len() implies (#[trigger] t[i]).block() <= (
        #[trigger] t[j]).block() by {
            if j == p.len() {
                assert(p[i].block() <= s.last().block());
            } else {
                assert(p[i].block() <= p[j].block());
            }
        }
        assert(s =~= head.push(s.last()));
        assert(t.to_multiset() =~= s.to_multiset().insert(e));
    }
}

/// Ordering by block gives the same events with their blocks in order.
pub proof fn lemma_in_block_order(s: Seq<VeilocityEvent>)
    ensures
        blocks_ascend(in_block_order(s)),
        in_block_order(s).len() == s.len(),
        in_block_order(s).to_multiset() == s.to_multiset(),
    decreases s.len(),
{
    broadcast use vstd::seq_lib::group_to_multiset_ensures;

    if s.len() > 0 {
        lemma_in_block_order(s.drop_last());
        lemma_placed(in_block_order(s.drop_last()), s.last());
        assert(s =~= s.drop_last().push(s.last()));
    } else {
        assert(s =~= Seq::<VeilocityEvent>::empty());
    }
}

/// Where an event is placed: behind the last event that is not of a later
/// block.
proof fn lemma_placed_at(s: Seq<VeilocityEvent>, e: VeilocityEvent, p: int)
    requires
        0 <= p <= s.len(),
        forall|k: int| p <= k < s.len() ==> (#[trigger] s[k]).block() > e.block(),
        p > 0 ==> s[p - 1].block() <= e.block(),
    ensures
        placed(s, e) == s.subrange(0, p).push(e) + s.subrange(p, s.len() as int),
    decreases s.len() - p,
{
    if p == s.len() {
        if s.len() == 0 {
            assert(placed(s, e) =~= s.subrange(0, p).push(e) + s.subrange(p, s.len() as int));
        } else {
            assert(s.push(e) =~= s.subrange(0, p).push(e) + s.subrange(p, s.len() as int));
        }
    } else {
        let head = s.drop_last();
        assert(s.last().block() > e.block());
        assert forall|k: int| p <= k < head.len() implies (#[trigger] head[k]).block() > e.block() by {
            assert(s[k].block() > e.block());
        }
        lemma_placed_at(head, e, p);
        assert(placed(head, e).push(s.last()) =~= s.subrange(0, p).push(e) + s.subrange(
            p,
            s.len() as int,
        ));
    }
}

/// Put an event into a list behind every event of its block and of earlier
/// blocks.
fn place_event(events: &mut Vec<VeilocityEvent>, e: VeilocityEvent)
    ensures
        final(events)@ == placed(old(events)@, e),
{
    let mut p: usize = events.len();
    while p > 0 && events[p - 1].block_number() > e.block_number()
        invariant
            p <= events@.len(),
            events@ == old(events)@,
            forall|k: int| p <= k < events@.len() ==> (#[trigger] events@[k]).block() > e.block(),
        decreases p,
    {
        p -= 1;
    }
    proof {
        lemma_placed_at(events@, e, p as int);
        assert(events@.insert(p as int, e) =~= events@.subrange(0, p as int).push(e)
            + events@.subrange(p as int, events@.len() as int));
    }
    events.insert(p, e);
}

/// All events of a block range in the order of their blocks: deposits,
/// withdrawals and root updates are put together, and events of one block
/// stay in that order.
pub fn merge_events(
    deposits: &Vec<DepositEvent>,
    withdrawals: &Vec<WithdrawalEvent>,
    updates: &Vec<StateRootUpdatedEvent>,
) -> (events: Vec<VeilocityEvent>)
    ensures
        events@ == in_block_order(
            deposits@.map_values(|e: DepositEvent| VeilocityEvent::Deposit(e))
                + withdrawals@.map_values(|e: WithdrawalEvent| VeilocityEvent::Withdrawal(e))
                + updates@.map_values(|e: StateRootUpdatedEvent| VeilocityEvent::StateRootUpdated(e)),
        ),
        blocks_ascend(events@),
        events@.len() == deposits@.len() + withdrawals@.len() + updates@.len(),
{
    let ghost d = deposits@.map_values(|e: DepositEvent| VeilocityEvent::Deposit(e));
    let ghost w = withdrawals@.map_values(|e: WithdrawalEvent| VeilocityEvent::Withdrawal(e));
    let ghost u = updates@.map_values(|e: StateRootUpdatedEvent| VeilocityEvent::StateRootUpdated(e));
    let mut events: Vec<VeilocityEvent> = Vec::new();
    let mut i: usize = 0;
    while i < deposits.len()
        invariant
            i <= deposits@.len(),
            d == deposits@.map_values(|e: DepositEvent| VeilocityEvent::Deposit(e)),
            events@ == in_block_order(d.take(i as int)),
        decreases deposits@.len() - i,
    {
        proof {
            assert(d.take(i + 1).drop_last() =~= d.take(i as int));
        }
        place_event(&mut events, VeilocityEvent::Deposit(deposits[i]));
        i += 1;
    }
    assert(d.take(i as int) =~= d);
    let mut j: usize = 0;
    while j < withdrawals.len()
        invariant
            j <= withdrawals@.len(),
            w == withdrawals@.map_values(|e: WithdrawalEvent| VeilocityEvent::Withdrawal(e)),
            events@ == in_block_order(d + w.take(j as int)),
        decreases withdrawals@.len() - j,
    {
        proof {
            assert((d + w.take(j + 1)).drop_last() =~= d + w.take(j as int));
        }
        place_event(&mut events, VeilocityEvent::Withdrawal(withdrawals[j]));
        j += 1;
    }
    assert(w.take(j as int) =~= w);
    let mut k: usize = 0;
    while k < updates.len()
        invariant
            k <= updates@.len(),
            u == updates@.map_values(|e: StateRootUpdatedEvent| VeilocityEvent::StateRootUpdated(e)),
            events@ == in_block_order(d + w + u.take(k as int)),
        decreases updates@.len() - k,
    {
        proof {
            assert((d + w + u.take(k + 1)).drop_last() =~= d + w + u.take(k as int));
        }
        place_event(&mut events, VeilocityEvent::StateRootUpdated(updates[k]));
        k += 1;
    }
    proof {
        assert(u.take(k as int) =~= u);
        lemma_in_block_order(d + w + u);
    }
    events
}

} // verus!

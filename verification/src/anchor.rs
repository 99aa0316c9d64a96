//! A bounded history of the state roots that were anchored on chain.

use vstd::prelude::*;
use crate::hexfmt::{hex_chars, hex_prefixed};
use crate::storage::same_bytes;

verus! {

/// State root history entry.
#[derive(Debug, Clone, Copy)]
pub struct StateRootEntry {
    /// The state root.
    pub root: [u8; 32],
    /// Block number when this root was set.
    pub block_number: u64,
    /// Batch index.
    pub batch_index: u64,
    /// Timestamp.
    pub timestamp: u64,
}

impl StateRootEntry {
    /// Create a new state root entry.
    pub fn new(root: [u8; 32], block_number: u64, batch_index: u64, timestamp: u64) -> (e: Self)
        ensures
            e == (StateRootEntry { root, block_number, batch_index, timestamp }),
    {
        StateRootEntry { root, block_number, batch_index, timestamp }
    }

    /// Get root as hex string.
    pub fn root_hex(&self) -> (s: String)
        ensures
            s@ == seq!['0', 'x'] + hex_chars(self.root@),
    {
        hex_prefixed(self.root.as_slice())
    }
}

/// The entries after one more was added to a history of at most `max_size`:
/// a full history first gives up its oldest entry.
pub open spec fn added(entries: Seq<StateRootEntry>, max_size: nat, entry: StateRootEntry) -> Seq<
    StateRootEntry,
> {
    if entries.len() >= max_size && entries.len() > 0 {
        entries.drop_first().push(entry)
    } else {
        entries.push(entry)
    }
}

/// Whether an entry with the given root is among the entries.
pub open spec fn holds_root(entries: Seq<StateRootEntry>, root: Seq<u8>) -> bool {
    exists|i: int| 0 <= i < entries.len() && (#[trigger] entries[i]).root@ == root
}

/// State root history manager.
#[derive(Debug)]
pub struct StateRootHistory {
    /// History of state roots, oldest first.
    entries: Vec<StateRootEntry>,
    /// Maximum history size.
    max_size: usize,
}

impl View for StateRootHistory {
    type V = Seq<StateRootEntry>;

    closed spec fn view(&self) -> Seq<StateRootEntry> {
        self.entries@
    }
}

impl StateRootHistory {
    /// The size that the history is held to.
    pub closed spec fn limit(&self) -> nat {
        self.max_size as nat
    }

    /// Create a new history with default size (100).
    pub fn new() -> (h: Self)
        ensures
            h@.len() == 0,
            h.limit() == 100,
    {
        StateRootHistory { entries: Vec::new(), max_size: 100 }
    }

    /// Create with custom max size.
    pub fn with_capacity(max_size: usize) -> (h: Self)
        ensures
            h@.len() == 0,
            h.limit() == max_size,
    {
        StateRootHistory { entries: Vec::new(), max_size }
    }

    /// Add a new state root to history.
    pub fn add(&mut self, entry: StateRootEntry)
        ensures
            final(self)@ == added(old(self)@, old(self).limit(), entry),
            final(self).limit() == old(self).limit(),
    {
        if self.entries.len() >= self.max_size && self.entries.len() > 0 {
            self.entries.remove(0);
            assert(self.entries@ =~= old(self)@.drop_first());
        }
        self.entries.push(entry);
    }

    /// Get the latest state root.
    pub fn latest(&self) -> (r: Option<&StateRootEntry>)
        ensures
            r is Some <==> self@.len() > 0,
            r is Some ==> *r->Some_0 == self@.last(),
    {
        let n = self.entries.len();
        if n == 0 {
            None
        } else {
            Some(&self.entries[n - 1])
        }
    }

    /// Get the latest root hash.
    pub fn latest_root(&self) -> (r: Option<[u8; 32]>)
        ensures
            r is Some <==> self@.len() > 0,
            r is Some ==> r->Some_0 == self@.last().root,
    {
        let n = self.entries.len();
        if n == 0 {
            None
        } else {
            Some(self.entries[n - 1].root)
        }
    }

    /// Check if a root exists in history.
    pub fn contains(&self, root: &[u8; 32]) -> (r: bool)
        ensures
            r == holds_root(self@, root@),
    {
        self.get(root).is_some()
    }

    /// Get the oldest entry with the given root.
    pub fn get(&self, root: &[u8; 32]) -> (r: Option<&StateRootEntry>)
        ensures
            r is Some <==> holds_root(self@, root@),
            r is Some ==> exists|i: int|
                0 <= i < self@.len() && *r->Some_0 == self@[i] && (#[trigger] self@[i]).root@ == root@
                    && forall|k: int| 0 <= k < i ==> (#[trigger] self@[k]).root@ != root@,
    {
        let mut i: usize = 0;
        while i < self.entries.len()
            invariant
                i <= self.entries@.len(),
                forall|k: int| 0 <= k < i ==> (#[trigger] self.entries@[k]).root@ != root@,
            decreases self.entries@.len() - i,
        {
            if same_bytes(&self.entries[i].root, root) {
                return Some(&self.entries[i]);
            }
            i += 1;
        }
        None
    }

    /// Get all entries, oldest first.
    pub fn all(&self) -> (r: &[StateRootEntry])
        ensures
            r@ == self@,
    {
        self.entries.as_slice()
    }

    /// Get number of entries.
    pub fn len(&self) -> (n: usize)
        ensures
            n == self@.len(),
    {
        self.entries.len()
    }

    /// Check if empty.
    pub fn is_empty(&self) -> (r: bool)
        ensures
            r == (self@.len() == 0),
    {
        self.entries.len() == 0
    }

    /// Clear history.
    pub fn clear(&mut self)
        ensures
            final(self)@.len() == 0,
            final(self).limit() == old(self).limit(),
    {
        self.entries.clear();
    }
}

impl Default for StateRootHistory {
    /// An empty history of size zero: every entry added to it replaces
    /// nothing and stays.
    fn default() -> (h: Self)
        ensures
            h@.len() == 0,
            h.limit() == 0,
    {
        StateRootHistory { entries: Vec::new(), max_size: 0 }
    }
}

/// A history that holds at least one entry and is not over its limit stays
/// within the limit when an entry is added, and the entry added is its
/// latest.
pub proof fn lemma_added_bounded(entries: Seq<StateRootEntry>, max_size: nat, entry: StateRootEntry)
    requires
        max_size > 0,
        entries.len() <= max_size,
    ensures
        added(entries, max_size, entry).len() <= max_size,
        added(entries, max_size, entry).last() == entry,
{
}

} // verus!

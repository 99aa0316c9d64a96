//! The state manager: the account store, the nullifier set and the sync
//! checkpoint around the Merkle tree.
//!
//! The manager holds its collections in memory. The layer around the engine
//! keeps them durable: it hands the stored records in when a manager is
//! restored, and writes out what each operation returns.
//!
//! Two kinds of leaves stand in the tree. A deposit enters it as the
//! commitment that the chain holds, and stays so while the note behind it is
//! only credited: the local tree then has the chain's root. A note's own
//! leaf, the hash of its public key, balance and nonce, is written when the
//! note is created here or updated after a spend.

use vstd::prelude::*;
use crate::account::{holder_key, AccountSecret, PrivateAccount};
use crate::decimal::{decimal_digits, u128_to_decimal};
use crate::error::CoreError;
use crate::hexfmt::{hex_chars, hex_encode};
use crate::merkle::{
    empty_subtree, field_values, leaf_value, proof_path, root_of, MerkleTree, MAX_LEAVES,
};
use crate::poseidon::{pubkey_of, FieldElement, PoseidonHasher};
use crate::storage::{bytes32, lemma_bytes32, same_bytes};
use crate::journal::{
    bytes_of, count_status, journal_members, lemma_newest_first, lemma_shelved_at, member_texts,
    newest_first, picked, records, same_entry, text_of, write_json_object,
};

verus! {

/// What the state manager is to its users.
pub ghost struct StateModel {
    /// The notes of the local store, in the order of their positions.
    pub accounts: Seq<PrivateAccount>,
    /// Number of leaves of the tree.
    pub leaf_count: nat,
    /// The written leaves of the tree, by position.
    pub leaves: Map<nat, nat>,
    /// The used nullifiers, in the order in which they were marked.
    pub nullifiers: Seq<Seq<u8>>,
    /// The block height up to which the chain was replayed.
    pub checkpoint: Option<u64>,
}

/// The state in which nothing has happened.
pub open spec fn empty_state() -> StateModel {
    StateModel {
        accounts: Seq::empty(),
        leaf_count: 0,
        leaves: Map::empty(),
        nullifiers: Seq::empty(),
        checkpoint: None,
    }
}

/// Whether the notes stand in the strict order of their positions.
pub open spec fn ascending(accounts: Seq<PrivateAccount>) -> bool {
    forall|i: int, j: int|
        0 <= i < j < accounts.len() ==> (#[trigger] accounts[i]).index < (#[trigger] accounts[j]).index
}

/// Whether a note with the given public key is stored.
pub open spec fn has_pubkey(accounts: Seq<PrivateAccount>, pubkey: Seq<u8>) -> bool {
    exists|i: int| 0 <= i < accounts.len() && (#[trigger] accounts[i]).pubkey@ == pubkey
}

/// Whether a note at the given position is stored.
pub open spec fn has_index(accounts: Seq<PrivateAccount>, index: u64) -> bool {
    exists|i: int| 0 <= i < accounts.len() && (#[trigger] accounts[i]).index == index
}

/// Whether no two notes share a public key.
pub open spec fn distinct_pubkeys(accounts: Seq<PrivateAccount>) -> bool {
    forall|i: int, j: int|
        0 <= i < j < accounts.len() ==> (#[trigger] accounts[i]).pubkey@ != (
        #[trigger] accounts[j]).pubkey@
}

/// The rules of the store: one note per public key and per position, every
/// position inside the tree, no nullifier twice.
pub open spec fn sound(m: StateModel) -> bool {
    &&& ascending(m.accounts)
    &&& distinct_pubkeys(m.accounts)
    &&& forall|i: int| 0 <= i < m.accounts.len() ==> (#[trigger] m.accounts[i]).index < m.leaf_count
    &&& m.leaf_count <= MAX_LEAVES
    &&& m.nullifiers.no_duplicates()
}

/// Whether the leaf of a note stands in the tree at the note's position.
/// It does after the note was created or updated here; it does not while the
/// position holds the commitment of the deposit that the note was credited
/// for.
pub open spec fn leaf_stands(m: StateModel, a: PrivateAccount) -> bool {
    leaf_value(m.leaves, a.index as nat) == a.leaf_spec()
}

/// The leaves after the positions from `from` up to `to` were filled with
/// the empty leaf.
pub open spec fn fill_gap(leaves: Map<nat, nat>, from: nat, to: nat) -> Map<nat, nat> {
    Map::new(
        |k: nat| leaves.contains_key(k) || from <= k < to,
        |k: nat|
            if from <= k < to {
                empty_subtree(0)
            } else {
                leaves[k]
            },
    )
}

/// How loading stored notes ends.
pub ghost enum Loaded {
    /// Every note was taken in; this is the state then.
    Done(StateModel),
    /// A note breaks a rule of the store.
    Conflict,
    /// A note lies beyond the capacity of the tree.
    Full,
}

/// Taking one stored note into a state: the tree is filled with empty leaves
/// up to the note's position and receives the note's leaf there.
pub open spec fn load_row(m: StateModel, a: PrivateAccount) -> Loaded {
    if a.index < m.leaf_count || has_pubkey(m.accounts, a.pubkey@) {
        Loaded::Conflict
    } else if a.index >= MAX_LEAVES {
        Loaded::Full
    } else {
        Loaded::Done(
            StateModel {
                accounts: m.accounts.push(a),
                leaf_count: (a.index + 1) as nat,
                leaves: fill_gap(m.leaves, m.leaf_count, a.index as nat).insert(
                    a.index as nat,
                    a.leaf_spec(),
                ),
                ..m
            },
        )
    }
}

/// Taking stored notes into a state, one after the other, up to the first
/// that cannot be taken.
pub open spec fn load_rows(m: StateModel, rows: Seq<PrivateAccount>) -> Loaded
    decreases rows.len(),
{
    if rows.len() == 0 {
        Loaded::Done(m)
    } else {
        match load_rows(m, rows.drop_last()) {
            Loaded::Done(before) => load_row(before, rows.last()),
            other => other,
        }
    }
}

/// The nullifier list after stored nullifiers were taken in: those of 32
/// bytes that the list does not hold yet, in their order.
pub open spec fn load_nullifiers(have: Seq<Seq<u8>>, rows: Seq<Seq<u8>>) -> Seq<Seq<u8>>
    decreases rows.len(),
{
    if rows.len() == 0 {
        have
    } else {
        let before = load_nullifiers(have, rows.drop_last());
        if rows.last().len() == 32 && !before.contains(rows.last()) {
            before.push(rows.last())
        } else {
            before
        }
    }
}

/// The byte sequences of a list of stored blobs.
pub open spec fn blobs(rows: Seq<Vec<u8>>) -> Seq<Seq<u8>> {
    rows.map_values(|v: Vec<u8>| v@)
}

/// State manager of the engine.
pub struct StateManager {
    /// The account store.
    pub(crate) accounts: Vec<PrivateAccount>,
    /// The Merkle tree.
    pub(crate) tree: MerkleTree,
    /// The hasher of the manager.
    pub(crate) hasher: PoseidonHasher,
    /// The used nullifiers.
    pub(crate) used_nullifiers: Vec<[u8; 32]>,
    /// The sync checkpoint.
    pub(crate) checkpoint: Option<u64>,
    /// The transaction journal.
    pub(crate) transactions: Vec<TransactionRecord>,
}

/// One entry of the transaction journal.
#[derive(Debug, Clone)]
pub struct TransactionRecord {
    pub id: u64,
    pub tx_type: String,
    pub data: Vec<u8>,
    pub status: String,
    pub created_at: u64,
}

impl View for StateManager {
    type V = StateModel;

    closed spec fn view(&self) -> StateModel {
        StateModel {
            accounts: self.accounts@,
            leaf_count: self.tree@.leaf_count,
            leaves: self.tree@.leaves,
            nullifiers: self.used_nullifiers@.map_values(|n: [u8; 32]| n@),
            checkpoint: self.checkpoint,
        }
    }
}

impl StateManager {
    /// The invariant of the manager: the tree is well formed and the store
    /// keeps its rules.
    pub closed spec fn wf(&self) -> bool {
        &&& self.tree.wf()
        &&& sound(self@)
    }

    /// The current root, as a number of the field.
    pub closed spec fn root_value(&self) -> nat {
        self.tree@.root
    }

    /// The hasher that the manager owns.
    pub closed spec fn own_hasher(&self) -> PoseidonHasher {
        self.hasher
    }

    /// The journal, oldest entry first.
    pub closed spec fn journal(&self) -> Seq<TransactionRecord> {
        self.transactions@
    }

    /// What the invariant gives: the rules of the store, and the root of the
    /// written leaves.
    pub proof fn lemma_wf(&self)
        requires
            self.wf(),
        ensures
            sound(self@),
            self.root_value() == root_of(self@.leaves),
    {
        self.tree.lemma_wf();
    }

    /// Create an empty state manager.
    #[inline]
    pub fn in_memory() -> (r: Result<Self, CoreError>)
        ensures
            r is Ok,
            r->Ok_0.wf(),
            r->Ok_0@ == empty_state(),
            r->Ok_0.journal().len() == 0,
    {
        let manager = StateManager {
            accounts: Vec::new(),
            tree: MerkleTree::new(),
            hasher: PoseidonHasher::new(),
            used_nullifiers: Vec::new(),
            checkpoint: None,
            transactions: Vec::new(),
        };
        proof {
            assert(manager@.nullifiers =~= Seq::<Seq<u8>>::empty());
            assert(manager@.accounts =~= Seq::<PrivateAccount>::empty());
        }
        Ok(manager)
    }

    /// Create a state manager from what the durable store holds: the notes
    /// in the order of their positions, the used nullifiers and the sync
    /// checkpoint. The tree is rebuilt from the notes.
    #[inline]
    pub fn restore(
        accounts: &Vec<PrivateAccount>,
        nullifiers: &Vec<Vec<u8>>,
        checkpoint: Option<u64>,
    ) -> (r: Result<Self, CoreError>)
        ensures
            match load_rows(empty_state(), accounts@) {
                Loaded::Done(m) => r is Ok && r->Ok_0.wf() && r->Ok_0@ == (StateModel {
                    nullifiers: load_nullifiers(Seq::empty(), blobs(nullifiers@)),
                    checkpoint: checkpoint,
                    ..m
                }),
                Loaded::Conflict => r is Err && r->Err_0 is Database,
                Loaded::Full => r is Err && r->Err_0 is TreeFull,
            },
    {
        let mut manager = StateManager {
            accounts: Vec::new(),
            tree: MerkleTree::new(),
            hasher: PoseidonHasher::new(),
            used_nullifiers: Vec::new(),
            checkpoint: None,
            transactions: Vec::new(),
        };
        proof {
            assert(manager@.nullifiers =~= Seq::<Seq<u8>>::empty());
            assert(manager@.accounts =~= Seq::<PrivateAccount>::empty());
        }
        match manager.load_state(accounts, nullifiers) {
            Err(e) => Err(e),
            Ok(()) => {
                manager.checkpoint = checkpoint;
                Ok(manager)
            },
        }
    }

    /// Take stored notes and stored nullifiers into the state. The notes
    /// come in the order of their positions; gaps between them are filled
    /// with the empty leaf, so that every note's leaf stands at its own
    /// position. Loading stops at the first note that cannot be taken.
    pub fn load_state(&mut self, accounts: &Vec<PrivateAccount>, nullifiers: &Vec<Vec<u8>>) -> (r:
        Result<(), CoreError>)
        requires
            old(self).wf(),
        ensures
            final(self).wf(),
            match load_rows(old(self)@, accounts@) {
                Loaded::Done(m) => r is Ok && final(self)@ == (StateModel {
                    nullifiers: load_nullifiers(old(self)@.nullifiers, blobs(nullifiers@)),
                    ..m
                }),
                Loaded::Conflict => r is Err && r->Err_0 is Database,
                Loaded::Full => r is Err && r->Err_0 is TreeFull,
            },
            r is Err ==> exists|k: int|
                0 <= k < accounts@.len() && #[trigger] load_rows(old(self)@, accounts@.take(k))
                    == Loaded::Done(final(self)@),
            final(self).journal() == old(self).journal(),
    {
        let ghost start = self@;
        let mut i: usize = 0;
        while i < accounts.len()
            invariant
                i <= accounts@.len(),
                self.wf(),
                start == old(self)@,
                load_rows(start, accounts@.take(i as int)) == Loaded::Done(self@),
                self@.nullifiers == start.nullifiers,
                self.transactions == old(self).transactions,
            decreases accounts@.len() - i,
        {
            let account = accounts[i];
            let ghost before = self@;
            proof {
                assert(accounts@.take(i + 1).drop_last() =~= accounts@.take(i as int));
                assert(accounts@.take(i + 1).last() == account);
            }
            if account.index < self.tree.leaf_count() || self.find_by_pubkey(&account.pubkey).is_some() {
                proof {
                    lemma_load_stops(start, accounts@, i + 1);
                }
                return Err(
                    CoreError::Database(String::from_str("UNIQUE constraint failed: accounts")),
                );
            }
            if account.index >= MAX_LEAVES {
                proof {
                    lemma_load_stops(start, accounts@, i + 1);
                }
                return Err(CoreError::TreeFull);
            }
            self.fill_to(account.index);
            let leaf = account.compute_leaf(&mut self.hasher);
            let _ = self.tree.insert(leaf);
            self.accounts.push(account);
            proof {
                assert(self@.accounts =~= before.accounts.push(account));
                lemma_push_keeps_sound(before, account);
            }
            i += 1;
        }
        proof {
            assert(accounts@.take(i as int) =~= accounts@);
        }
        let ghost loaded = self@;
        let mut j: usize = 0;
        while j < nullifiers.len()
            invariant
                j <= nullifiers@.len(),
                self.wf(),
                start == old(self)@,
                load_rows(start, accounts@) == Loaded::Done(loaded),
                self@ == (StateModel {
                    nullifiers: load_nullifiers(start.nullifiers, blobs(nullifiers@).take(j as int)),
                    ..loaded
                }),
                loaded.nullifiers == start.nullifiers,
                self.transactions == old(self).transactions,
            decreases nullifiers@.len() - j,
        {
            let ghost rows = blobs(nullifiers@);
            proof {
                assert(rows.take(j + 1).drop_last() =~= rows.take(j as int));
                assert(rows.take(j + 1).last() == nullifiers@[j as int]@);
            }
            if nullifiers[j].len() == 32 {
                let blob = crate::storage::decode_pubkey(nullifiers[j].as_slice());
                if !self.is_nullifier_used(&blob) {
                    let ghost prior = self.used_nullifiers@.map_values(|n: [u8; 32]| n@);
                    self.used_nullifiers.push(blob);
                    proof {
                        assert(self@.nullifiers =~= prior.push(blob@));
                    }
                }
            }
            j += 1;
        }
        proof {
            assert(blobs(nullifiers@).take(j as int) =~= blobs(nullifiers@));
        }
        Ok(())
    }

    /// Append empty leaves until the tree has `index` leaves.
    fn fill_to(&mut self, index: u64)
        requires
            old(self).wf(),
            old(self)@.leaf_count <= index <= MAX_LEAVES,
        ensures
            final(self).wf(),
            final(self)@ == (StateModel {
                leaf_count: index as nat,
                leaves: fill_gap(old(self)@.leaves, old(self)@.leaf_count, index as nat),
                ..old(self)@
            }),
            final(self).transactions == old(self).transactions,
    {
        let ghost start = self@;
        proof {
            assert(fill_gap(start.leaves, start.leaf_count, start.leaf_count) =~= start.leaves);
        }
        while self.tree.leaf_count() < index
            invariant
                self.wf(),
                start.leaf_count <= self@.leaf_count <= index <= MAX_LEAVES,
                self@ == (StateModel {
                    leaf_count: self@.leaf_count,
                    leaves: fill_gap(start.leaves, start.leaf_count, self@.leaf_count),
                    ..start
                }),
                self.transactions == old(self).transactions,
            decreases index - self@.leaf_count,
        {
            let ghost count = self@.leaf_count;
            let empty = self.tree.empty_hash(0);
            let _ = self.tree.insert(empty);
            proof {
                assert(fill_gap(start.leaves, start.leaf_count, count).insert(count, empty_subtree(0))
                    =~= fill_gap(start.leaves, start.leaf_count, count + 1));
            }
        }
    }

    /// Where in the store the note with a public key stands.
    fn find_by_pubkey(&self, pubkey: &[u8; 32]) -> (r: Option<usize>)
        ensures
            r is Some <==> has_pubkey(self@.accounts, pubkey@),
            r is Some ==> r->Some_0 < self@.accounts.len() && self@.accounts[r->Some_0 as int].pubkey@
                == pubkey@,
    {
        let mut i: usize = 0;
        while i < self.accounts.len()
            invariant
                i <= self.accounts@.len(),
                forall|k: int| 0 <= k < i ==> (#[trigger] self.accounts@[k]).pubkey@ != pubkey@,
            decreases self.accounts@.len() - i,
        {
            if same_bytes(&self.accounts[i].pubkey, pubkey) {
                return Some(i);
            }
            i += 1;
        }
        None
    }

    /// Where in the store the note at a position stands.
    fn find_by_index(&self, index: u64) -> (r: Option<usize>)
        ensures
            r is Some <==> has_index(self@.accounts, index),
            r is Some ==> r->Some_0 < self@.accounts.len() && self@.accounts[r->Some_0 as int].index
                == index,
    {
        let mut i: usize = 0;
        while i < self.accounts.len()
            invariant
                i <= self.accounts@.len(),
                forall|k: int| 0 <= k < i ==> (#[trigger] self.accounts@[k]).index != index,
            decreases self.accounts@.len() - i,
        {
            if self.accounts[i].index == index {
                return Some(i);
            }
            i += 1;
        }
        None
    }

    /// Get the current state root.
    pub fn state_root(&self) -> (r: FieldElement)
        requires
            self.wf(),
        ensures
            r@ == root_of(self@.leaves),
            r@ == self.root_value(),
    {
        proof {
            self.tree.lemma_wf();
        }
        self.tree.root()
    }

    /// Get the current leaf count.
    pub fn leaf_count(&self) -> (n: u64)
        ensures
            n == self@.leaf_count,
    {
        self.tree.leaf_count()
    }

    /// Check if a nullifier has been used.
    pub fn is_nullifier_used(&self, nullifier: &[u8; 32]) -> (used: bool)
        ensures
            used == self@.nullifiers.contains(nullifier@),
    {
        let ghost list = self@.nullifiers;
        let mut i: usize = 0;
        while i < self.used_nullifiers.len()
            invariant
                i <= self.used_nullifiers@.len(),
                list == self@.nullifiers,
                list.len() == self.used_nullifiers@.len(),
                forall|k: int| 0 <= k < i ==> (#[trigger] list[k]) != nullifier@,
            decreases self.used_nullifiers@.len() - i,
        {
            if same_bytes(&self.used_nullifiers[i], nullifier) {
                assert(list[i as int] == nullifier@);
                return true;
            }
            i += 1;
        }
        false
    }

    /// Mark a nullifier as used. A nullifier that is in the set already is
    /// refused, and the set stays as it is.
    pub fn mark_nullifier_used(&mut self, nullifier: &[u8; 32]) -> (r: Result<(), CoreError>)
        requires
            old(self).wf(),
        ensures
            final(self).wf(),
            final(self).journal() == old(self).journal(),
            old(self)@.nullifiers.contains(nullifier@) ==> r is Err && r->Err_0 is NullifierUsed
                && r->Err_0->NullifierUsed_0@ == hex_chars(nullifier@) && final(self)@ == old(self)@,
            !old(self)@.nullifiers.contains(nullifier@) ==> r is Ok && final(self)@ == (StateModel {
                nullifiers: old(self)@.nullifiers.push(nullifier@),
                ..old(self)@
            }),
    {
        if self.is_nullifier_used(nullifier) {
            return Err(CoreError::NullifierUsed(hex_encode(nullifier.as_slice())));
        }
        let ghost prior = self@.nullifiers;
        self.used_nullifiers.push(*nullifier);
        proof {
            assert(self@.nullifiers =~= prior.push(nullifier@));
        }
        Ok(())
    }

    /// Create a new account at the next free position and insert its leaf
    /// into the tree.
    pub fn create_account(&mut self, secret: &AccountSecret, initial_balance: u128) -> (r: Result<
        PrivateAccount,
        CoreError,
    >)
        requires
            old(self).wf(),
        ensures
            final(self).wf(),
            final(self).journal() == old(self).journal(),
            old(self)@.leaf_count >= MAX_LEAVES ==> r is Err && r->Err_0 is TreeFull && final(self)@
                == old(self)@,
            old(self)@.leaf_count < MAX_LEAVES && r is Err ==> r->Err_0 is Database && final(self)@
                == old(self)@,
            old(self)@.leaf_count < MAX_LEAVES ==> (r is Err <==> has_pubkey(
                old(self)@.accounts,
                holder_key(secret.value()),
            )),
            r is Ok ==> {
                let account = r->Ok_0;
                &&& account.pubkey@ == holder_key(secret.value())
                &&& account.pubkey_value() == pubkey_of(secret.value())
                &&& account.balance == initial_balance
                &&& account.nonce == 0
                &&& account.index == old(self)@.leaf_count
                &&& final(self)@ == (StateModel {
                    accounts: old(self)@.accounts.push(account),
                    leaf_count: old(self)@.leaf_count + 1,
                    leaves: old(self)@.leaves.insert(account.index as nat, account.leaf_spec()),
                    ..old(self)@
                })
                &&& leaf_stands(final(self)@, account)
            },
    {
        if self.tree.leaf_count() >= MAX_LEAVES {
            return Err(CoreError::TreeFull);
        }
        let index = self.tree.leaf_count();
        let account = PrivateAccount::with_balance(
            &mut self.hasher,
            secret.secret(),
            index,
            initial_balance,
        );
        let ghost before = self@;
        match self.find_by_pubkey(&account.pubkey) {
            Some(at) => {
                return Err(
                    CoreError::Database(
                        String::from_str("UNIQUE constraint failed: accounts.pubkey"),
                    ),
                );
            },
            None => {},
        }
        let leaf = account.compute_leaf(&mut self.hasher);
        let _ = self.tree.insert(leaf);
        self.accounts.push(account);
        proof {
            assert(self@.accounts =~= before.accounts.push(account));
            assert(fill_gap(before.leaves, before.leaf_count, before.leaf_count) =~= before.leaves);
            lemma_push_keeps_sound(before, account);
        }
        Ok(account)
    }

    /// Get an account by public key.
    pub fn get_account(&self, pubkey: &[u8; 32]) -> (r: Result<Option<PrivateAccount>, CoreError>)
        ensures
            r is Ok,
            r->Ok_0 is Some <==> has_pubkey(self@.accounts, pubkey@),
            r->Ok_0 is Some ==> self@.accounts.contains(r->Ok_0->Some_0) && r->Ok_0->Some_0.pubkey@
                == pubkey@,
    {
        match self.find_by_pubkey(pubkey) {
            Some(at) => Ok(Some(self.accounts[at])),
            None => Ok(None),
        }
    }

    /// Get an account by leaf index.
    pub fn get_account_by_index(&self, index: u64) -> (r: Result<Option<PrivateAccount>, CoreError>)
        ensures
            r is Ok,
            r->Ok_0 is Some <==> has_index(self@.accounts, index),
            r->Ok_0 is Some ==> self@.accounts.contains(r->Ok_0->Some_0) && r->Ok_0->Some_0.index
                == index,
    {
        match self.find_by_index(index) {
            Some(at) => Ok(Some(self.accounts[at])),
            None => Ok(None),
        }
    }

    /// Take the balance and the nonce of `account` into the stored note at
    /// the same position, and write that note's leaf into the tree. Without
    /// a note at that position nothing changes.
    pub fn update_account(&mut self, account: &PrivateAccount) -> (r: Result<(), CoreError>)
        requires
            old(self).wf(),
        ensures
            final(self).wf(),
            final(self).journal() == old(self).journal(),
            !has_index(old(self)@.accounts, account.index) ==> r is Err && r->Err_0 is AccountNotFound
                && r->Err_0->AccountNotFound_0@ == decimal_digits(account.index as nat) && final(self)@ == old(self)@,
            has_index(old(self)@.accounts, account.index) ==> r is Ok && exists|at: int|
                0 <= at < old(self)@.accounts.len() && (#[trigger] old(self)@.accounts[at]).index
                    == account.index && {
                    let stored = PrivateAccount {
                        balance: account.balance,
                        nonce: account.nonce,
                        ..old(self)@.accounts[at]
                    };
                    final(self)@ == (StateModel {
                        accounts: old(self)@.accounts.update(at, stored),
                        leaves: old(self)@.leaves.insert(account.index as nat, stored.leaf_spec()),
                        ..old(self)@
                    }) && leaf_stands(final(self)@, stored)
                },
    {
        match self.find_by_index(account.index) {
            None => Err(CoreError::AccountNotFound(u128_to_decimal(account.index as u128))),
            Some(at) => {
                let ghost before = self@;
                let old_record = self.accounts[at];
                let stored = PrivateAccount {
                    pubkey: old_record.pubkey,
                    balance: account.balance,
                    nonce: account.nonce,
                    index: old_record.index,
                };
                self.accounts.set(at, stored);
                let leaf = stored.compute_leaf(&mut self.hasher);
                let _ = self.tree.update_leaf(stored.index, leaf);
                proof {
                    assert(self@.accounts =~= before.accounts.update(at as int, stored));
                    lemma_update_keeps_sound(before, at as int, stored);
                }
                Ok(())
            },
        }
    }

    /// Get the membership proof of a position.
    pub fn get_merkle_proof(&self, index: u64) -> (proof: Vec<FieldElement>)
        requires
            self.wf(),
        ensures
            field_values(proof@) == proof_path(self@.leaves, index as nat),
    {
        self.tree.get_proof(index)
    }

    /// Get the hasher of the manager: what is done to it through the
    /// reference is done to the manager's own hasher, and to nothing else of
    /// the manager.
    pub fn hasher(&mut self) -> (h: &mut PoseidonHasher)
        ensures
            *h == old(self).own_hasher(),
            final(self).own_hasher() == *final(h),
            final(self)@ == old(self)@,
            final(self).journal() == old(self).journal(),
            old(self).wf() ==> final(self).wf(),
    {
        &mut self.hasher
    }

    /// Get the Merkle tree.
    pub fn tree(&self) -> (t: &MerkleTree)
        ensures
            t@.leaf_count == self@.leaf_count,
            t@.leaves == self@.leaves,
            t@.root == self.root_value(),
            self.wf() ==> t.wf(),
    {
        &self.tree
    }

    /// The notes of the store in the order of their positions, as the
    /// durable store keeps them.
    pub fn stored_accounts(&self) -> (r: Vec<PrivateAccount>)
        ensures
            r@ == self@.accounts,
    {
        let mut out: Vec<PrivateAccount> = Vec::new();
        let mut i: usize = 0;
        while i < self.accounts.len()
            invariant
                i <= self.accounts@.len(),
                out@ == self.accounts@.take(i as int),
            decreases self.accounts@.len() - i,
        {
            out.push(self.accounts[i]);
            proof {
                assert(out@ =~= self.accounts@.take(i + 1));
            }
            i += 1;
        }
        proof {
            assert(self.accounts@.take(i as int) =~= self.accounts@);
        }
        out
    }

    /// The used nullifiers in the order in which they were marked, as the
    /// durable store keeps them.
    pub fn stored_nullifiers(&self) -> (r: Vec<Vec<u8>>)
        ensures
            blobs(r@) == self@.nullifiers,
    {
        let mut out: Vec<Vec<u8>> = Vec::new();
        let mut i: usize = 0;
        while i < self.used_nullifiers.len()
            invariant
                i <= self.used_nullifiers@.len(),
                out@.len() == i,
                forall|k: int| 0 <= k < i ==> (#[trigger] out@[k])@ == self.used_nullifiers@[k]@,
            decreases self.used_nullifiers@.len() - i,
        {
            out.push(crate::storage::bytes32_to_vec(&self.used_nullifiers[i]));
            i += 1;
        }
        proof {
            assert(blobs(out@) =~= self@.nullifiers);
        }
        out
    }

    /// Get the sync checkpoint: the last block of the last range that was
    /// replayed in full, if any was.
    pub fn get_sync_checkpoint(&self) -> (r: Option<u64>)
        ensures
            r == self@.checkpoint,
    {
        self.checkpoint
    }

    /// Set the sync checkpoint.
    pub fn set_sync_checkpoint(&mut self, block: u64) -> (r: Result<(), CoreError>)
        ensures
            r is Ok,
            final(self)@ == (StateModel { checkpoint: Some(block), ..old(self)@ }),
            final(self).journal() == old(self).journal(),
            old(self).wf() ==> final(self).wf(),
    {
        self.checkpoint = Some(block);
        Ok(())
    }

    /// Append a raw leaf to the tree, as sync does it with the commitment of
    /// a deposit, and return its position.
    pub fn insert_leaf(&mut self, leaf: FieldElement) -> (r: Result<u64, CoreError>)
        requires
            old(self).wf(),
        ensures
            final(self).wf(),
            final(self).journal() == old(self).journal(),
            old(self)@.leaf_count >= MAX_LEAVES ==> r is Err && r->Err_0 is TreeFull && final(self)@
                == old(self)@,
            old(self)@.leaf_count < MAX_LEAVES ==> r == Ok::<u64, CoreError>(
                old(self)@.leaf_count as u64,
            ) && final(self)@ == (StateModel {
                leaf_count: old(self)@.leaf_count + 1,
                leaves: old(self)@.leaves.insert(old(self)@.leaf_count, leaf@),
                ..old(self)@
            }),
    {
        let index = self.tree.leaf_count();
        match self.tree.insert(leaf) {
            Ok(_) => Ok(index),
            Err(e) => Err(e),
        }
    }

    /// Take a recognized deposit into the store: the holder's note is
    /// credited, or created at the deposit's position if the holder has
    /// none. The tree keeps the deposit's commitment at that position.
    pub fn credit_deposit(&mut self, secret: &AccountSecret, leaf_index: u64, amount: u128) -> (r:
        Result<PrivateAccount, CoreError>)
        requires
            old(self).wf(),
        ensures
            final(self).wf(),
            final(self).journal() == old(self).journal(),
            match deposit_credited(old(self)@, holder_key(secret.value()), leaf_index, amount) {
                Some(m) => r is Ok && final(self)@ == m && final(self)@.accounts.contains(r->Ok_0)
                    && r->Ok_0.pubkey@ == holder_key(secret.value()),
                None => r is Err && r->Err_0 is Database && final(self)@ == old(self)@,
            },
            r is Ok && !has_pubkey(old(self)@.accounts, holder_key(secret.value())) ==> r->Ok_0.balance
                == amount && r->Ok_0.nonce == 0 && r->Ok_0.index == leaf_index,
    {
        let fresh = PrivateAccount::with_balance(&mut self.hasher, secret.secret(), leaf_index, amount);
        let ghost before = self@;
        match self.find_by_pubkey(&fresh.pubkey) {
            Some(at) => {
                let mut record = self.accounts[at];
                record.credit(amount);
                self.accounts.set(at, record);
                proof {
                    assert(self@.accounts =~= before.accounts.update(at as int, record));
                    lemma_update_keeps_sound(before, at as int, record);
                    lemma_position_unique(before, holder_key(secret.value()), at as int);
                    assert(self@.accounts[at as int] == record);
                }
                Ok(record)
            },
            None => {
                let n = self.accounts.len();
                if leaf_index >= self.tree.leaf_count() || (n > 0 && self.accounts[n - 1].index
                    >= leaf_index) {
                    proof {
                        if n > 0 && before.accounts[n - 1].index >= leaf_index {
                            assert(lies_at_or_after(before.accounts, leaf_index));
                        }
                    }
                    return Err(
                        CoreError::Database(
                            String::from_str("UNIQUE constraint failed: accounts.leaf_index"),
                        ),
                    );
                }
                proof {
                    assert(!lies_at_or_after(before.accounts, leaf_index)) by {
                        if lies_at_or_after(before.accounts, leaf_index) {
                            let k = choose|k: int|
                                0 <= k < before.accounts.len() && (#[trigger] before.accounts[k]).index
                                    >= leaf_index;
                            if k < n - 1 {
                                assert(before.accounts[k].index < before.accounts[n - 1].index);
                            }
                        }
                    }
                }
                self.accounts.push(fresh);
                proof {
                    assert(self@.accounts =~= before.accounts.push(fresh));
                    lemma_append_keeps_sound(before, fresh);
                    assert(self@.accounts[n as int] == fresh);
                    lemma_bytes32(holder_key(secret.value()));
                }
                Ok(fresh)
            },
        }
    }
}

/// Where the note with the given public key stands in the store.
pub open spec fn position_of(accounts: Seq<PrivateAccount>, key: Seq<u8>) -> int {
    choose|i: int| 0 <= i < accounts.len() && (#[trigger] accounts[i]).pubkey@ == key
}

/// The state after a recognized deposit was taken into the store: the
/// holder's note is credited, or created at the deposit's position if the
/// holder has none and the position is a leaf of the tree behind all stored
/// notes. The tree is not touched.
pub open spec fn deposit_credited(m: StateModel, key: Seq<u8>, index: u64, amount: u128) -> Option<
    StateModel,
> {
    if has_pubkey(m.accounts, key) {
        let at = position_of(m.accounts, key);
        Some(StateModel { accounts: m.accounts.update(at, m.accounts[at].credited(amount)), ..m })
    } else if index < m.leaf_count && !lies_at_or_after(m.accounts, index) {
        Some(
            StateModel {
                accounts: m.accounts.push(
                    PrivateAccount { pubkey: bytes32(key), balance: amount, nonce: 0, index: index },
                ),
                ..m
            },
        )
    } else {
        None
    }
}

/// In a sound store the note with a given key stands at one place only.
pub proof fn lemma_position_unique(m: StateModel, key: Seq<u8>, at: int)
    requires
        sound(m),
        0 <= at < m.accounts.len(),
        m.accounts[at].pubkey@ == key,
    ensures
        position_of(m.accounts, key) == at,
{
    let k = position_of(m.accounts, key);
    if k < at {
        assert(m.accounts[k].pubkey@ != m.accounts[at].pubkey@);
    } else if at < k {
        assert(m.accounts[at].pubkey@ != m.accounts[k].pubkey@);
    }
}

/// Whether a note stands at the given position or after it.
pub open spec fn lies_at_or_after(accounts: Seq<PrivateAccount>, index: u64) -> bool {
    exists|k: int| 0 <= k < accounts.len() && (#[trigger] accounts[k]).index >= index
}

/// A sound state stays sound when the tree takes the leaf of a note that is
/// then appended to the store.
pub proof fn lemma_push_keeps_sound(m: StateModel, a: PrivateAccount)
    requires
        sound(m),
        m.leaf_count <= a.index < MAX_LEAVES,
        !has_pubkey(m.accounts, a.pubkey@),
    ensures
        sound(
            StateModel {
                accounts: m.accounts.push(a),
                leaf_count: (a.index + 1) as nat,
                leaves: fill_gap(m.leaves, m.leaf_count, a.index as nat).insert(
                    a.index as nat,
                    a.leaf_spec(),
                ),
                ..m
            },
        ),
{
    let next = m.accounts.push(a);
    assert forall|i: int, j: int| 0 <= i < j < next.len() implies (#[trigger] next[i]).pubkey@ != (
    #[trigger] next[j]).pubkey@ by {
        if j == m.accounts.len() {
            assert(m.accounts[i].pubkey@ != a.pubkey@);
        }
    }
}

/// A sound state stays sound when a note is appended at a position of the
/// tree behind all stored notes.
pub proof fn lemma_append_keeps_sound(m: StateModel, a: PrivateAccount)
    requires
        sound(m),
        a.index < m.leaf_count,
        !lies_at_or_after(m.accounts, a.index),
        !has_pubkey(m.accounts, a.pubkey@),
    ensures
        sound(StateModel { accounts: m.accounts.push(a), ..m }),
{
    let next = m.accounts.push(a);
    assert forall|i: int, j: int| 0 <= i < j < next.len() implies (#[trigger] next[i]).pubkey@ != (
    #[trigger] next[j]).pubkey@ by {
        if j == m.accounts.len() {
            assert(m.accounts[i].pubkey@ != a.pubkey@);
        }
    }
    assert forall|i: int, j: int| 0 <= i < j < next.len() implies (#[trigger] next[i]).index < (
    #[trigger] next[j]).index by {
        if j == m.accounts.len() {
            assert(!(m.accounts[i].index >= a.index));
        }
    }
}

/// A sound state stays sound when a stored note changes its balance and its
/// nonce, whatever the tree holds at its position.
pub proof fn lemma_update_keeps_sound(m: StateModel, at: int, stored: PrivateAccount)
    requires
        sound(m),
        0 <= at < m.accounts.len(),
        stored.pubkey@ == m.accounts[at].pubkey@,
        stored.index == m.accounts[at].index,
    ensures
        sound(StateModel { accounts: m.accounts.update(at, stored), ..m }),
        forall|leaves: Map<nat, nat>|
            sound(StateModel { accounts: m.accounts.update(at, stored), leaves: leaves, ..m }),
{
    let next = m.accounts.update(at, stored);
    assert forall|i: int, j: int| 0 <= i < j < next.len() implies (#[trigger] next[i]).pubkey@ != (
    #[trigger] next[j]).pubkey@ by {
        assert(m.accounts[i].pubkey@ != m.accounts[j].pubkey@);
    }
    assert forall|i: int, j: int| 0 <= i < j < next.len() implies (#[trigger] next[i]).index < (
    #[trigger] next[j]).index by {
        assert(m.accounts[i].index < m.accounts[j].index);
    }
    assert forall|i: int| 0 <= i < next.len() implies (#[trigger] next[i]).index < m.leaf_count by {
        assert(m.accounts[i].index < m.leaf_count);
    }
}

/// Loading that has stopped stays stopped.
pub proof fn lemma_load_stops(m: StateModel, rows: Seq<PrivateAccount>, k: int)
    requires
        0 <= k <= rows.len(),
        !(load_rows(m, rows.take(k)) is Done),
    ensures
        load_rows(m, rows) == load_rows(m, rows.take(k)),
    decreases rows.len() - k,
{
    if k < rows.len() {
        assert(rows.take(k + 1).drop_last() =~= rows.take(k));
        lemma_load_stops(m, rows, k + 1);
    } else {
        assert(rows.take(k) =~= rows);
    }
}

impl StateManager {
    /// Take the entries of a stored journal, oldest first, in place of the
    /// journal.
    pub fn load_journal(&mut self, entries: Vec<TransactionRecord>)
        ensures
            final(self)@ == old(self)@,
            old(self).wf() ==> final(self).wf(),
            final(self).journal() == entries@,
    {
        self.transactions = entries;
    }

    /// Record a transaction in the journal at the time `now`, and return
    /// its number: entries are numbered from one in the order in which they
    /// are recorded.
    pub fn record_transaction(
        &mut self,
        tx_type: &str,
        amount: u128,
        tx_hash: Option<&[u8]>,
        recipient: Option<&str>,
        status: &str,
        now: u64,
    ) -> (r: Result<i64, CoreError>)
        ensures
            final(self)@ == old(self)@,
            old(self).wf() ==> final(self).wf(),
            old(self).journal().len() >= i64::MAX ==> r is Err && r->Err_0 is Database && final(self).journal() == old(self).journal(),
            old(self).journal().len() < i64::MAX ==> r == Ok::<i64, CoreError>(
                (old(self).journal().len() + 1) as i64,
            ) && final(self).journal().len() == old(self).journal().len() + 1 && final(self).journal().drop_last() == old(self).journal() && records(
                final(self).journal().last(),
                old(self).journal().len() + 1,
                tx_type@,
                amount,
                bytes_of(tx_hash),
                text_of(recipient),
                status@,
                now,
            ),
    {
        let n = self.transactions.len();
        if n as u64 >= 0x7fff_ffff_ffff_ffff_u64 {
            return Err(CoreError::Database(String::from_str("journal is full")));
        }
        let hash_text = match tx_hash {
            Some(h) => Some(hex_encode(h)),
            None => None,
        };
        let recipient_text = match recipient {
            Some(who) => Some(String::from_str(who)),
            None => None,
        };
        let mut members: Vec<(String, Option<String>)> = Vec::new();
        members.push((String::from_str("amount"), Some(u128_to_decimal(amount))));
        members.push((String::from_str("tx_hash"), hash_text));
        members.push((String::from_str("recipient"), recipient_text));
        proof {
            assert(member_texts(members@) =~= journal_members(
                amount,
                bytes_of(tx_hash),
                text_of(recipient),
            ));
        }
        let data = write_json_object(&members);
        let id = n as u64 + 1;
        let ghost before = self.transactions@;
        self.transactions.push(
            TransactionRecord {
                id,
                tx_type: String::from_str(tx_type),
                data,
                status: String::from_str(status),
                created_at: now,
            },
        );
        proof {
            assert(self.transactions@.drop_last() =~= before);
        }
        Ok(id as i64)
    }

    /// Get the latest entries of the journal, at most `limit` of them, in
    /// the order of their times, the latest first.
    pub fn get_transactions(&self, limit: u32) -> (r: Result<Vec<TransactionRecord>, CoreError>)
        ensures
            r is Ok,
            r->Ok_0@.len() == (if self.journal().len() < limit {
                self.journal().len()
            } else {
                limit as nat
            }),
            forall|k: int|
                0 <= k < r->Ok_0@.len() ==> same_entry(
                    #[trigger] r->Ok_0@[k],
                    newest_first(self.journal())[k],
                ),
    {
        let n = self.transactions.len();
        let ghost journal = self.transactions@;
        let mut order: Vec<usize> = Vec::new();
        let mut i: usize = 0;
        while i < n
            invariant
                i <= n,
                n == self.transactions@.len(),
                journal == self.transactions@,
                order@.len() == i,
                forall|k: int| 0 <= k < order@.len() ==> (#[trigger] order@[k]) < i,
                picked(journal, order@) == newest_first(journal.take(i as int)),
            decreases n - i,
        {
            let time = self.transactions[i].created_at;
            let ghost sorted = picked(journal, order@);
            let mut p: usize = 0;
            while p < order.len() && self.transactions[order[p]].created_at > time
                invariant
                    p <= order@.len(),
                    n == self.transactions@.len(),
                    journal == self.transactions@,
                    i < n,
                    time == journal[i as int].created_at,
                    sorted == picked(journal, order@),
                    forall|k: int| 0 <= k < order@.len() ==> (#[trigger] order@[k]) < i,
                    forall|k: int| 0 <= k < p ==> (#[trigger] sorted[k]).created_at > time,
                decreases order@.len() - p,
            {
                p += 1;
            }
            proof {
                lemma_shelved_at(sorted, journal[i as int], p as int);
                assert(journal.take(i + 1).drop_last() =~= journal.take(i as int));
                assert(journal.take(i + 1).last() == journal[i as int]);
                assert(picked(journal, order@.insert(p as int, i)) =~= sorted.take(p as int).push(
                    journal[i as int],
                ) + sorted.skip(p as int));
            }
            order.insert(p, i);
            i += 1;
        }
        proof {
            assert(journal.take(n as int) =~= journal);
            lemma_newest_first(journal);
        }
        let mut out: Vec<TransactionRecord> = Vec::new();
        let mut k: usize = 0;
        while k < n && k < limit as usize
            invariant
                n == self.transactions@.len(),
                journal == self.transactions@,
                order@.len() == n,
                forall|j: int| 0 <= j < order@.len() ==> (#[trigger] order@[j]) < n,
                picked(journal, order@) == newest_first(journal),
                k <= n,
                k <= limit,
                out@.len() == k,
                forall|j: int|
                    0 <= j < k ==> same_entry(#[trigger] out@[j], newest_first(journal)[j]),
            decreases n - k,
        {
            assert(picked(journal, order@)[k as int] == journal[order@[k as int] as int]);
            out.push(self.transactions[order[k]].duplicate());
            k += 1;
        }
        Ok(out)
    }

    /// Update the status of the entry with the given number. Without such
    /// an entry nothing changes.
    pub fn update_transaction_status(&mut self, id: i64, status: &str) -> (r: Result<(), CoreError>)
        ensures
            r is Ok,
            final(self)@ == old(self)@,
            old(self).wf() ==> final(self).wf(),
            final(self).journal().len() == old(self).journal().len(),
            forall|k: int|
                0 <= k < old(self).journal().len() ==> {
                    let was = #[trigger] old(self).journal()[k];
                    let is = final(self).journal()[k];
                    &&& is.id == was.id
                    &&& is.tx_type@ == was.tx_type@
                    &&& is.data@ == was.data@
                    &&& is.created_at == was.created_at
                    &&& is.status@ == (if was.id == id {
                        status@
                    } else {
                        was.status@
                    })
                },
    {
        let n = self.transactions.len();
        let mut k: usize = 0;
        while k < n
            invariant
                n == self.transactions@.len(),
                n == old(self).transactions@.len(),
                k <= n,
                self@ == old(self)@,
                old(self).wf() ==> self.wf(),
                forall|j: int|
                    0 <= j < n ==> {
                        let was = #[trigger] old(self).transactions@[j];
                        let is = self.transactions@[j];
                        &&& is.id == was.id
                        &&& is.tx_type@ == was.tx_type@
                        &&& is.data@ == was.data@
                        &&& is.created_at == was.created_at
                        &&& is.status@ == (if j < k && was.id == id {
                            status@
                        } else {
                            was.status@
                        })
                    },
            decreases n - k,
        {
            if id >= 0 && self.transactions[k].id == id as u64 {
                let mut entry = self.transactions[k].duplicate();
                entry.status = String::from_str(status);
                self.transactions.set(k, entry);
            }
            k += 1;
        }
        Ok(())
    }

    /// Get the number of pending transactions.
    pub fn pending_transaction_count(&self) -> (r: Result<u64, CoreError>)
        ensures
            r is Ok,
            r->Ok_0 == count_status(self.journal(), "pending"@),
    {
        let n = self.transactions.len();
        let pending = String::from_str("pending");
        let mut count: u64 = 0;
        let mut k: usize = 0;
        while k < n
            invariant
                n == self.transactions@.len(),
                k <= n,
                pending@ == "pending"@,
                count == count_status(self.transactions@.take(k as int), "pending"@),
                count <= k,
            decreases n - k,
        {
            proof {
                assert(self.transactions@.take(k + 1).drop_last() =~= self.transactions@.take(
                    k as int,
                ));
            }
            if self.transactions[k].status == pending {
                count += 1;
            }
            k += 1;
        }
        proof {
            assert(self.transactions@.take(k as int) =~= self.transactions@);
        }
        Ok(count)
    }
}


/// The leaves of a tree that holds the leaves of the first `count` notes at
/// the positions 0 to `count - 1` and nothing else.
pub open spec fn account_leaves(accounts: Seq<PrivateAccount>, count: nat) -> Map<nat, nat> {
    Map::new(|k: nat| k < count, |k: nat| accounts[k as int].leaf_spec())
}

/// Whether the tree of a state holds the leaves of its notes and nothing
/// else: the note at the place `i` of the store stands at position `i`, and
/// the tree has as many leaves as the store has notes.
pub open spec fn only_accounts(m: StateModel) -> bool {
    &&& m.leaf_count == m.accounts.len()
    &&& forall|i: int| 0 <= i < m.accounts.len() ==> (#[trigger] m.accounts[i]).index == i
    &&& m.leaves == account_leaves(m.accounts, m.accounts.len())
}

proof fn lemma_reload_accounts(m: StateModel, k: int)
    requires
        sound(m),
        only_accounts(m),
        0 <= k <= m.accounts.len(),
    ensures
        load_rows(empty_state(), m.accounts.take(k)) == Loaded::Done(
            StateModel {
                accounts: m.accounts.take(k),
                leaf_count: k as nat,
                leaves: account_leaves(m.accounts, k as nat),
                ..empty_state()
            },
        ),
    decreases k,
{
    if k == 0 {
        assert(m.accounts.take(0) =~= Seq::<PrivateAccount>::empty());
        assert(account_leaves(m.accounts, 0) =~= Map::<nat, nat>::empty());
    } else {
        lemma_reload_accounts(m, k - 1);
        let rows = m.accounts.take(k);
        let a = m.accounts[k - 1];
        assert(rows.drop_last() =~= m.accounts.take(k - 1));
        assert(rows.last() == a);
        let before = StateModel {
            accounts: m.accounts.take(k - 1),
            leaf_count: (k - 1) as nat,
            leaves: account_leaves(m.accounts, (k - 1) as nat),
            ..empty_state()
        };
        assert(!has_pubkey(before.accounts, a.pubkey@)) by {
            if has_pubkey(before.accounts, a.pubkey@) {
                let i = choose|i: int|
                    0 <= i < before.accounts.len() && (#[trigger] before.accounts[i]).pubkey@
                        == a.pubkey@;
                assert(m.accounts[i].pubkey@ != m.accounts[k - 1].pubkey@);
            }
        }
        assert(a.index == k - 1);
        assert(a.index < m.leaf_count);
        assert(before.accounts.push(a) =~= rows);
        assert(fill_gap(before.leaves, before.leaf_count, a.index as nat).insert(
            a.index as nat,
            a.leaf_spec(),
        ) =~= account_leaves(m.accounts, k as nat));
    }
}

proof fn lemma_reload_nullifiers(list: Seq<Seq<u8>>, k: int)
    requires
        list.no_duplicates(),
        forall|i: int| 0 <= i < list.len() ==> (#[trigger] list[i]).len() == 32,
        0 <= k <= list.len(),
    ensures
        load_nullifiers(Seq::empty(), list.take(k)) == list.take(k),
    decreases k,
{
    if k == 0 {
        assert(list.take(0) =~= Seq::<Seq<u8>>::empty());
    } else {
        lemma_reload_nullifiers(list, k - 1);
        let rows = list.take(k);
        assert(rows.drop_last() =~= list.take(k - 1));
        assert(rows.last() == list[k - 1]);
        assert(!list.take(k - 1).contains(list[k - 1])) by {
            if list.take(k - 1).contains(list[k - 1]) {
                let head = list.take(k - 1);
                let i = choose|i: int| 0 <= i < head.len() && head[i] == list[k - 1];
                assert(list[i] == list[k - 1]);
            }
        }
        assert(list.take(k - 1).push(list[k - 1]) =~= rows);
    }
}

/// Recovery: a state whose tree holds the leaves of its notes and nothing
/// else comes back from what the durable store holds of it. Loading its
/// notes, its nullifiers and its checkpoint into an empty state gives the
/// same notes, the same leaves and leaf count, therefore the same root, the
/// same nullifiers and the same checkpoint.
pub proof fn lemma_recovery(m: StateModel)
    requires
        sound(m),
        only_accounts(m),
        forall|i: int| 0 <= i < m.nullifiers.len() ==> (#[trigger] m.nullifiers[i]).len() == 32,
    ensures
        load_rows(empty_state(), m.accounts) == Loaded::Done(
            StateModel { nullifiers: Seq::empty(), checkpoint: None, ..m },
        ),
        load_nullifiers(Seq::empty(), m.nullifiers) == m.nullifiers,
        (StateModel {
            nullifiers: load_nullifiers(Seq::empty(), m.nullifiers),
            checkpoint: m.checkpoint,
            ..load_rows(empty_state(), m.accounts)->Done_0
        }) == m,
{
    lemma_reload_accounts(m, m.accounts.len() as int);
    assert(m.accounts.take(m.accounts.len() as int) =~= m.accounts);
    lemma_reload_nullifiers(m.nullifiers, m.nullifiers.len() as int);
    assert(m.nullifiers.take(m.nullifiers.len() as int) =~= m.nullifiers);
}

} // verus!

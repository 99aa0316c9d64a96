//! Witnesses of the deposit, withdrawal and transfer circuits: which values
//! enter a proof, and their text form for the prover.
//!
//! Every scalar is written as `0x` and 64 hex digits; a Merkle path is a list
//! of such scalars from the leaf to the root and has as many entries as the
//! tree is deep.

use vstd::prelude::*;
use crate::decimal::{decimal_digits, u128_to_decimal};
use crate::poseidon::{field_hex, field_to_hex, FieldElement};
use crate::prover::ProverError;

verus! {

/// Tree depth that the circuits are built for.
pub const TREE_DEPTH: usize = 20;

/// An assignment of a scalar: `key = "value"`.
pub open spec fn scalar_line(key: Seq<char>, value: Seq<char>) -> Seq<char> {
    key + " = \""@ + value + "\""@
}

/// The items of a list, each in double quotes, with `, ` between them.
pub open spec fn quoted_list(items: Seq<Seq<char>>) -> Seq<char>
    decreases items.len(),
{
    if items.len() == 0 {
        Seq::<char>::empty()
    } else if items.len() == 1 {
        "\""@ + items[0] + "\""@
    } else {
        quoted_list(items.drop_last()) + ", "@ + "\""@ + items.last() + "\""@
    }
}

/// An assignment of a list: `key = ["a", "b"]`.
pub open spec fn array_line(key: Seq<char>, items: Seq<Seq<char>>) -> Seq<char> {
    key + " = ["@ + quoted_list(items) + "]"@
}

/// The texts of a list of strings.
pub open spec fn texts(items: Seq<String>) -> Seq<Seq<char>> {
    items.map_values(|s: String| s@)
}

/// The hex forms of a list of field elements.
pub open spec fn hex_forms(items: Seq<FieldElement>) -> Seq<Seq<char>> {
    items.map_values(|f: FieldElement| field_hex(f))
}

/// What is said of a path of the wrong length.
pub open spec fn path_complaint(name: Seq<char>, len: nat) -> Seq<char> {
    name + " must have "@ + decimal_digits(20) + " elements, got "@ + decimal_digits(len)
}

fn with_scalar(out: String, key: &str, value: &str) -> (r: String)
    ensures
        r@ == out@ + scalar_line(key@, value@),
{
    let r = out.concat(key).concat(" = \"").concat(value).concat("\"");
    assert(r@ =~= out@ + scalar_line(key@, value@));
    r
}

fn with_line_break(out: String) -> (r: String)
    ensures
        r@ == out@ + "\n"@,
{
    out.concat("\n")
}

fn quoted_items(items: &Vec<String>) -> (r: String)
    ensures
        r@ == quoted_list(texts(items@)),
{
    let ghost all = texts(items@);
    let mut out = String::new();
    let mut i: usize = 0;
    while i < items.len()
        invariant
            i <= items@.len(),
            all == texts(items@),
            out@ == quoted_list(all.take(i as int)),
        decreases items@.len() - i,
    {
        proof {
            assert(all.take(i + 1).drop_last() =~= all.take(i as int));
            assert(all.take(i + 1).last() == items@[i as int]@);
        }
        if i > 0 {
            out = out.concat(", ");
        }
        let ghost head = out@;
        out = out.concat("\"").concat(items[i].as_str()).concat("\"");
        proof {
            if i == 0 {
                assert(all.take(1)[0] == items@[0]@);
                assert(out@ =~= "\""@ + items@[0]@ + "\""@);
            } else {
                assert(out@ =~= quoted_list(all.take(i as int)) + ", "@ + "\""@ + items@[i as int]@
                    + "\""@);
            }
        }
        i += 1;
    }
    proof {
        assert(all.take(i as int) =~= all);
    }
    out
}

fn with_array(out: String, key: &str, items: &Vec<String>) -> (r: String)
    ensures
        r@ == out@ + array_line(key@, texts(items@)),
{
    let list = quoted_items(items);
    let r = out.concat(key).concat(" = [").concat(list.as_str()).concat("]");
    assert(r@ =~= out@ + array_line(key@, texts(items@)));
    r
}

fn hex_path(path: &Vec<FieldElement>) -> (r: Vec<String>)
    ensures
        texts(r@) == hex_forms(path@),
        r@.len() == path@.len(),
{
    let mut out: Vec<String> = Vec::new();
    let mut i: usize = 0;
    while i < path.len()
        invariant
            i <= path@.len(),
            out@.len() == i,
            forall|k: int| 0 <= k < i ==> (#[trigger] out@[k])@ == field_hex(path@[k]),
        decreases path@.len() - i,
    {
        out.push(field_to_hex(&path[i]));
        i += 1;
    }
    assert(texts(out@) =~= hex_forms(path@));
    out
}

fn wrong_length(name: &str, len: usize) -> (e: ProverError)
    ensures
        e is InvalidInput,
        e->InvalidInput_0@ == path_complaint(name@, len as nat),
{
    let text = String::from_str(name).concat(" must have ").concat(
        u128_to_decimal(20).as_str(),
    ).concat(" elements, got ").concat(u128_to_decimal(len as u128).as_str());
    ProverError::InvalidInput(text)
}

/// Deposit witness for the deposit circuit.
#[derive(Debug, Clone)]
pub struct DepositWitness {
    /// Public: the deposit commitment.
    pub commitment: String,
    /// Public: the deposit amount.
    pub amount: String,
    /// Private: the holder's secret.
    pub secret: String,
}

impl DepositWitness {
    /// The text form of the witness.
    pub open spec fn toml(&self) -> Seq<char> {
        scalar_line("commitment"@, self.commitment@) + "\n"@ + scalar_line("amount"@, self.amount@)
            + "\n"@ + scalar_line("secret"@, self.secret@)
    }

    /// Create a new deposit witness.
    pub fn new(commitment: FieldElement, amount: FieldElement, secret: FieldElement) -> (w: Self)
        ensures
            w.commitment@ == field_hex(commitment),
            w.amount@ == field_hex(amount),
            w.secret@ == field_hex(secret),
    {
        DepositWitness {
            commitment: field_to_hex(&commitment),
            amount: field_to_hex(&amount),
            secret: field_to_hex(&secret),
        }
    }

    /// Convert to the text form that the prover reads: one assignment per
    /// line.
    pub fn to_toml(&self) -> (s: String)
        ensures
            s@ == self.toml(),
    {
        let out = with_scalar(String::new(), "commitment", self.commitment.as_str());
        let out = with_scalar(with_line_break(out), "amount", self.amount.as_str());
        let out = with_scalar(with_line_break(out), "secret", self.secret.as_str());
        assert(out@ =~= self.toml());
        out
    }
}

/// Withdrawal witness for the withdrawal circuit.
#[derive(Debug, Clone)]
pub struct WithdrawWitness {
    /// Public: current state root.
    pub state_root: String,
    /// Public: nullifier for this withdrawal.
    pub nullifier: String,
    /// Public: withdrawal amount.
    pub amount: String,
    /// Public: recipient address (as field).
    pub recipient: String,
    /// Private: account secret.
    pub secret: String,
    /// Private: current balance.
    pub balance: String,
    /// Private: account nonce.
    pub nonce: String,
    /// Private: leaf index.
    pub index: String,
    /// Private: Merkle path (siblings).
    pub path: Vec<String>,
}

impl WithdrawWitness {
    /// The text form of the witness.
    pub open spec fn toml(&self) -> Seq<char> {
        scalar_line("state_root"@, self.state_root@) + "\n"@ + scalar_line(
            "nullifier"@,
            self.nullifier@,
        ) + "\n"@ + scalar_line("amount"@, self.amount@) + "\n"@ + scalar_line(
            "recipient"@,
            self.recipient@,
        ) + "\n"@ + scalar_line("secret"@, self.secret@) + "\n"@ + scalar_line(
            "balance"@,
            self.balance@,
        ) + "\n"@ + scalar_line("nonce"@, self.nonce@) + "\n"@ + scalar_line("index"@, self.index@)
            + "\n"@ + array_line("path"@, texts(self.path@))
    }

    /// Create a new withdrawal witness. The path must have as many entries
    /// as the tree is deep.
    pub fn new(
        state_root: FieldElement,
        nullifier: FieldElement,
        amount: FieldElement,
        recipient: FieldElement,
        secret: FieldElement,
        balance: FieldElement,
        nonce: FieldElement,
        index: FieldElement,
        path: Vec<FieldElement>,
    ) -> (r: Result<Self, ProverError>)
        ensures
            path@.len() != TREE_DEPTH ==> r is Err && r->Err_0 is InvalidInput
                && r->Err_0->InvalidInput_0@ == path_complaint("Merkle path"@, path@.len()),
            path@.len() == TREE_DEPTH ==> r is Ok && {
                let w = r->Ok_0;
                &&& w.state_root@ == field_hex(state_root)
                &&& w.nullifier@ == field_hex(nullifier)
                &&& w.amount@ == field_hex(amount)
                &&& w.recipient@ == field_hex(recipient)
                &&& w.secret@ == field_hex(secret)
                &&& w.balance@ == field_hex(balance)
                &&& w.nonce@ == field_hex(nonce)
                &&& w.index@ == field_hex(index)
                &&& texts(w.path@) == hex_forms(path@)
            },
    {
        if path.len() != TREE_DEPTH {
            return Err(wrong_length("Merkle path", path.len()));
        }
        Ok(
            WithdrawWitness {
                state_root: field_to_hex(&state_root),
                nullifier: field_to_hex(&nullifier),
                amount: field_to_hex(&amount),
                recipient: field_to_hex(&recipient),
                secret: field_to_hex(&secret),
                balance: field_to_hex(&balance),
                nonce: field_to_hex(&nonce),
                index: field_to_hex(&index),
                path: hex_path(&path),
            },
        )
    }

    /// Convert to the text form that the prover reads.
    pub fn to_toml(&self) -> (s: String)
        ensures
            s@ == self.toml(),
    {
        let out = with_scalar(String::new(), "state_root", self.state_root.as_str());
        let out = with_scalar(with_line_break(out), "nullifier", self.nullifier.as_str());
        let out = with_scalar(with_line_break(out), "amount", self.amount.as_str());
        let out = with_scalar(with_line_break(out), "recipient", self.recipient.as_str());
        let out = with_scalar(with_line_break(out), "secret", self.secret.as_str());
        let out = with_scalar(with_line_break(out), "balance", self.balance.as_str());
        let out = with_scalar(with_line_break(out), "nonce", self.nonce.as_str());
        let out = with_scalar(with_line_break(out), "index", self.index.as_str());
        let out = with_array(with_line_break(out), "path", &self.path);
        assert(out@ =~= self.toml());
        out
    }
}

/// Transfer witness for the single-sided transfer circuit.
#[derive(Debug, Clone)]
pub struct TransferWitness {
    /// Public: old state root.
    pub old_state_root: String,
    /// Public: nullifier for sender's spend.
    pub nullifier: String,
    /// Private: sender's secret.
    pub sender_secret: String,
    /// Private: sender's balance.
    pub sender_balance: String,
    /// Private: sender's nonce.
    pub sender_nonce: String,
    /// Private: sender's leaf index.
    pub sender_index: String,
    /// Private: sender's Merkle path.
    pub sender_path: Vec<String>,
    /// Private: recipient's public key.
    pub recipient_pubkey: String,
    /// Private: transfer amount.
    pub amount: String,
}

impl TransferWitness {
    /// The text form of the witness.
    pub open spec fn toml(&self) -> Seq<char> {
        scalar_line("old_state_root"@, self.old_state_root@) + "\n"@ + scalar_line(
            "nullifier"@,
            self.nullifier@,
        ) + "\n"@ + scalar_line("sender_secret"@, self.sender_secret@) + "\n"@ + scalar_line(
            "sender_balance"@,
            self.sender_balance@,
        ) + "\n"@ + scalar_line("sender_nonce"@, self.sender_nonce@) + "\n"@ + scalar_line(
            "sender_index"@,
            self.sender_index@,
        ) + "\n"@ + array_line("sender_path"@, texts(self.sender_path@)) + "\n"@ + scalar_line(
            "recipient_pubkey"@,
            self.recipient_pubkey@,
        ) + "\n"@ + scalar_line("amount"@, self.amount@)
    }

    /// Create a new transfer witness. The path must have as many entries as
    /// the tree is deep.
    pub fn new(
        old_state_root: FieldElement,
        nullifier: FieldElement,
        sender_secret: FieldElement,
        sender_balance: FieldElement,
        sender_nonce: FieldElement,
        sender_index: FieldElement,
        sender_path: Vec<FieldElement>,
        recipient_pubkey: FieldElement,
        amount: FieldElement,
    ) -> (r: Result<Self, ProverError>)
        ensures
            sender_path@.len() != TREE_DEPTH ==> r is Err && r->Err_0 is InvalidInput
                && r->Err_0->InvalidInput_0@ == path_complaint(
                "Sender Merkle path"@,
                sender_path@.len(),
            ),
            sender_path@.len() == TREE_DEPTH ==> r is Ok && {
                let w = r->Ok_0;
                &&& w.old_state_root@ == field_hex(old_state_root)
                &&& w.nullifier@ == field_hex(nullifier)
                &&& w.sender_secret@ == field_hex(sender_secret)
                &&& w.sender_balance@ == field_hex(sender_balance)
                &&& w.sender_nonce@ == field_hex(sender_nonce)
                &&& w.sender_index@ == field_hex(sender_index)
                &&& texts(w.sender_path@) == hex_forms(sender_path@)
                &&& w.recipient_pubkey@ == field_hex(recipient_pubkey)
                &&& w.amount@ == field_hex(amount)
            },
    {
        if sender_path.len() != TREE_DEPTH {
            return Err(wrong_length("Sender Merkle path", sender_path.len()));
        }
        Ok(
            TransferWitness {
                old_state_root: field_to_hex(&old_state_root),
                nullifier: field_to_hex(&nullifier),
                sender_secret: field_to_hex(&sender_secret),
                sender_balance: field_to_hex(&sender_balance),
                sender_nonce: field_to_hex(&sender_nonce),
                sender_index: field_to_hex(&sender_index),
                sender_path: hex_path(&sender_path),
                recipient_pubkey: field_to_hex(&recipient_pubkey),
                amount: field_to_hex(&amount),
            },
        )
    }

    /// Convert to the text form that the prover reads.
    pub fn to_toml(&self) -> (s: String)
        ensures
            s@ == self.toml(),
    {
        let out = with_scalar(String::new(), "old_state_root", self.old_state_root.as_str());
        let out = with_scalar(with_line_break(out), "nullifier", self.nullifier.as_str());
        let out = with_scalar(with_line_break(out), "sender_secret", self.sender_secret.as_str());
        let out = with_scalar(with_line_break(out), "sender_balance", self.sender_balance.as_str());
        let out = with_scalar(with_line_break(out), "sender_nonce", self.sender_nonce.as_str());
        let out = with_scalar(with_line_break(out), "sender_index", self.sender_index.as_str());
        let out = with_array(with_line_break(out), "sender_path", &self.sender_path);
        let out = with_scalar(
            with_line_break(out),
            "recipient_pubkey",
            self.recipient_pubkey.as_str(),
        );
        let out = with_scalar(with_line_break(out), "amount", self.amount.as_str());
        assert(out@ =~= self.toml());
        out
    }
}

/// Full transfer witness with old and new paths for both sender and
/// recipient: the circuit follows the state from the old root over the
/// update of the sender's leaf to the update of the recipient's leaf.
#[derive(Debug, Clone)]
pub struct FullTransferWitness {
    /// Public: old state root.
    pub old_state_root: String,
    /// Public: new state root.
    pub new_state_root: String,
    /// Public: nullifier.
    pub nullifier: String,
    pub sender_secret: String,
    pub sender_balance: String,
    pub sender_nonce: String,
    pub sender_index: String,
    /// Sender's Merkle path in the old state.
    pub sender_path_old: Vec<String>,
    /// Sender's Merkle path in the new state.
    pub sender_path_new: Vec<String>,
    pub recipient_pubkey: String,
    pub recipient_balance: String,
    pub recipient_nonce: String,
    pub recipient_index: String,
    /// Recipient's Merkle path in the old state.
    pub recipient_path_old: Vec<String>,
    /// Recipient's Merkle path in the state after the sender's update.
    pub recipient_path_new: Vec<String>,
    /// Transfer amount.
    pub amount: String,
}

impl FullTransferWitness {
    /// The first seven lines of the text form.
    pub open spec fn toml_head(&self) -> Seq<char> {
        scalar_line("old_state_root"@, self.old_state_root@) + "\n"@ + scalar_line(
            "new_state_root"@,
            self.new_state_root@,
        ) + "\n"@ + scalar_line("nullifier"@, self.nullifier@) + "\n"@ + scalar_line(
            "sender_secret"@,
            self.sender_secret@,
        ) + "\n"@ + scalar_line("sender_balance"@, self.sender_balance@) + "\n"@ + scalar_line(
            "sender_nonce"@,
            self.sender_nonce@,
        ) + "\n"@ + scalar_line("sender_index"@, self.sender_index@)
    }

    /// The text form of the witness.
    pub open spec fn toml(&self) -> Seq<char> {
        self.toml_head() + "\n"@ + array_line("sender_path_old"@, texts(self.sender_path_old@))
            + "\n"@ + array_line("sender_path_new"@, texts(self.sender_path_new@)) + "\n"@
            + scalar_line("recipient_pubkey"@, self.recipient_pubkey@) + "\n"@ + scalar_line(
            "recipient_balance"@,
            self.recipient_balance@,
        ) + "\n"@ + scalar_line("recipient_nonce"@, self.recipient_nonce@) + "\n"@ + scalar_line(
            "recipient_index"@,
            self.recipient_index@,
        ) + "\n"@ + array_line("recipient_path_old"@, texts(self.recipient_path_old@)) + "\n"@
            + array_line("recipient_path_new"@, texts(self.recipient_path_new@)) + "\n"@
            + scalar_line("amount"@, self.amount@)
    }

    /// Create a new full transfer witness with four Merkle paths, each with
    /// as many entries as the tree is deep. Of several paths of the wrong
    /// length, the error names the first in the order sender old, sender
    /// new, recipient old, recipient new.
    pub fn new(
        old_state_root: FieldElement,
        new_state_root: FieldElement,
        nullifier: FieldElement,
        sender_secret: FieldElement,
        sender_balance: FieldElement,
        sender_nonce: FieldElement,
        sender_index: FieldElement,
        sender_path_old: Vec<FieldElement>,
        sender_path_new: Vec<FieldElement>,
        recipient_pubkey: FieldElement,
        recipient_balance: FieldElement,
        recipient_nonce: FieldElement,
        recipient_index: FieldElement,
        recipient_path_old: Vec<FieldElement>,
        recipient_path_new: Vec<FieldElement>,
        amount: FieldElement,
    ) -> (r: Result<Self, ProverError>)
        ensures
            r is Ok <==> sender_path_old@.len() == TREE_DEPTH && sender_path_new@.len() == TREE_DEPTH
                && recipient_path_old@.len() == TREE_DEPTH && recipient_path_new@.len()
                == TREE_DEPTH,
            r is Err ==> r->Err_0 is InvalidInput && r->Err_0->InvalidInput_0@ == (
            if sender_path_old@.len() != TREE_DEPTH {
                path_complaint("sender_path_old"@, sender_path_old@.len())
            } else if sender_path_new@.len() != TREE_DEPTH {
                path_complaint("sender_path_new"@, sender_path_new@.len())
            } else if recipient_path_old@.len() != TREE_DEPTH {
                path_complaint("recipient_path_old"@, recipient_path_old@.len())
            } else {
                path_complaint("recipient_path_new"@, recipient_path_new@.len())
            }),
            r is Ok ==> {
                let w = r->Ok_0;
                &&& w.old_state_root@ == field_hex(old_state_root)
                &&& w.new_state_root@ == field_hex(new_state_root)
                &&& w.nullifier@ == field_hex(nullifier)
                &&& w.sender_secret@ == field_hex(sender_secret)
                &&& w.sender_balance@ == field_hex(sender_balance)
                &&& w.sender_nonce@ == field_hex(sender_nonce)
                &&& w.sender_index@ == field_hex(sender_index)
                &&& texts(w.sender_path_old@) == hex_forms(sender_path_old@)
                &&& texts(w.sender_path_new@) == hex_forms(sender_path_new@)
                &&& w.recipient_pubkey@ == field_hex(recipient_pubkey)
                &&& w.recipient_balance@ == field_hex(recipient_balance)
                &&& w.recipient_nonce@ == field_hex(recipient_nonce)
                &&& w.recipient_index@ == field_hex(recipient_index)
                &&& texts(w.recipient_path_old@) == hex_forms(recipient_path_old@)
                &&& texts(w.recipient_path_new@) == hex_forms(recipient_path_new@)
                &&& w.amount@ == field_hex(amount)
            },
    {
        if sender_path_old.len() != TREE_DEPTH {
            return Err(wrong_length("sender_path_old", sender_path_old.len()));
        }
        if sender_path_new.len() != TREE_DEPTH {
            return Err(wrong_length("sender_path_new", sender_path_new.len()));
        }
        if recipient_path_old.len() != TREE_DEPTH {
            return Err(wrong_length("recipient_path_old", recipient_path_old.len()));
        }
        if recipient_path_new.len() != TREE_DEPTH {
            return Err(wrong_length("recipient_path_new", recipient_path_new.len()));
        }
        Ok(
            FullTransferWitness {
                old_state_root: field_to_hex(&old_state_root),
                new_state_root: field_to_hex(&new_state_root),
                nullifier: field_to_hex(&nullifier),
                sender_secret: field_to_hex(&sender_secret),
                sender_balance: field_to_hex(&sender_balance),
                sender_nonce: field_to_hex(&sender_nonce),
                sender_index: field_to_hex(&sender_index),
                sender_path_old: hex_path(&sender_path_old),
                sender_path_new: hex_path(&sender_path_new),
                recipient_pubkey: field_to_hex(&recipient_pubkey),
                recipient_balance: field_to_hex(&recipient_balance),
                recipient_nonce: field_to_hex(&recipient_nonce),
                recipient_index: field_to_hex(&recipient_index),
                recipient_path_old: hex_path(&recipient_path_old),
                recipient_path_new: hex_path(&recipient_path_new),
                amount: field_to_hex(&amount),
            },
        )
    }

    /// Convert to the text form that the prover reads, in the order of the
    /// circuit's parameters.
    pub fn to_toml(&self) -> (s: String)
        ensures
            s@ == self.toml(),
    {
        let out = with_scalar(String::new(), "old_state_root", self.old_state_root.as_str());
        let out = with_scalar(with_line_break(out), "new_state_root", self.new_state_root.as_str());
        let out = with_scalar(with_line_break(out), "nullifier", self.nullifier.as_str());
        let out = with_scalar(with_line_break(out), "sender_secret", self.sender_secret.as_str());
        let out = with_scalar(with_line_break(out), "sender_balance", self.sender_balance.as_str());
        let out = with_scalar(with_line_break(out), "sender_nonce", self.sender_nonce.as_str());
        let out = with_scalar(with_line_break(out), "sender_index", self.sender_index.as_str());
        assert(out@ =~= self.toml_head());
        let out = with_array(with_line_break(out), "sender_path_old", &self.sender_path_old);
        let out = with_array(with_line_break(out), "sender_path_new", &self.sender_path_new);
        let out = with_scalar(
            with_line_break(out),
            "recipient_pubkey",
            self.recipient_pubkey.as_str(),
        );
        let out = with_scalar(
            with_line_break(out),
            "recipient_balance",
            self.recipient_balance.as_str(),
        );
        let out = with_scalar(
            with_line_break(out),
            "recipient_nonce",
            self.recipient_nonce.as_str(),
        );
        let out = with_scalar(
            with_line_break(out),
            "recipient_index",
            self.recipient_index.as_str(),
        );
        let out = with_array(with_line_break(out), "recipient_path_old", &self.recipient_path_old);
        let out = with_array(with_line_break(out), "recipient_path_new", &self.recipient_path_new);
        let out = with_scalar(with_line_break(out), "amount", self.amount.as_str());
        assert(out@ =~= self.toml());
        out
    }
}

} // verus!

//! The local records of deposits, transfers and withdrawals.

use vstd::prelude::*;
use crate::hexfmt::{hex_chars, hex_prefixed};
use crate::poseidon::{field_to_bytes, FieldElement};

verus! {

/// Transaction type.
#[derive(Debug, Clone, Copy, PartialEq, Eq, Structural)]
pub enum TransactionType {
    Deposit,
    Transfer,
    Withdraw,
}

/// Transaction status.
#[derive(Debug, Clone, Copy, PartialEq, Eq, Structural)]
pub enum TransactionStatus {
    /// Transaction created but not yet proven.
    Pending,
    /// Proof generated.
    Proven,
    /// Submitted to chain (for deposits and withdrawals).
    Submitted,
    /// Confirmed on chain.
    Confirmed,
    /// Failed.
    Failed,
}

impl TransactionStatus {
    /// The name under which the journal stores the status.
    pub fn name(&self) -> (s: &'static str)
        ensures
            s@ == match *self {
                TransactionStatus::Pending => "pending"@,
                TransactionStatus::Proven => "proven"@,
                TransactionStatus::Submitted => "submitted"@,
                TransactionStatus::Confirmed => "confirmed"@,
                TransactionStatus::Failed => "failed"@,
            },
    {
        match self {
            TransactionStatus::Pending => "pending",
            TransactionStatus::Proven => "proven",
            TransactionStatus::Submitted => "submitted",
            TransactionStatus::Confirmed => "confirmed",
            TransactionStatus::Failed => "failed",
        }
    }
}

impl TransactionType {
    /// The name under which the journal stores the type.
    pub fn name(&self) -> (s: &'static str)
        ensures
            s@ == match *self {
                TransactionType::Deposit => "deposit"@,
                TransactionType::Transfer => "transfer"@,
                TransactionType::Withdraw => "withdraw"@,
            },
    {
        match self {
            TransactionType::Deposit => "deposit",
            TransactionType::Transfer => "transfer",
            TransactionType::Withdraw => "withdraw",
        }
    }
}

/// A deposit transaction.
#[derive(Debug, Clone)]
pub struct DepositTransaction {
    /// Deposit commitment (hash of secret and amount).
    pub commitment: [u8; 32],
    /// Amount in wei.
    pub amount: u128,
    /// Status.
    pub status: TransactionStatus,
    /// On-chain transaction hash (if submitted).
    pub tx_hash: Option<String>,
    /// Block number (if confirmed).
    pub block_number: Option<u64>,
    /// Leaf index assigned (if confirmed).
    pub leaf_index: Option<u64>,
    /// Timestamp.
    pub timestamp: u64,
}

impl DepositTransaction {
    /// A pending deposit, created at `timestamp`.
    pub fn new(commitment: FieldElement, amount: u128, timestamp: u64) -> (tx: Self)
        ensures
            tx.commitment@ == commitment.bytes_spec(),
            tx.amount == amount,
            tx.status == TransactionStatus::Pending,
            tx.tx_hash is None,
            tx.block_number is None,
            tx.leaf_index is None,
            tx.timestamp == timestamp,
    {
        DepositTransaction {
            commitment: field_to_bytes(&commitment),
            amount,
            status: TransactionStatus::Pending,
            tx_hash: None,
            block_number: None,
            leaf_index: None,
            timestamp,
        }
    }

    pub fn commitment_hex(&self) -> (s: String)
        ensures
            s@ == seq!['0', 'x'] + hex_chars(self.commitment@),
    {
        hex_prefixed(self.commitment.as_slice())
    }
}

/// A private transfer transaction.
#[derive(Debug, Clone)]
pub struct TransferTransaction {
    /// Nullifier for sender's spend.
    pub nullifier: [u8; 32],
    /// Recipient's public key.
    pub recipient_pubkey: [u8; 32],
    /// Amount transferred.
    pub amount: u128,
    /// Old state root.
    pub old_state_root: [u8; 32],
    /// New state root.
    pub new_state_root: [u8; 32],
    /// ZK proof (if generated).
    pub proof: Option<Vec<u8>>,
    /// Status.
    pub status: TransactionStatus,
    /// Timestamp.
    pub timestamp: u64,
}

impl TransferTransaction {
    /// A pending transfer, created at `timestamp`.
    pub fn new(
        nullifier: FieldElement,
        recipient_pubkey: FieldElement,
        amount: u128,
        old_state_root: FieldElement,
        new_state_root: FieldElement,
        timestamp: u64,
    ) -> (tx: Self)
        ensures
            tx.nullifier@ == nullifier.bytes_spec(),
            tx.recipient_pubkey@ == recipient_pubkey.bytes_spec(),
            tx.amount == amount,
            tx.old_state_root@ == old_state_root.bytes_spec(),
            tx.new_state_root@ == new_state_root.bytes_spec(),
            tx.proof is None,
            tx.status == TransactionStatus::Pending,
            tx.timestamp == timestamp,
    {
        TransferTransaction {
            nullifier: field_to_bytes(&nullifier),
            recipient_pubkey: field_to_bytes(&recipient_pubkey),
            amount,
            old_state_root: field_to_bytes(&old_state_root),
            new_state_root: field_to_bytes(&new_state_root),
            proof: None,
            status: TransactionStatus::Pending,
            timestamp,
        }
    }

    pub fn nullifier_hex(&self) -> (s: String)
        ensures
            s@ == seq!['0', 'x'] + hex_chars(self.nullifier@),
    {
        hex_prefixed(self.nullifier.as_slice())
    }
}

/// A withdrawal transaction.
#[derive(Debug, Clone)]
pub struct WithdrawTransaction {
    /// Nullifier for this withdrawal.
    pub nullifier: [u8; 32],
    /// Recipient address on the settlement chain.
    pub recipient: String,
    /// Amount to withdraw.
    pub amount: u128,
    /// State root used in proof.
    pub state_root: [u8; 32],
    /// ZK proof.
    pub proof: Option<Vec<u8>>,
    /// Status.
    pub status: TransactionStatus,
    /// On-chain transaction hash.
    pub tx_hash: Option<String>,
    /// Block number.
    pub block_number: Option<u64>,
    /// Timestamp.
    pub timestamp: u64,
}

impl WithdrawTransaction {
    /// A pending withdrawal, created at `timestamp`.
    pub fn new(
        nullifier: FieldElement,
        recipient: String,
        amount: u128,
        state_root: FieldElement,
        timestamp: u64,
    ) -> (tx: Self)
        ensures
            tx.nullifier@ == nullifier.bytes_spec(),
            tx.recipient == recipient,
            tx.amount == amount,
            tx.state_root@ == state_root.bytes_spec(),
            tx.proof is None,
            tx.status == TransactionStatus::Pending,
            tx.tx_hash is None,
            tx.block_number is None,
            tx.timestamp == timestamp,
    {
        WithdrawTransaction {
            nullifier: field_to_bytes(&nullifier),
            recipient,
            amount,
            state_root: field_to_bytes(&state_root),
            proof: None,
            status: TransactionStatus::Pending,
            tx_hash: None,
            block_number: None,
            timestamp,
        }
    }

    pub fn nullifier_hex(&self) -> (s: String)
        ensures
            s@ == seq!['0', 'x'] + hex_chars(self.nullifier@),
    {
        hex_prefixed(self.nullifier.as_slice())
    }

    pub fn state_root_hex(&self) -> (s: String)
        ensures
            s@ == seq!['0', 'x'] + hex_chars(self.state_root@),
    {
        hex_prefixed(self.state_root.as_slice())
    }
}

/// Any transaction.
#[derive(Debug, Clone)]
pub enum Transaction {
    Deposit(DepositTransaction),
    Transfer(TransferTransaction),
    Withdraw(WithdrawTransaction),
}

impl Transaction {
    pub fn tx_type(&self) -> (t: TransactionType)
        ensures
            t == match *self {
                Transaction::Deposit(_) => TransactionType::Deposit,
                Transaction::Transfer(_) => TransactionType::Transfer,
                Transaction::Withdraw(_) => TransactionType::Withdraw,
            },
    {
        match self {
            Transaction::Deposit(_) => TransactionType::Deposit,
            Transaction::Transfer(_) => TransactionType::Transfer,
            Transaction::Withdraw(_) => TransactionType::Withdraw,
        }
    }

    pub fn status(&self) -> (s: TransactionStatus)
        ensures
            s == match *self {
                Transaction::Deposit(tx) => tx.status,
                Transaction::Transfer(tx) => tx.status,
                Transaction::Withdraw(tx) => tx.status,
            },
    {
        match self {
            Transaction::Deposit(tx) => tx.status,
            Transaction::Transfer(tx) => tx.status,
            Transaction::Withdraw(tx) => tx.status,
        }
    }

    pub fn amount(&self) -> (a: u128)
        ensures
            a == match *self {
                Transaction::Deposit(tx) => tx.amount,
                Transaction::Transfer(tx) => tx.amount,
                Transaction::Withdraw(tx) => tx.amount,
            },
    {
        match self {
            Transaction::Deposit(tx) => tx.amount,
            Transaction::Transfer(tx) => tx.amount,
            Transaction::Withdraw(tx) => tx.amount,
        }
    }

    pub fn timestamp(&self) -> (t: u64)
        ensures
            t == match *self {
                Transaction::Deposit(tx) => tx.timestamp,
                Transaction::Transfer(tx) => tx.timestamp,
                Transaction::Withdraw(tx) => tx.timestamp,
            },
    {
        match self {
            Transaction::Deposit(tx) => tx.timestamp,
            Transaction::Transfer(tx) => tx.timestamp,
            Transaction::Withdraw(tx) => tx.timestamp,
        }
    }
}

} // verus!

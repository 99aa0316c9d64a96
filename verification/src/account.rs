//! The note model: an account record and the secret that owns it.

use vstd::prelude::*;
use rand::RngCore;
use crate::poseidon::{
    be_bytes, be_value, bytes_to_field, commitment_of, field_to_bytes, leaf_of, modulus, nullifier_of,
    poseidon, pubkey_of, u128_to_field, u64_to_field, FieldElement, PoseidonHasher,
};

verus! {

/// The bytes of the public key that belongs to a secret.
pub open spec fn holder_key(secret: nat) -> Seq<u8> {
    be_bytes(pubkey_of(secret), 32)
}

/// A private account: the note that a holder owns in the shielded pool.
#[derive(Debug, Clone, Copy)]
pub struct PrivateAccount {
    /// Public key (hash of the secret), in canonical encoding.
    pub pubkey: [u8; 32],
    /// Current balance in wei.
    pub balance: u128,
    /// Spend counter; only a debit advances it.
    pub nonce: u64,
    /// Leaf position in the Merkle tree.
    pub index: u64,
}

impl PrivateAccount {
    /// The public key as a number of the field.
    pub open spec fn pubkey_value(&self) -> nat {
        be_value(self.pubkey@) % modulus()
    }

    /// The leaf commitment of the record as it stands.
    pub open spec fn leaf_spec(&self) -> nat {
        leaf_of(self.pubkey_value(), self.balance as nat, self.nonce as nat)
    }

    /// The record after a credit: the balance grows and stops at the largest
    /// value it can hold.
    pub open spec fn credited(self, amount: u128) -> PrivateAccount {
        PrivateAccount {
            balance: if self.balance + amount > u128::MAX {
                u128::MAX
            } else {
                (self.balance + amount) as u128
            },
            ..self
        }
    }

    /// The record after a debit: covered, the amount leaves the balance and
    /// the nonce advances by one; not covered, nothing changes.
    pub open spec fn debited(self, amount: u128) -> PrivateAccount {
        if self.balance >= amount {
            PrivateAccount {
                balance: (self.balance - amount) as u128,
                nonce: (self.nonce + 1) as u64,
                ..self
            }
        } else {
            self
        }
    }

    /// Create a new account with no balance from a secret.
    pub fn new(hasher: &mut PoseidonHasher, secret: &FieldElement, index: u64) -> (account: Self)
        ensures
            account.pubkey@ == holder_key(secret@),
            be_value(account.pubkey@) == pubkey_of(secret@),
            account.pubkey_value() == pubkey_of(secret@),
            account.balance == 0,
            account.nonce == 0,
            account.index == index,
    {
        Self::with_balance(hasher, secret, index, 0)
    }

    /// Create an account with an initial balance, as a deposit does.
    pub fn with_balance(
        hasher: &mut PoseidonHasher,
        secret: &FieldElement,
        index: u64,
        balance: u128,
    ) -> (account: Self)
        ensures
            account.pubkey@ == holder_key(secret@),
            be_value(account.pubkey@) == pubkey_of(secret@),
            account.pubkey_value() == pubkey_of(secret@),
            account.balance == balance,
            account.nonce == 0,
            account.index == index,
    {
        let pubkey_field = hasher.derive_pubkey(secret);
        PrivateAccount { pubkey: field_to_bytes(&pubkey_field), balance, nonce: 0, index }
    }

    /// Get pubkey as field element.
    pub fn pubkey_field(&self) -> (f: FieldElement)
        ensures
            f@ == self.pubkey_value(),
    {
        bytes_to_field(&self.pubkey)
    }

    /// Get balance as field element.
    pub fn balance_field(&self) -> (f: FieldElement)
        ensures
            f@ == self.balance,
    {
        u128_to_field(self.balance)
    }

    /// Get nonce as field element.
    pub fn nonce_field(&self) -> (f: FieldElement)
        ensures
            f@ == self.nonce,
    {
        u64_to_field(self.nonce)
    }

    /// Get index as field element.
    pub fn index_field(&self) -> (f: FieldElement)
        ensures
            f@ == self.index,
    {
        u64_to_field(self.index)
    }

    /// Compute the leaf commitment for this account.
    pub fn compute_leaf(&self, hasher: &mut PoseidonHasher) -> (leaf: FieldElement)
        ensures
            leaf@ == self.leaf_spec(),
    {
        let pubkey = self.pubkey_field();
        let balance = self.balance_field();
        let nonce = self.nonce_field();
        hasher.compute_leaf(&pubkey, &balance, &nonce)
    }

    /// Credit the balance, as a recognized deposit does. The sum saturates
    /// and the nonce stays.
    pub fn credit(&mut self, amount: u128)
        ensures
            *final(self) == old(self).credited(amount),
    {
        self.balance = self.balance.saturating_add(amount);
    }

    /// Debit the balance, as a transfer or a withdrawal does. Returns true
    /// and advances the nonce if the balance covers the amount; else returns
    /// false and changes nothing.
    pub fn debit(&mut self, amount: u128) -> (ok: bool)
        requires
            old(self).balance >= amount ==> old(self).nonce < u64::MAX,
        ensures
            ok == (old(self).balance >= amount),
            *final(self) == old(self).debited(amount),
            !ok ==> *final(self) == *old(self),
    {
        if self.balance >= amount {
            self.balance -= amount;
            self.nonce += 1;
            true
        } else {
            false
        }
    }

    /// Check if the account has sufficient balance.
    pub fn has_balance(&self, amount: u128) -> (ok: bool)
        ensures
            ok == (self.balance >= amount),
    {
        self.balance >= amount
    }
}

/// A credit followed by a debit of the same amount leaves the balance as it
/// was and advances the nonce by exactly one, given that the credit does not
/// saturate and that the nonce can still advance.
pub proof fn lemma_credit_then_debit(account: PrivateAccount, amount: u128)
    requires
        account.balance + amount <= u128::MAX,
        account.nonce < u64::MAX,
    ensures
        account.credited(amount).debited(amount).balance == account.balance,
        account.credited(amount).debited(amount).nonce == account.nonce + 1,
        account.credited(amount).debited(amount).index == account.index,
        account.credited(amount).debited(amount).pubkey == account.pubkey,
{
}

/// A debit that the balance does not cover changes nothing.
pub proof fn lemma_uncovered_debit(account: PrivateAccount, amount: u128)
    requires
        account.balance < amount,
    ensures
        account.debited(amount) == account,
{
}

/// For one secret, two spends with different positions or nonces hash
/// different inputs, so their nullifiers differ unless Poseidon collides on
/// exactly these two inputs.
pub proof fn lemma_nullifier_unique(secret: nat, index: u64, nonce: u64, index2: u64, nonce2: u64)
    requires
        index != index2 || nonce != nonce2,
        poseidon(seq![secret, index as nat, nonce as nat]) == poseidon(
            seq![secret, index2 as nat, nonce2 as nat],
        ) ==> seq![secret, index as nat, nonce as nat] == seq![
            secret,
            index2 as nat,
            nonce2 as nat,
        ],
    ensures
        nullifier_of(secret, index as nat, nonce as nat) != nullifier_of(
            secret,
            index2 as nat,
            nonce2 as nat,
        ),
{
    let a = seq![secret, index as nat, nonce as nat];
    let b = seq![secret, index2 as nat, nonce2 as nat];
    if index != index2 {
        assert(a[1] != b[1]);
    } else {
        assert(a[2] != b[2]);
    }
}

/// `rand::thread_rng` and `RngCore::fill_bytes`: 32 bytes from the thread's
/// random generator. Nothing is known of them.
#[verifier::external_body]
fn random_bytes() -> (bytes: [u8; 32]) {
    let mut rng = rand::thread_rng();
    let mut bytes = [0u8; 32];
    rng.fill_bytes(&mut bytes);
    bytes
}

/// Secret key for an account.
#[derive(Clone)]
pub struct AccountSecret {
    secret: FieldElement,
    raw_bytes: [u8; 32],
}

impl AccountSecret {
    /// The secret as a number of the field.
    pub closed spec fn value(&self) -> nat {
        self.secret@
    }

    /// The bytes that the secret was made from.
    pub closed spec fn raw(&self) -> Seq<u8> {
        self.raw_bytes@
    }

    /// Create from raw bytes: the secret is the number they spell, reduced
    /// modulo the field order.
    pub fn from_bytes(bytes: &[u8; 32]) -> (s: Self)
        ensures
            s.value() == be_value(bytes@) % modulus(),
            s.raw() == bytes@,
    {
        AccountSecret { secret: bytes_to_field(bytes), raw_bytes: *bytes }
    }

    /// Generate a new random secret.
    pub fn generate() -> (s: Self)
        ensures
            s.value() == be_value(s.raw()) % modulus(),
    {
        let bytes = random_bytes();
        Self::from_bytes(&bytes)
    }

    /// Get the secret field element.
    pub fn secret(&self) -> (f: &FieldElement)
        ensures
            f@ == self.value(),
    {
        &self.secret
    }

    /// Get the raw bytes.
    pub fn as_bytes(&self) -> (bytes: &[u8; 32])
        ensures
            bytes@ == self.raw(),
    {
        &self.raw_bytes
    }

    /// Derive the public key.
    pub fn derive_pubkey(&self, hasher: &mut PoseidonHasher) -> (f: FieldElement)
        ensures
            f@ == pubkey_of(self.value()),
    {
        hasher.derive_pubkey(&self.secret)
    }

    /// Compute the nullifier of the spend number `nonce` of the note at
    /// `index`.
    pub fn compute_nullifier(&self, hasher: &mut PoseidonHasher, index: u64, nonce: u64) -> (f:
        FieldElement)
        ensures
            f@ == nullifier_of(self.value(), index as nat, nonce as nat),
    {
        let index_field = u64_to_field(index);
        let nonce_field = u64_to_field(nonce);
        hasher.compute_nullifier(&self.secret, &index_field, &nonce_field)
    }

    /// Compute the commitment of a deposit of `amount`.
    pub fn compute_deposit_commitment(&self, hasher: &mut PoseidonHasher, amount: u128) -> (f:
        FieldElement)
        ensures
            f@ == commitment_of(self.value(), amount as nat),
    {
        let amount_field = u128_to_field(amount);
        hasher.compute_deposit_commitment(&self.secret, &amount_field)
    }
}

} // verus!

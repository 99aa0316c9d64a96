//! The durable form of the engine's records: an account as the store holds
//! it, balances and block heights as little-endian bytes.

use vstd::prelude::*;
use crate::account::PrivateAccount;

verus! {

/// 256 to the power of `n`.
pub open spec fn pow256(n: nat) -> nat
    decreases n,
{
    if n == 0 {
        1
    } else {
        256 * pow256((n - 1) as nat)
    }
}

/// The number that a byte sequence spells when read little-endian.
pub open spec fn le_value(s: Seq<u8>) -> nat
    decreases s.len(),
{
    if s.len() == 0 {
        0
    } else {
        s[0] as nat + 256 * le_value(s.skip(1))
    }
}

/// The `len` low bytes of a number, the lowest first.
pub open spec fn le_bytes(v: nat, len: nat) -> Seq<u8>
    decreases len,
{
    if len == 0 {
        Seq::<u8>::empty()
    } else {
        seq![(v % 256) as u8] + le_bytes(v / 256, (len - 1) as nat)
    }
}

pub proof fn lemma_le_value_bound(s: Seq<u8>)
    ensures
        le_value(s) < pow256(s.len()),
    decreases s.len(),
{
    if s.len() > 0 {
        lemma_le_value_bound(s.skip(1));
    }
}

pub proof fn lemma_le_bytes_len(v: nat, len: nat)
    ensures
        le_bytes(v, len).len() == len,
    decreases len,
{
    if len > 0 {
        lemma_le_bytes_len(v / 256, (len - 1) as nat);
    }
}

/// Reading back the little-endian bytes of a number that fits them gives the
/// number.
pub proof fn lemma_le_round_trip(v: nat, len: nat)
    requires
        v < pow256(len),
    ensures
        le_value(le_bytes(v, len)) == v,
    decreases len,
{
    if len > 0 {
        let rest = le_bytes(v / 256, (len - 1) as nat);
        let all = le_bytes(v, len);
        assert(all.skip(1) =~= rest);
        assert(v / 256 < pow256((len - 1) as nat)) by (nonlinear_arith)
            requires
                v < 256 * pow256((len - 1) as nat),
        ;
        lemma_le_round_trip(v / 256, (len - 1) as nat);
        assert(all[0] == (v % 256) as u8);
    }
}

pub proof fn lemma_pow256_small()
    ensures
        pow256(8) == 0x1_0000_0000_0000_0000,
        pow256(16) == 0x1_0000_0000_0000_0000_0000_0000_0000_0000,
{
    reveal_with_fuel(pow256, 17);
}

/// The number that the first `len` bytes of a slice spell, little-endian.
fn read_le(bytes: &[u8], len: usize) -> (v: u128)
    requires
        len <= 16,
        len <= bytes@.len(),
    ensures
        v == le_value(bytes@.subrange(0, len as int)),
{
    let ghost s = bytes@.subrange(0, len as int);
    let mut acc: u128 = 0;
    let mut i: usize = len;
    while i > 0
        invariant
            i <= len <= 16,
            len <= bytes@.len(),
            s == bytes@.subrange(0, len as int),
            acc == le_value(s.subrange(i as int, len as int)),
        decreases i,
    {
        let ghost tail = s.subrange(i as int, len as int);
        let ghost next = s.subrange(i - 1, len as int);
        proof {
            lemma_le_value_bound(tail);
            lemma_pow256_small();
            assert(next.skip(1) =~= tail);
            assert(next[0] == bytes@[i - 1]);
            assert(pow256((len - i) as nat) <= pow256(15)) by {
                lemma_pow256_monotone((len - i) as nat, 15);
            }
            reveal_with_fuel(pow256, 16);
        }
        acc = acc * 256 + bytes[i - 1] as u128;
        i -= 1;
    }
    proof {
        assert(s.subrange(0, len as int) =~= s);
    }
    acc
}

pub proof fn lemma_pow256_monotone(a: nat, b: nat)
    requires
        a <= b,
    ensures
        pow256(a) <= pow256(b),
    decreases b,
{
    if a < b {
        lemma_pow256_monotone(a, (b - 1) as nat);
    }
}

/// The `len` low bytes of a number, the lowest first.
fn write_le(value: u128, len: usize) -> (bytes: Vec<u8>)
    requires
        len <= 16,
    ensures
        bytes@ == le_bytes(value as nat, len as nat),
{
    let mut bytes: Vec<u8> = Vec::new();
    let mut rest = value;
    let mut i: usize = 0;
    while i < len
        invariant
            i <= len,
            bytes@.len() == i,
            le_bytes(value as nat, len as nat) == bytes@ + le_bytes(rest as nat, (len - i) as nat),
        decreases len - i,
    {
        let ghost before = bytes@;
        bytes.push((rest % 256) as u8);
        proof {
            let tail = le_bytes(rest as nat / 256, (len - i - 1) as nat);
            assert(le_bytes(rest as nat, (len - i) as nat) == seq![(rest as nat % 256) as u8] + tail);
            assert(before + (seq![(rest as nat % 256) as u8] + tail) =~= bytes@ + tail);
        }
        rest = rest / 256;
        i += 1;
    }
    proof {
        assert(bytes@ + le_bytes(rest as nat, 0) =~= bytes@);
    }
    bytes
}

/// An account as a row of the durable store.
#[derive(Debug, Clone)]
pub struct AccountRow {
    /// Public key; 32 bytes in a sound store.
    pub pubkey: Vec<u8>,
    /// Balance as 16 little-endian bytes.
    pub balance_le: Vec<u8>,
    /// Spend counter.
    pub nonce: u64,
    /// Leaf position.
    pub leaf_index: u64,
}

/// The balance that a stored blob stands for: its first 16 bytes read
/// little-endian, and zero where the blob is shorter.
pub open spec fn stored_balance(blob: Seq<u8>) -> u128 {
    if blob.len() >= 16 {
        le_value(blob.subrange(0, 16)) as u128
    } else {
        0
    }
}

/// The public key that a stored blob stands for: the blob if it has 32
/// bytes, else 32 zero bytes.
pub open spec fn stored_pubkey(blob: Seq<u8>) -> Seq<u8> {
    if blob.len() == 32 {
        blob
    } else {
        Seq::new(32, |i: int| 0u8)
    }
}

/// The block height that a stored blob stands for: its first 8 bytes read
/// little-endian, and zero where the blob is shorter.
pub open spec fn stored_block(blob: Seq<u8>) -> u64 {
    if blob.len() >= 8 {
        le_value(blob.subrange(0, 8)) as u64
    } else {
        0
    }
}

/// Whether an account is what a row stands for.
pub open spec fn row_holds(row: AccountRow, account: PrivateAccount) -> bool {
    &&& account.pubkey@ == stored_pubkey(row.pubkey@)
    &&& account.balance == stored_balance(row.balance_le@)
    &&& account.nonce == row.nonce
    &&& account.index == row.leaf_index
}

/// Whether a row is the stored form of an account.
pub open spec fn is_row_of(row: AccountRow, account: PrivateAccount) -> bool {
    &&& row.pubkey@ == account.pubkey@
    &&& row.balance_le@ == le_bytes(account.balance as nat, 16)
    &&& row.nonce == account.nonce
    &&& row.leaf_index == account.index
}

/// A row written from an account reads back as that account.
pub proof fn lemma_row_round_trip(row: AccountRow, account: PrivateAccount)
    requires
        is_row_of(row, account),
    ensures
        row_holds(row, account),
{
    lemma_pow256_small();
    lemma_le_bytes_len(account.balance as nat, 16);
    lemma_le_round_trip(account.balance as nat, 16);
    assert(row.balance_le@.subrange(0, 16) =~= row.balance_le@);
}

/// Decode a balance blob.
pub fn decode_balance(blob: &[u8]) -> (balance: u128)
    ensures
        balance == stored_balance(blob@),
{
    if blob.len() >= 16 {
        proof {
            lemma_le_value_bound(blob@.subrange(0, 16));
            lemma_pow256_small();
        }
        read_le(blob, 16)
    } else {
        0
    }
}

/// Encode a balance as its 16 little-endian bytes.
pub fn encode_balance(balance: u128) -> (blob: Vec<u8>)
    ensures
        blob@ == le_bytes(balance as nat, 16),
        stored_balance(blob@) == balance,
{
    let blob = write_le(balance, 16);
    proof {
        lemma_pow256_small();
        lemma_le_bytes_len(balance as nat, 16);
        lemma_le_round_trip(balance as nat, 16);
        assert(blob@.subrange(0, 16) =~= blob@);
    }
    blob
}

/// Decode a block height blob, as the sync checkpoint is stored.
pub fn decode_block(blob: &[u8]) -> (block: u64)
    ensures
        block == stored_block(blob@),
{
    if blob.len() >= 8 {
        proof {
            lemma_le_value_bound(blob@.subrange(0, 8));
            lemma_pow256_small();
        }
        read_le(blob, 8) as u64
    } else {
        0
    }
}

/// Encode a block height as its 8 little-endian bytes.
pub fn encode_block(block: u64) -> (blob: Vec<u8>)
    ensures
        blob@ == le_bytes(block as nat, 8),
        stored_block(blob@) == block,
{
    let blob = write_le(block as u128, 8);
    proof {
        lemma_pow256_small();
        lemma_le_bytes_len(block as nat, 8);
        lemma_le_round_trip(block as nat, 8);
        assert(blob@.subrange(0, 8) =~= blob@);
    }
    blob
}

/// Decode a public key blob.
pub fn decode_pubkey(blob: &[u8]) -> (pubkey: [u8; 32])
    ensures
        pubkey@ == stored_pubkey(blob@),
{
    let mut pubkey = [0u8; 32];
    if blob.len() == 32 {
        let mut i: usize = 0;
        while i < 32
            invariant
                i <= 32,
                blob@.len() == 32,
                forall|j: int| 0 <= j < i ==> pubkey@[j] == blob@[j],
            decreases 32 - i,
        {
            pubkey[i] = blob[i];
            i += 1;
        }
        assert(pubkey@ =~= blob@);
    } else {
        assert(pubkey@ =~= Seq::new(32, |i: int| 0u8));
    }
    pubkey
}

/// The array whose first `k` bytes are those of a sequence.
pub open spec fn array_prefix(s: Seq<u8>, k: nat) -> [u8; 32]
    decreases k,
{
    if k == 0 {
        vstd::array::spec_array_fill_for_copy_type::<u8, 32>(0u8)
    } else {
        vstd::array::spec_array_update(array_prefix(s, (k - 1) as nat), k - 1, s[k - 1])
    }
}

/// The 32-byte array with the bytes of a sequence of 32 bytes.
pub open spec fn bytes32(s: Seq<u8>) -> [u8; 32] {
    array_prefix(s, 32)
}

proof fn lemma_array_prefix(s: Seq<u8>, k: nat)
    requires
        k <= 32,
        s.len() == 32,
    ensures
        forall|i: int| 0 <= i < k ==> array_prefix(s, k)@[i] == s[i],
    decreases k,
{
    broadcast use vstd::array::group_array_axioms;

    if k > 0 {
        lemma_array_prefix(s, (k - 1) as nat);
    }
}

/// The array made from 32 bytes holds those bytes, and is the only one.
pub proof fn lemma_bytes32(s: Seq<u8>)
    requires
        s.len() == 32,
    ensures
        bytes32(s)@ == s,
        forall|a: [u8; 32]| a@ == s ==> a == bytes32(s),
{
    broadcast use vstd::array::group_array_axioms;

    lemma_array_prefix(s, 32);
    assert(bytes32(s)@ =~= s);
    assert forall|a: [u8; 32]| a@ == s implies a == bytes32(s) by {
        assert(a =~= bytes32(s));
    }
}

/// Whether two 32-byte arrays hold the same bytes.
pub fn same_bytes(a: &[u8; 32], b: &[u8; 32]) -> (r: bool)
    ensures
        r == (a@ == b@),
{
    let mut i: usize = 0;
    while i < 32
        invariant
            i <= 32,
            forall|j: int| 0 <= j < i ==> a@[j] == b@[j],
        decreases 32 - i,
    {
        if a[i] != b[i] {
            return false;
        }
        i += 1;
    }
    assert(a@ =~= b@);
    true
}

/// The bytes of an array as a vector.
pub fn bytes32_to_vec(bytes: &[u8; 32]) -> (v: Vec<u8>)
    ensures
        v@ == bytes@,
{
    let mut v: Vec<u8> = Vec::new();
    let mut i: usize = 0;
    while i < 32
        invariant
            i <= 32,
            v@.len() == i,
            forall|j: int| 0 <= j < i ==> v@[j] == bytes@[j],
        decreases 32 - i,
    {
        v.push(bytes[i]);
        i += 1;
    }
    assert(v@ =~= bytes@);
    v
}

/// Read an account from its row.
pub fn decode_account(row: &AccountRow) -> (account: PrivateAccount)
    ensures
        row_holds(*row, account),
{
    PrivateAccount {
        pubkey: decode_pubkey(row.pubkey.as_slice()),
        balance: decode_balance(row.balance_le.as_slice()),
        nonce: row.nonce,
        index: row.leaf_index,
    }
}

/// Write an account as a row.
pub fn encode_account(account: &PrivateAccount) -> (row: AccountRow)
    ensures
        is_row_of(row, *account),
        row_holds(row, *account),
{
    let row = AccountRow {
        pubkey: bytes32_to_vec(&account.pubkey),
        balance_le: encode_balance(account.balance),
        nonce: account.nonce,
        leaf_index: account.index,
    };
    proof {
        lemma_row_round_trip(row, *account);
    }
    row
}

} // verus!

//! Field elements of the BN254 scalar field and the Poseidon hashes over them.
//!
//! A field element is kept as its canonical 32-byte big-endian encoding and is
//! viewed as the natural number below the field order that the bytes spell.
//! The Poseidon permutation itself is computed by `light_poseidon` over
//! `ark_bn254::Fr`; proofs know its result only by the name [`poseidon`].

use vstd::prelude::*;
use vstd::std_specs::cmp::PartialEqSpecImpl;
use ark_bn254::Fr;
use ark_ff::{BigInteger, PrimeField};
use light_poseidon::{Poseidon, PoseidonHasher as CircomHasher};
use crate::error::CoreError;
use crate::hexfmt::{hex_chars, hex_encode, hex_decode, is_hex, unhex, strip_0x, strip_hex_prefix};

verus! {

/// The order of the BN254 scalar field.
pub open spec fn modulus() -> nat {
    21888242871839275222246405745257275088548364400416034343698204186575808495617nat
}

/// The number that a byte sequence spells when read big-endian.
pub open spec fn be_value(s: Seq<u8>) -> nat
    decreases s.len(),
{
    if s.len() == 0 {
        0
    } else {
        be_value(s.drop_last()) * 256 + s.last() as nat
    }
}

/// The `len` low bytes of a number, the highest first.
pub open spec fn be_bytes(v: nat, len: nat) -> Seq<u8>
    decreases len,
{
    if len == 0 {
        Seq::<u8>::empty()
    } else {
        be_bytes(v / 256, (len - 1) as nat).push((v % 256) as u8)
    }
}

/// The Poseidon hash with Circom parameters of a sequence of one to twelve
/// field elements, as `light_poseidon` computes it. Each arity is a
/// permutation of its own, so sequences of different lengths are unrelated.
pub uninterp spec fn poseidon(inputs: Seq<nat>) -> nat;

/// The number of inputs that a sponge was made for.
pub uninterp spec fn circom_arity(h: CircomSponge) -> nat;

/// The hash of a Merkle node from its two children.
pub open spec fn hash_pair(left: nat, right: nat) -> nat {
    poseidon(seq![left, right])
}

/// The public key that belongs to a secret.
pub open spec fn pubkey_of(secret: nat) -> nat {
    poseidon(seq![secret])
}

/// The leaf commitment of a note.
pub open spec fn leaf_of(pubkey: nat, balance: nat, nonce: nat) -> nat {
    poseidon(seq![pubkey, balance, nonce])
}

/// The nullifier of the spend number `nonce` of the note at `index`.
pub open spec fn nullifier_of(secret: nat, index: nat, nonce: nat) -> nat {
    poseidon(seq![secret, index, nonce])
}

/// The commitment that links a deposit of `amount` to a secret.
pub open spec fn commitment_of(secret: nat, amount: nat) -> nat {
    poseidon(seq![secret, amount])
}

/// Two byte sequences of one length that spell the same number are equal.
pub proof fn lemma_be_value_injective(a: Seq<u8>, b: Seq<u8>)
    requires
        a.len() == b.len(),
        be_value(a) == be_value(b),
    ensures
        a == b,
    decreases a.len(),
{
    if a.len() > 0 {
        let x = be_value(a.drop_last());
        let y = be_value(b.drop_last());
        assert(x * 256 + a.last() as nat == y * 256 + b.last() as nat);
        assert(x == y && a.last() == b.last());
        lemma_be_value_injective(a.drop_last(), b.drop_last());
        assert(a =~= a.drop_last().push(a.last()));
        assert(b =~= b.drop_last().push(b.last()));
    } else {
        assert(a =~= b);
    }
}

pub proof fn lemma_be_bytes_len(v: nat, len: nat)
    ensures
        be_bytes(v, len).len() == len,
    decreases len,
{
    if len > 0 {
        lemma_be_bytes_len(v / 256, (len - 1) as nat);
    }
}

/// A byte sequence is the big-endian form of the number that it spells.
pub proof fn lemma_be_bytes_of_value(s: Seq<u8>)
    ensures
        be_bytes(be_value(s), s.len()) == s,
    decreases s.len(),
{
    if s.len() > 0 {
        let v = be_value(s);
        assert(v / 256 == be_value(s.drop_last()));
        assert(v % 256 == s.last() as nat);
        lemma_be_bytes_of_value(s.drop_last());
        assert(be_bytes(v, s.len()) =~= s);
    } else {
        assert(be_bytes(be_value(s), 0) =~= s);
    }
}

/// An element of the BN254 scalar field.
#[derive(Clone, Copy, Debug)]
pub struct FieldElement {
    bytes: [u8; 32],
}

impl View for FieldElement {
    type V = nat;

    closed spec fn view(&self) -> nat {
        be_value(self.bytes@)
    }
}

impl PartialEq for FieldElement {
    fn eq(&self, other: &Self) -> (r: bool) {
        let mut i: usize = 0;
        while i < 32
            invariant
                i <= 32,
                forall|j: int| 0 <= j < i ==> self.bytes@[j] == other.bytes@[j],
            decreases 32 - i,
        {
            if self.bytes[i] != other.bytes[i] {
                return false;
            }
            i += 1;
        }
        proof {
            assert(self.bytes@ =~= other.bytes@);
        }
        true
    }
}

impl Eq for FieldElement {}

impl PartialEqSpecImpl for FieldElement {
    open spec fn obeys_eq_spec() -> bool {
        true
    }

    open spec fn eq_spec(&self, other: &Self) -> bool {
        self.bytes_spec() == other.bytes_spec()
    }
}

impl FieldElement {
    #[verifier::type_invariant]
    spec fn canonical(self) -> bool {
        be_value(self.bytes@) < modulus()
    }

    /// The canonical encoding: 32 bytes, big-endian.
    pub closed spec fn bytes_spec(&self) -> Seq<u8> {
        self.bytes@
    }

    /// The encoding spells the value, and no other element has it.
    pub proof fn lemma_bytes(self, other: FieldElement)
        ensures
            self.bytes_spec().len() == 32,
            be_value(self.bytes_spec()) == self@,
            self.bytes_spec() == other.bytes_spec() <==> self@ == other@,
            self.bytes_spec() == other.bytes_spec() <==> self == other,
    {
        if self@ == other@ {
            lemma_be_value_injective(self.bytes@, other.bytes@);
        }
        if self.bytes@ == other.bytes@ {
            assert(self.bytes =~= other.bytes);
        }
    }

    /// The hex form of an element is that of its value.
    pub proof fn lemma_hex(self)
        ensures
            field_hex(self) == scalar_hex(self@),
            self.bytes_spec() == be_bytes(self@, 32),
    {
        lemma_be_bytes_of_value(self.bytes@);
    }

    /// The element zero.
    pub fn zero() -> (r: FieldElement)
        ensures
            r@ == 0,
    {
        u64_to_field(0)
    }

    /// Whether two elements are the same number.
    pub fn same(&self, other: &FieldElement) -> (r: bool)
        ensures
            r == (self@ == other@),
    {
        proof {
            self.lemma_bytes(*other);
        }
        *self == *other
    }
}

/// A Poseidon sponge over the BN254 scalar field with the Circom parameters
/// of one arity. The sponge itself belongs to `light_poseidon`; nothing inside
/// it is visible to proofs.
#[verifier::external_body]
pub struct CircomSponge {
    inner: Poseidon<Fr>,
}

/// `light_poseidon::Poseidon::<Fr>::new_circom`: for one to twelve inputs it
/// returns a sponge with the parameters of that arity.
#[verifier::external_body]
#[inline]
fn circom_sponge(arity: usize) -> (h: CircomSponge)
    requires
        1 <= arity <= 12,
    ensures
        circom_arity(h) == arity,
{
    CircomSponge { inner: Poseidon::<Fr>::new_circom(arity).expect("supported arity") }
}

/// `light_poseidon::PoseidonHasher::hash` on a sponge made for as many inputs
/// as are given: the result is the Poseidon hash of the inputs, a field
/// element, and the sponge is left ready for the next call.
#[verifier::external_body]
fn circom_digest(h: &mut CircomSponge, inputs: &[FieldElement]) -> (out: [u8; 32])
    requires
        circom_arity(*old(h)) == inputs@.len(),
    ensures
        circom_arity(*final(h)) == circom_arity(*old(h)),
        be_value(out@) == poseidon(inputs@.map_values(|f: FieldElement| f@)),
        be_value(out@) < modulus(),
    no_unwind
{
    let elems: Vec<Fr> = inputs.iter().map(|f| Fr::from_be_bytes_mod_order(&f.bytes)).collect();
    let digest = h.inner.hash(&elems).expect("arity matches");
    let mut out = [0u8; 32];
    out.copy_from_slice(&digest.into_bigint().to_bytes_be());
    out
}

/// `ark_ff::PrimeField::from_be_bytes_mod_order` on 32 bytes: the number that
/// the bytes spell, reduced modulo the field order, in canonical encoding.
#[verifier::external_body]
fn reduce_be_bytes(bytes: &[u8; 32]) -> (out: [u8; 32])
    ensures
        be_value(out@) == be_value(bytes@) % modulus(),
{
    let mut out = [0u8; 32];
    out.copy_from_slice(&Fr::from_be_bytes_mod_order(bytes).into_bigint().to_bytes_be());
    out
}

/// `Fr::from(u64)`: the field element with the same value, in canonical
/// encoding.
#[verifier::external_body]
fn embed_u64(value: u64) -> (out: [u8; 32])
    ensures
        be_value(out@) == value,
{
    let mut out = [0u8; 32];
    out.copy_from_slice(&Fr::from(value).into_bigint().to_bytes_be());
    out
}

/// `Fr::from(u128)`: the field element with the same value, in canonical
/// encoding.
#[verifier::external_body]
fn embed_u128(value: u128) -> (out: [u8; 32])
    ensures
        be_value(out@) == value,
{
    let mut out = [0u8; 32];
    out.copy_from_slice(&Fr::from(value).into_bigint().to_bytes_be());
    out
}

/// The four Poseidon instances that the protocol uses, one per arity, kept so
/// that their parameters are set up once.
pub struct PoseidonHasher {
    hasher_1: CircomSponge,
    hasher_2: CircomSponge,
    hasher_3: CircomSponge,
    hasher_4: CircomSponge,
}

impl PoseidonHasher {
    #[verifier::type_invariant]
    spec fn arities(self) -> bool {
        &&& circom_arity(self.hasher_1) == 1
        &&& circom_arity(self.hasher_2) == 2
        &&& circom_arity(self.hasher_3) == 3
        &&& circom_arity(self.hasher_4) == 4
    }

    /// The number of inputs that each of the four instances takes, in the
    /// order in which the hasher keeps them.
    pub closed spec fn sponge_arities(&self) -> Seq<nat> {
        seq![
            circom_arity(self.hasher_1),
            circom_arity(self.hasher_2),
            circom_arity(self.hasher_3),
            circom_arity(self.hasher_4),
        ]
    }

    /// Set up the four instances, for one, two, three and four inputs.
    #[inline]
    pub fn new() -> (h: Self)
        ensures
            h.sponge_arities() == seq![1nat, 2nat, 3nat, 4nat],
    {
        PoseidonHasher {
            hasher_1: circom_sponge(1),
            hasher_2: circom_sponge(2),
            hasher_3: circom_sponge(3),
            hasher_4: circom_sponge(4),
        }
    }

    /// Hash of one field element.
    pub fn hash1(&mut self, a: &FieldElement) -> (r: FieldElement)
        ensures
            r@ == poseidon(seq![a@]),
    {
        proof {
            use_type_invariant(&*self);
        }
        let inputs = [*a];
        assert(inputs@.map_values(|f: FieldElement| f@) =~= seq![a@]);
        let out = circom_digest(&mut self.hasher_1, inputs.as_slice());
        FieldElement { bytes: out }
    }

    /// Hash of two field elements, as the Merkle tree uses it for a node.
    pub fn hash2(&mut self, left: &FieldElement, right: &FieldElement) -> (r: FieldElement)
        ensures
            r@ == hash_pair(left@, right@),
    {
        proof {
            use_type_invariant(&*self);
        }
        let inputs = [*left, *right];
        assert(inputs@.map_values(|f: FieldElement| f@) =~= seq![left@, right@]);
        let out = circom_digest(&mut self.hasher_2, inputs.as_slice());
        FieldElement { bytes: out }
    }

    /// Hash of three field elements.
    pub fn hash3(&mut self, a: &FieldElement, b: &FieldElement, c: &FieldElement) -> (r:
        FieldElement)
        ensures
            r@ == poseidon(seq![a@, b@, c@]),
    {
        proof {
            use_type_invariant(&*self);
        }
        let inputs = [*a, *b, *c];
        assert(inputs@.map_values(|f: FieldElement| f@) =~= seq![a@, b@, c@]);
        let out = circom_digest(&mut self.hasher_3, inputs.as_slice());
        FieldElement { bytes: out }
    }

    /// Hash of four field elements.
    pub fn hash4(
        &mut self,
        a: &FieldElement,
        b: &FieldElement,
        c: &FieldElement,
        d: &FieldElement,
    ) -> (r: FieldElement)
        ensures
            r@ == poseidon(seq![a@, b@, c@, d@]),
    {
        proof {
            use_type_invariant(&*self);
        }
        let inputs = [*a, *b, *c, *d];
        assert(inputs@.map_values(|f: FieldElement| f@) =~= seq![a@, b@, c@, d@]);
        let out = circom_digest(&mut self.hasher_4, inputs.as_slice());
        FieldElement { bytes: out }
    }

    /// The public key of a secret: its hash of arity one.
    pub fn derive_pubkey(&mut self, secret: &FieldElement) -> (r: FieldElement)
        ensures
            r@ == pubkey_of(secret@),
    {
        self.hash1(secret)
    }

    /// The nullifier of a spend: the hash of secret, leaf index and nonce.
    pub fn compute_nullifier(
        &mut self,
        secret: &FieldElement,
        index: &FieldElement,
        nonce: &FieldElement,
    ) -> (r: FieldElement)
        ensures
            r@ == nullifier_of(secret@, index@, nonce@),
    {
        self.hash3(secret, index, nonce)
    }

    /// The leaf commitment of a note: the hash of public key, balance and
    /// nonce.
    pub fn compute_leaf(
        &mut self,
        pubkey: &FieldElement,
        balance: &FieldElement,
        nonce: &FieldElement,
    ) -> (r: FieldElement)
        ensures
            r@ == leaf_of(pubkey@, balance@, nonce@),
    {
        self.hash3(pubkey, balance, nonce)
    }

    /// The commitment of a deposit: the hash of secret and amount.
    pub fn compute_deposit_commitment(&mut self, secret: &FieldElement, amount: &FieldElement) -> (r:
        FieldElement)
        ensures
            r@ == commitment_of(secret@, amount@),
    {
        self.hash2(secret, amount)
    }
}

impl Default for PoseidonHasher {
    #[inline]
    fn default() -> (h: Self)
        ensures
            h.sponge_arities() == seq![1nat, 2nat, 3nat, 4nat],
    {
        PoseidonHasher::new()
    }
}

/// The canonical encoding of a field element: 32 bytes, big-endian.
pub fn field_to_bytes(f: &FieldElement) -> (bytes: [u8; 32])
    ensures
        bytes@ == f.bytes_spec(),
        bytes@ == be_bytes(f@, 32),
        be_value(bytes@) == f@,
        be_value(bytes@) < modulus(),
{
    proof {
        use_type_invariant(f);
        lemma_be_bytes_of_value(f.bytes@);
    }
    f.bytes
}

/// The field element that 32 big-endian bytes spell, reduced modulo the field
/// order.
pub fn bytes_to_field(bytes: &[u8; 32]) -> (f: FieldElement)
    ensures
        f@ == be_value(bytes@) % modulus(),
        be_value(bytes@) < modulus() ==> f.bytes_spec() == bytes@,
{
    let out = reduce_be_bytes(bytes);
    proof {
        if be_value(bytes@) < modulus() {
            lemma_be_value_injective(out@, bytes@);
        }
    }
    FieldElement { bytes: out }
}

/// The field element with the value of a `u128`.
pub fn u128_to_field(value: u128) -> (f: FieldElement)
    ensures
        f@ == value,
{
    FieldElement { bytes: embed_u128(value) }
}

/// The field element with the value of a `u64`.
pub fn u64_to_field(value: u64) -> (f: FieldElement)
    ensures
        f@ == value,
{
    FieldElement { bytes: embed_u64(value) }
}

/// The hex form of a field element: `0x` and the 64 lowercase hex digits of
/// its canonical encoding.
pub open spec fn field_hex(f: FieldElement) -> Seq<char> {
    seq!['0', 'x'] + hex_chars(f.bytes_spec())
}

/// The hex form of a number of the field: `0x` and the 64 lowercase hex
/// digits of its 32 big-endian bytes.
pub open spec fn scalar_hex(v: nat) -> Seq<char> {
    seq!['0', 'x'] + hex_chars(be_bytes(v, 32))
}

/// What [`hex_to_field`] reads from a string: the digits after an optional
/// `0x` must spell exactly 32 bytes, which are reduced modulo the field order.
pub open spec fn parsed_field_value(s: Seq<char>) -> Option<nat> {
    let digits = strip_0x(s);
    if is_hex(digits) && digits.len() == 64 {
        Some(be_value(unhex(digits)) % modulus())
    } else {
        None
    }
}

/// Reading the hex form of a field element gives the element back.
pub proof fn lemma_field_hex_round_trip(f: FieldElement)
    requires
        f@ < modulus(),
    ensures
        parsed_field_value(field_hex(f)) == Some(f@),
        parsed_field_value(hex_chars(f.bytes_spec())) == Some(f@),
{
    let bytes = f.bytes_spec();
    let digits = hex_chars(bytes);
    f.lemma_bytes(f);
    crate::hexfmt::lemma_hex_round_trip(bytes);
    assert(strip_0x(field_hex(f)) =~= digits);
    assert(strip_0x(digits) == digits);
}

/// The hex form of a field element, with the `0x` prefix.
pub fn field_to_hex(f: &FieldElement) -> (s: String)
    ensures
        s@ == field_hex(*f),
        s@ == scalar_hex(f@),
{
    let bytes = field_to_bytes(f);
    let digits = hex_encode(bytes.as_slice());
    proof {
        reveal_strlit("0x");
        assert("0x"@ =~= seq!['0', 'x']);
    }
    String::from_str("0x").concat(digits.as_str())
}

/// Reads a field element from 64 hex digits, with or without `0x` before
/// them. Anything else is refused.
pub fn hex_to_field(s: &str) -> (r: Result<FieldElement, CoreError>)
    ensures
        match parsed_field_value(s@) {
            Some(v) => r is Ok && r->Ok_0@ == v,
            None => r is Err && r->Err_0 is InvalidFieldElement,
        },
{
    let digits = strip_hex_prefix(s);
    match hex_decode(digits) {
        Err(_) => Err(CoreError::InvalidFieldElement),
        Ok(bytes) => {
            if bytes.len() != 32 {
                return Err(CoreError::InvalidFieldElement);
            }
            let mut arr = [0u8; 32];
            let mut i: usize = 0;
            while i < 32
                invariant
                    i <= 32,
                    bytes@.len() == 32,
                    forall|j: int| 0 <= j < i ==> arr@[j] == bytes@[j],
                decreases 32 - i,
            {
                arr[i] = bytes[i];
                i += 1;
            }
            assert(arr@ =~= bytes@);
            Ok(bytes_to_field(&arr))
        },
    }
}

} // verus!

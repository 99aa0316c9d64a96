//! Hexadecimal text: what the digits of a byte string are, and the calls into
//! the `hex` crate that produce and read them.

use vstd::prelude::*;

verus! {

/// The lowercase hex digit of a number below 16.
pub open spec fn hex_digit(n: int) -> char {
    seq!['0', '1', '2', '3', '4', '5', '6', '7', '8', '9', 'a', 'b', 'c', 'd', 'e', 'f'][n]
}

/// The value of a hex digit of either case.
pub open spec fn nibble_value(c: char) -> Option<int> {
    let v = c as int;
    if 48 <= v <= 57 {
        Some(v - 48)
    } else if 97 <= v <= 102 {
        Some(v - 87)
    } else if 65 <= v <= 70 {
        Some(v - 55)
    } else {
        None
    }
}

/// The hex form of a byte string: two lowercase digits per byte, the high
/// half first.
pub open spec fn hex_chars(bytes: Seq<u8>) -> Seq<char> {
    Seq::new(
        2 * bytes.len(),
        |i: int|
            if i % 2 == 0 {
                hex_digit(bytes[i / 2] as int / 16)
            } else {
                hex_digit(bytes[i / 2] as int % 16)
            },
    )
}

/// Whether a string is an even number of hex digits.
pub open spec fn is_hex(s: Seq<char>) -> bool {
    &&& s.len() % 2 == 0
    &&& forall|i: int| 0 <= i < s.len() ==> (#[trigger] nibble_value(s[i])) is Some
}

/// The bytes that a string of hex digits spells.
pub open spec fn unhex(s: Seq<char>) -> Seq<u8> {
    Seq::new(
        s.len() / 2,
        |i: int| (nibble_value(s[2 * i])->Some_0 * 16 + nibble_value(s[2 * i + 1])->Some_0) as u8,
    )
}

/// Whether a string begins with `0x`.
pub open spec fn has_0x(s: Seq<char>) -> bool {
    s.len() >= 2 && s[0] == '0' && s[1] == 'x'
}

/// A string without one `0x` at its start, if it has one.
pub open spec fn strip_0x(s: Seq<char>) -> Seq<char> {
    if has_0x(s) {
        s.subrange(2, s.len() as int)
    } else {
        s
    }
}

/// A string without any of the `0x` that it begins with.
pub open spec fn trim_0x(s: Seq<char>) -> Seq<char>
    decreases s.len(),
{
    if has_0x(s) {
        trim_0x(s.subrange(2, s.len() as int))
    } else {
        s
    }
}

/// Every digit that `hex_chars` writes is a hex digit with the value it
/// stands for.
pub proof fn lemma_hex_digit_value(n: int)
    requires
        0 <= n < 16,
    ensures
        nibble_value(hex_digit(n)) == Some(n),
{
    assert(hex_digit(0) == '0' && hex_digit(1) == '1' && hex_digit(2) == '2' && hex_digit(3) == '3');
    assert(hex_digit(4) == '4' && hex_digit(5) == '5' && hex_digit(6) == '6' && hex_digit(7) == '7');
    assert(hex_digit(8) == '8' && hex_digit(9) == '9' && hex_digit(10) == 'a' && hex_digit(11)
        == 'b');
    assert(hex_digit(12) == 'c' && hex_digit(13) == 'd' && hex_digit(14) == 'e' && hex_digit(15)
        == 'f');
}

/// Reading back the hex form of a byte string gives the byte string.
pub proof fn lemma_hex_round_trip(bytes: Seq<u8>)
    ensures
        is_hex(hex_chars(bytes)),
        hex_chars(bytes).len() == 2 * bytes.len(),
        unhex(hex_chars(bytes)) == bytes,
        !has_0x(hex_chars(bytes)),
{
    let s = hex_chars(bytes);
    assert forall|i: int| 0 <= i < s.len() implies (#[trigger] nibble_value(s[i])) is Some by {
        let b = bytes[i / 2] as int;
        lemma_hex_digit_value(b / 16);
        lemma_hex_digit_value(b % 16);
    }
    assert forall|i: int| 0 <= i < bytes.len() implies unhex(s)[i] == bytes[i] by {
        let b = bytes[i] as int;
        lemma_hex_digit_value(b / 16);
        lemma_hex_digit_value(b % 16);
        assert((2 * i) / 2 == i && (2 * i + 1) / 2 == i);
        assert((2 * i) % 2 == 0 && (2 * i + 1) % 2 == 1);
        assert(s[2 * i] == hex_digit(b / 16));
        assert(s[2 * i + 1] == hex_digit(b % 16));
        assert((b / 16) * 16 + b % 16 == b);
    }
    assert(unhex(s) =~= bytes);
    if s.len() >= 2 {
        let b = bytes[0] as int;
        assert(s[1] == hex_digit(b % 16));
        lemma_hex_digit_value(b % 16);
        assert(nibble_value('x') is None);
    }
}

/// The type of the errors of `hex::decode`.
#[verifier::external_type_specification]
#[verifier::external_body]
pub struct ExFromHexError(hex::FromHexError);

/// `hex::encode`: two lowercase hex digits for each byte, in order.
#[verifier::external_body]
pub(crate) fn hex_encode(bytes: &[u8]) -> (s: String)
    ensures
        s@ == hex_chars(bytes@),
{
    hex::encode(bytes)
}

/// `hex::decode`: succeeds on an even number of hex digits of either case,
/// and then returns the bytes that they spell.
#[verifier::external_body]
pub(crate) fn hex_decode(s: &str) -> (r: Result<Vec<u8>, hex::FromHexError>)
    ensures
        r is Ok <==> is_hex(s@),
        r is Ok ==> r->Ok_0@ == unhex(s@),
{
    hex::decode(s)
}

/// The string without one `0x` at its start, if it has one.
pub fn strip_hex_prefix(s: &str) -> (r: &str)
    ensures
        r@ == strip_0x(s@),
{
    let n = s.unicode_len();
    if n >= 2 && s.get_char(0) == '0' && s.get_char(1) == 'x' {
        s.substring_char(2, n)
    } else {
        s
    }
}

/// The string without any of the `0x` that it begins with.
pub fn trim_hex_prefix(s: &str) -> (r: &str)
    ensures
        r@ == trim_0x(s@),
{
    let mut rest = s;
    loop
        invariant
            trim_0x(rest@) == trim_0x(s@),
        ensures
            rest@ == trim_0x(s@),
        decreases rest@.len(),
    {
        let n = rest.unicode_len();
        if n >= 2 && rest.get_char(0) == '0' && rest.get_char(1) == 'x' {
            rest = rest.substring_char(2, n);
        } else {
            break ;
        }
    }
    rest
}

/// `0x` and the lowercase hex digits of a byte string.
pub fn hex_prefixed(bytes: &[u8]) -> (s: String)
    ensures
        s@ == seq!['0', 'x'] + hex_chars(bytes@),
{
    let digits = hex_encode(bytes);
    proof {
        reveal_strlit("0x");
        assert("0x"@ =~= seq!['0', 'x']);
    }
    String::from_str("0x").concat(digits.as_str())
}

} // verus!

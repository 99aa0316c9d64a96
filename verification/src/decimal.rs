//! Decimal text of unsigned integers, written and read.

use vstd::prelude::*;

verus! {

/// The character of a decimal digit.
pub open spec fn digit_char(d: nat) -> char {
    seq!['0', '1', '2', '3', '4', '5', '6', '7', '8', '9'][d as int]
}

/// The decimal form of a number, without leading zeros.
pub open spec fn decimal_digits(n: nat) -> Seq<char>
    decreases n,
{
    if n < 10 {
        seq![digit_char(n)]
    } else {
        decimal_digits(n / 10).push(digit_char(n % 10))
    }
}

/// Whether a character is a decimal digit.
pub open spec fn is_digit(c: char) -> bool {
    48 <= c as int <= 57
}

/// The number that a string of decimal digits spells.
pub open spec fn decimal_value(s: Seq<char>) -> nat
    decreases s.len(),
{
    if s.len() == 0 {
        0
    } else {
        decimal_value(s.drop_last()) * 10 + (s.last() as int - 48) as nat
    }
}

/// A string without the `+` that it may begin with.
pub open spec fn unsigned_part(s: Seq<char>) -> Seq<char> {
    if s.len() > 0 && s[0] == '+' {
        s.subrange(1, s.len() as int)
    } else {
        s
    }
}

/// Whether every character of a string is a decimal digit.
pub open spec fn all_digits(s: Seq<char>) -> bool {
    forall|i: int| 0 <= i < s.len() ==> is_digit(#[trigger] s[i])
}

/// What a string reads as: an optional `+`, then at least one decimal digit
/// and nothing else, spelling a number that fits 128 bits.
pub open spec fn parsed_u128(s: Seq<char>) -> Option<u128> {
    let digits = unsigned_part(s);
    if digits.len() > 0 && all_digits(digits) && decimal_value(digits) <= u128::MAX {
        Some(decimal_value(digits) as u128)
    } else {
        None
    }
}

fn digit_str(d: u8) -> (s: &'static str)
    requires
        d < 10,
    ensures
        s@ == seq![digit_char(d as nat)],
{
    proof {
        reveal_strlit("0");
        reveal_strlit("1");
        reveal_strlit("2");
        reveal_strlit("3");
        reveal_strlit("4");
        reveal_strlit("5");
        reveal_strlit("6");
        reveal_strlit("7");
        reveal_strlit("8");
        reveal_strlit("9");
    }
    let s = if d == 0 {
        "0"
    } else if d == 1 {
        "1"
    } else if d == 2 {
        "2"
    } else if d == 3 {
        "3"
    } else if d == 4 {
        "4"
    } else if d == 5 {
        "5"
    } else if d == 6 {
        "6"
    } else if d == 7 {
        "7"
    } else if d == 8 {
        "8"
    } else {
        "9"
    };
    assert(s@ =~= seq![digit_char(d as nat)]);
    s
}

/// The decimal form of a number.
pub fn u128_to_decimal(n: u128) -> (s: String)
    ensures
        s@ == decimal_digits(n as nat),
    decreases n,
{
    if n < 10 {
        String::from_str(digit_str(n as u8))
    } else {
        let head = u128_to_decimal(n / 10);
        let last = digit_str((n % 10) as u8);
        let s = head.concat(last);
        assert(s@ =~= decimal_digits(n as nat / 10).push(digit_char(n as nat % 10)));
        s
    }
}

/// A number below `10 * q + r` style bounds stays below when a digit is
/// appended; used to keep the running value of a parse within 128 bits.
proof fn lemma_value_grows(s: Seq<char>, k: int)
    requires
        0 <= k <= s.len(),
        all_digits(s),
    ensures
        decimal_value(s.subrange(0, k)) <= decimal_value(s),
    decreases s.len() - k,
{
    if k < s.len() {
        lemma_value_grows(s, k + 1);
        let t = s.subrange(0, k + 1);
        assert(t.drop_last() =~= s.subrange(0, k));
        assert(is_digit(s[k]));
        assert(t.last() == s[k]);
    } else {
        assert(s.subrange(0, k) =~= s);
    }
}

/// Reads a number from its decimal form.
pub fn parse_u128(s: &str) -> (r: Option<u128>)
    ensures
        r == parsed_u128(s@),
{
    let n = s.unicode_len();
    let start: usize = if n > 0 && s.get_char(0) == '+' {
        1
    } else {
        0
    };
    let ghost digits = unsigned_part(s@);
    proof {
        assert(digits =~= s@.subrange(start as int, n as int));
    }
    if start == n {
        return None;
    }
    let mut acc: u128 = 0;
    let mut i: usize = start;
    while i < n
        invariant
            start <= i <= n,
            n == s@.len(),
            digits == unsigned_part(s@),
            digits == s@.subrange(start as int, n as int),
            forall|j: int| 0 <= j < i - start ==> is_digit(#[trigger] digits[j]),
            acc == decimal_value(digits.subrange(0, i - start)),
        decreases n - i,
    {
        let c = s.get_char(i);
        assert(c == digits[i - start]);
        if c < '0' || c > '9' {
            assert(!is_digit(digits[i - start]));
            assert(!all_digits(digits));
            return None;
        }
        let d: u128 = (c as u32 - 48) as u128;
        let ghost next = digits.subrange(0, i - start + 1);
        proof {
            assert(next.drop_last() =~= digits.subrange(0, i - start));
            assert(next.last() == c);
            assert(decimal_value(next) == acc * 10 + d);
        }
        if acc > (u128::MAX - d) / 10 {
            proof {
                assert(acc * 10 + d > u128::MAX);
                if all_digits(digits) {
                    lemma_value_grows(digits, i - start + 1);
                }
            }
            return None;
        }
        acc = acc * 10 + d;
        i += 1;
    }
    proof {
        assert(digits.subrange(0, n - start) =~= digits);
        assert(all_digits(digits));
    }
    Some(acc)
}

} // verus!

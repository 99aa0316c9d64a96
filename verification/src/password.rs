//! The rule that a wallet password has to meet.

use vstd::prelude::*;

verus! {

/// Whether a character is an uppercase letter, as `char::is_uppercase` says.
pub uninterp spec fn uppercase_letter(c: char) -> bool;

/// Whether a character is a lowercase letter, as `char::is_lowercase` says.
pub uninterp spec fn lowercase_letter(c: char) -> bool;

/// `char::is_uppercase`: whether the character has the Unicode property
/// `Uppercase`.
#[verifier::external_body]
fn is_uppercase(c: char) -> (r: bool)
    ensures
        r == uppercase_letter(c),
{
    c.is_uppercase()
}

/// `char::is_lowercase`: whether the character has the Unicode property
/// `Lowercase`.
#[verifier::external_body]
fn is_lowercase(c: char) -> (r: bool)
    ensures
        r == lowercase_letter(c),
{
    c.is_lowercase()
}

/// Why a password is refused.
#[derive(Debug, Clone, Copy, PartialEq, Eq, Structural)]
pub enum PasswordError {
    /// The password has fewer than eight bytes.
    TooShort,
    /// The password lacks an uppercase letter, a lowercase letter or a
    /// digit.
    TooPlain,
}

/// Whether a character is one of the digits `0` to `9`.
pub open spec fn ascii_digit(c: char) -> bool {
    48 <= c as int <= 57
}

/// Whether some character of a string has a property.
pub open spec fn has_some(s: Seq<char>, property: spec_fn(char) -> bool) -> bool {
    exists|i: int| 0 <= i < s.len() && property(#[trigger] s[i])
}

/// Whether a password mixes uppercase letters, lowercase letters and
/// digits.
pub open spec fn mixed(s: Seq<char>) -> bool {
    &&& has_some(s, |c: char| uppercase_letter(c))
    &&& has_some(s, |c: char| lowercase_letter(c))
    &&& has_some(s, |c: char| ascii_digit(c))
}

impl PasswordError {
    /// What to tell the user.
    pub fn message(&self) -> (s: &'static str)
        ensures
            s@ == match *self {
                PasswordError::TooShort => "Password must be at least 8 characters"@,
                PasswordError::TooPlain => "Password must contain uppercase, lowercase, and a digit"@,
            },
    {
        match self {
            PasswordError::TooShort => "Password must be at least 8 characters",
            PasswordError::TooPlain => "Password must contain uppercase, lowercase, and a digit",
        }
    }
}

/// Validate password strength: at least eight bytes, with an uppercase
/// letter, a lowercase letter and a digit among its characters.
pub fn validate_password(password: &str) -> (r: Result<(), PasswordError>)
    ensures
        password.len() < 8 ==> r == Err::<(), PasswordError>(PasswordError::TooShort),
        password.len() >= 8 && !mixed(password@) ==> r == Err::<(), PasswordError>(
            PasswordError::TooPlain,
        ),
        password.len() >= 8 && mixed(password@) ==> r is Ok,
{
    if password.len() < 8 {
        return Err(PasswordError::TooShort);
    }
    let n = password.unicode_len();
    let mut has_uppercase = false;
    let mut has_lowercase = false;
    let mut has_digit = false;
    let mut i: usize = 0;
    while i < n
        invariant
            i <= n,
            n == password@.len(),
            has_uppercase == has_some(password@.take(i as int), |c: char| uppercase_letter(c)),
            has_lowercase == has_some(password@.take(i as int), |c: char| lowercase_letter(c)),
            has_digit == has_some(password@.take(i as int), |c: char| ascii_digit(c)),
        decreases n - i,
    {
        let c = password.get_char(i);
        let ghost before = password@.take(i as int);
        let ghost after = password@.take(i + 1);
        let upper = is_uppercase(c);
        let lower = is_lowercase(c);
        let digit = c >= '0' && c <= '9';
        proof {
            assert(after =~= before.push(c));
            lemma_has_some_grows(before, after, c, |c: char| uppercase_letter(c));
            lemma_has_some_grows(before, after, c, |c: char| lowercase_letter(c));
            lemma_has_some_grows(before, after, c, |c: char| ascii_digit(c));
        }
        has_uppercase = has_uppercase || upper;
        has_lowercase = has_lowercase || lower;
        has_digit = has_digit || digit;
        i += 1;
    }
    proof {
        assert(password@.take(i as int) =~= password@);
    }
    if !has_uppercase || !has_lowercase || !has_digit {
        return Err(PasswordError::TooPlain);
    }
    Ok(())
}

proof fn lemma_has_some_grows(
    before: Seq<char>,
    after: Seq<char>,
    c: char,
    property: spec_fn(char) -> bool,
)
    requires
        after == before.push(c),
    ensures
        has_some(after, property) == (has_some(before, property) || property(c)),
{
    if has_some(before, property) {
        let i = choose|i: int| 0 <= i < before.len() && property(#[trigger] before[i]);
        assert(after[i] == before[i]);
    }
    if property(c) {
        assert(after[before.len() as int] == c);
    }
    if has_some(after, property) {
        let i = choose|i: int| 0 <= i < after.len() && property(#[trigger] after[i]);
        if i < before.len() {
            assert(before[i] == after[i]);
        }
    }
}

} // verus!

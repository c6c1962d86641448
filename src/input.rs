//! What the programs accept as input: the candidate PIN, a new PIN and
//! its confirmation, and the username.

use vstd::prelude::*;
use vstd::string::StrSliceExecFns;
use vstd::string::StringExecFns;
use crate::number::{all_digits, is_digit};
use crate::record::{colon_free, first_colon_at};
use crate::scrub::scrub;

verus! {

/// The lengths a PIN may have.
#[derive(Clone, Copy, Debug, PartialEq, Eq, Structural)]
pub struct PinLengths {
    pub min: usize,
    pub max: usize,
}

impl PinLengths {
    /// Four to six digits.
    pub fn standard() -> (r: PinLengths)
        ensures
            r.min == 4 && r.max == 6,
    {
        PinLengths { min: 4, max: 6 }
    }
}

/// `s` is a PIN of an allowed length: ASCII digits only.
pub open spec fn pin_shape_ok(s: Seq<char>, lengths: PinLengths) -> bool {
    lengths.min <= s.len() <= lengths.max && all_digits(s)
}

/// The input without one trailing newline.
pub open spec fn strip_newline(s: Seq<char>) -> Seq<char> {
    if s.len() > 0 && s.last() == '\n' {
        s.drop_last()
    } else {
        s
    }
}

/// The candidate that standard input holds, if it is acceptable.
pub open spec fn candidate_spec(input: Seq<char>, lengths: PinLengths) -> Option<Seq<char>> {
    let c = strip_newline(input);
    if c.len() > 0 && pin_shape_ok(c, lengths) {
        Some(c)
    } else {
        None
    }
}

fn digits_only(s: &str) -> (r: bool)
    ensures
        r == all_digits(s@),
{
    let n = s.unicode_len();
    let mut i: usize = 0;
    while i < n
        invariant
            i <= n == s@.len(),
            forall|k: int| 0 <= k < i ==> is_digit(#[trigger] s@[k]),
        decreases n - i,
    {
        let c = s.get_char(i);
        if !('0' <= c && c <= '9') {
            return false;
        }
        i += 1;
    }
    true
}

/// Whether `s` is a PIN of an allowed length.
pub fn pin_shape_valid(s: &str, lengths: PinLengths) -> (r: bool)
    ensures
        r == pin_shape_ok(s@, lengths),
{
    let n = s.unicode_len();
    n >= lengths.min && n <= lengths.max && digits_only(s)
}

/// Takes the candidate out of what standard input held: one trailing
/// newline is dropped; an empty candidate, one of a length outside the
/// bounds or one with anything but ASCII digits is refused. The input
/// buffer is overwritten either way.
pub fn prepare_candidate(input: &mut String, lengths: PinLengths) -> (r: Option<String>)
    ensures
        final(input)@.len() == 0,
        match candidate_spec(old(input)@, lengths) {
            Some(c) => r matches Some(s) && s@ == c,
            None => r is None,
        },
{
    let n = input.as_str().unicode_len();
    let end = if n > 0 && input.as_str().get_char(n - 1) == '\n' { n - 1 } else { n };
    let c = input.as_str().substring_char(0, end);
    assert(c@ =~= strip_newline(old(input)@));
    let r = if end > 0 && pin_shape_valid(c, lengths) {
        Some(c.to_owned())
    } else {
        None
    };
    scrub(input);
    r
}

/// Why a new PIN is refused.
#[derive(Clone, Copy, Debug, PartialEq, Eq, Structural)]
pub enum ProvisionError {
    /// The PIN and its confirmation differ.
    PinMismatch,
    /// The minimum length is 0 or above 32.
    BadMinLength,
    /// The maximum length is below the minimum.
    MaxBelowMin,
    TooShort,
    TooLong,
    NotDigits,
}

impl ProvisionError {
    /// The error as one line of text.
    pub fn message(&self) -> (r: String)
        ensures
            r@ == match self {
                ProvisionError::PinMismatch => "PINs do not match"@,
                ProvisionError::BadMinLength => "Unreasonable PIN_MIN_LEN"@,
                ProvisionError::MaxBelowMin => "PIN_MAX_LEN is less than PIN_MIN_LEN"@,
                ProvisionError::TooShort => "PIN shorter than minimum"@,
                ProvisionError::TooLong => "PIN longer than allowed maximum"@,
                ProvisionError::NotDigits => "PIN must contain only digits (0-9)"@,
            },
    {
        match self {
            ProvisionError::PinMismatch => String::from_str("PINs do not match"),
            ProvisionError::BadMinLength => String::from_str("Unreasonable PIN_MIN_LEN"),
            ProvisionError::MaxBelowMin => String::from_str("PIN_MAX_LEN is less than PIN_MIN_LEN"),
            ProvisionError::TooShort => String::from_str("PIN shorter than minimum"),
            ProvisionError::TooLong => String::from_str("PIN longer than allowed maximum"),
            ProvisionError::NotDigits => String::from_str("PIN must contain only digits (0-9)"),
        }
    }
}

/// The first rule a new PIN and its confirmation break, in the order
/// they are checked; `None` when the PIN is accepted.
pub open spec fn new_pin_fault(pin: Seq<char>, confirm: Seq<char>, lengths: PinLengths) -> Option<ProvisionError> {
    if pin != confirm {
        Some(ProvisionError::PinMismatch)
    } else if lengths.min == 0 || lengths.min > 32 {
        Some(ProvisionError::BadMinLength)
    } else if lengths.max < lengths.min {
        Some(ProvisionError::MaxBelowMin)
    } else if pin.len() < lengths.min {
        Some(ProvisionError::TooShort)
    } else if pin.len() > lengths.max {
        Some(ProvisionError::TooLong)
    } else if !all_digits(pin) {
        Some(ProvisionError::NotDigits)
    } else {
        None
    }
}

fn same_text(a: &str, b: &str) -> (r: bool)
    ensures
        r == (a@ == b@),
{
    let n = a.unicode_len();
    if n != b.unicode_len() {
        return false;
    }
    let mut i: usize = 0;
    while i < n
        invariant
            i <= n == a@.len() == b@.len(),
            forall|k: int| 0 <= k < i ==> a@[k] == b@[k],
        decreases n - i,
    {
        if a.get_char(i) != b.get_char(i) {
            return false;
        }
        i += 1;
    }
    assert(a@ =~= b@);
    true
}

/// Checks a new PIN and its confirmation against the length policy.
pub fn check_new_pin(pin: &str, confirm: &str, lengths: PinLengths) -> (r: Result<(), ProvisionError>)
    ensures
        match new_pin_fault(pin@, confirm@, lengths) {
            Some(e) => r == Err::<(), ProvisionError>(e),
            None => r is Ok,
        },
{
    if !same_text(pin, confirm) {
        return Err(ProvisionError::PinMismatch);
    }
    if lengths.min == 0 || lengths.min > 32 {
        return Err(ProvisionError::BadMinLength);
    }
    if lengths.max < lengths.min {
        return Err(ProvisionError::MaxBelowMin);
    }
    let n = pin.unicode_len();
    if n < lengths.min {
        return Err(ProvisionError::TooShort);
    }
    if n > lengths.max {
        return Err(ProvisionError::TooLong);
    }
    if !digits_only(pin) {
        return Err(ProvisionError::NotDigits);
    }
    Ok(())
}

/// The PIN and its confirmation in a non-interactive value `PIN[:CONFIRM]`:
/// split at the first `:`; without one, the PIN stands for both.
pub open spec fn pin_pair_spec(value: Seq<char>) -> (Seq<char>, Seq<char>) {
    if colon_free(value) {
        (value, value)
    } else {
        let k = choose|k: int| first_colon_at(value, k);
        (value.take(k), value.skip(k + 1))
    }
}

/// Splits a non-interactive value into the PIN and its confirmation.
pub fn split_pin_pair(value: &str) -> (r: (String, String))
    ensures
        (r.0@, r.1@) == pin_pair_spec(value@),
{
    let n = value.unicode_len();
    let mut i: usize = 0;
    while i < n
        invariant
            i <= n == value@.len(),
            colon_free(value@.take(i as int)),
        decreases n - i,
    {
        if value.get_char(i) == ':' {
            let a = value.substring_char(0, i);
            let b = value.substring_char(i + 1, n);
            assert(first_colon_at(value@, i as int));
            proof {
                let k = choose|k: int| first_colon_at(value@, k);
                if k < i {
                    assert(value@.take(i as int)[k] == ':');
                } else if k > i {
                    assert(value@.take(k)[i as int] == ':');
                }
            }
            assert(a@ =~= value@.take(i as int));
            assert(b@ =~= value@.skip(i + 1));
            return (a.to_owned(), b.to_owned());
        }
        assert(colon_free(value@.take(i + 1))) by {
            assert forall|k: int| 0 <= k < i + 1 implies #[trigger] value@.take(i + 1)[k] != ':' by {
                if k < i {
                    assert(value@.take(i + 1)[k] == value@.take(i as int)[k]);
                }
            }
        }
        i += 1;
    }
    assert(value@.take(n as int) =~= value@);
    (value.to_owned(), value.to_owned())
}

pub open spec fn is_alnum(c: char) -> bool {
    ('a' <= c && c <= 'z') || ('A' <= c && c <= 'Z') || is_digit(c)
}

pub open spec fn is_name_char(c: char) -> bool {
    is_alnum(c) || c == '_' || c == '-'
}

/// A username the programs accept: 1 to 32 characters from
/// `[A-Za-z0-9_-]`, the first a letter, digit or underscore, and not all
/// digits. A path separator can therefore never occur.
pub open spec fn username_ok(u: Seq<char>) -> bool {
    &&& 1 <= u.len() <= 32
    &&& is_alnum(u[0]) || u[0] == '_'
    &&& forall|i: int| 0 <= i < u.len() ==> is_name_char(#[trigger] u[i])
    &&& !all_digits(u)
}

/// Whether the verifier accepts `u` as a username.
pub fn validate_username(u: &str) -> (r: bool)
    ensures
        r == username_ok(u@),
        r ==> forall|i: int| 0 <= i < u@.len() ==> u@[i] != '/',
{
    let n = u.unicode_len();
    if n == 0 || n > 32 {
        return false;
    }
    let first = u.get_char(0);
    let first_ok = ('a' <= first && first <= 'z') || ('A' <= first && first <= 'Z')
        || ('0' <= first && first <= '9') || first == '_';
    if !first_ok {
        return false;
    }
    let mut i: usize = 0;
    while i < n
        invariant
            i <= n == u@.len(),
            forall|k: int| 0 <= k < i ==> is_name_char(#[trigger] u@[k]),
        decreases n - i,
    {
        let c = u.get_char(i);
        if !(('a' <= c && c <= 'z') || ('A' <= c && c <= 'Z') || ('0' <= c && c <= '9') || c == '_'
            || c == '-') {
            return false;
        }
        i += 1;
    }
    !digits_only(u)
}

} // verus!

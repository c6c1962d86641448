//! Unsigned decimal numbers as text, read and written.

use vstd::prelude::*;
use vstd::string::StrSliceExecFns;

verus! {

pub open spec fn is_digit(c: char) -> bool {
    '0' <= c && c <= '9'
}

pub open spec fn digit_value(c: char) -> nat {
    (c as u32 - '0' as u32) as nat
}

pub open spec fn all_digits(s: Seq<char>) -> bool {
    forall|i: int| 0 <= i < s.len() ==> is_digit(#[trigger] s[i])
}

/// The value of a string of decimal digits, most significant first.
pub open spec fn digits_value(s: Seq<char>) -> nat
    decreases s.len(),
{
    if s.len() == 0 {
        0
    } else {
        digits_value(s.drop_last()) * 10 + digit_value(s.last())
    }
}

/// The digits of an unsigned number as written: a leading `+` is allowed
/// when digits follow it.
pub open spec fn unsigned_body(s: Seq<char>) -> Seq<char> {
    if s.len() > 1 && s[0] == '+' {
        s.drop_first()
    } else {
        s
    }
}

/// What reading `s` as an unsigned number no greater than `max` gives.
pub open spec fn parse_unsigned(s: Seq<char>, max: nat) -> Option<nat> {
    let d = unsigned_body(s);
    if d.len() > 0 && all_digits(d) && digits_value(d) <= max {
        Some(digits_value(d))
    } else {
        None
    }
}

/// Reads `s` as an unsigned decimal number no greater than `max`: digits
/// only, at least one, with an optional leading `+`.
pub fn parse_decimal(s: &str, max: u64) -> (r: Option<u64>)
    ensures
        match parse_unsigned(s@, max as nat) {
            Some(v) => r == Some(v as u64),
            None => r is None,
        },
{
    let n = s.unicode_len();
    let start: usize = if n > 1 && s.get_char(0) == '+' { 1 } else { 0 };
    if start >= n {
        return None;
    }
    let ghost d = unsigned_body(s@);
    assert(d =~= s@.subrange(start as int, n as int));
    let mut i: usize = start;
    let mut v: u64 = 0;
    let mut too_big = false;
    while i < n
        invariant
            start <= i <= n,
            n == s@.len(),
            d == unsigned_body(s@),
            d =~= s@.subrange(start as int, n as int),
            all_digits(d.take(i - start)),
            !too_big ==> v as nat == digits_value(d.take(i - start)) && v <= max,
            too_big ==> digits_value(d.take(i - start)) > max,
        decreases n - i,
    {
        let c = s.get_char(i);
        if !('0' <= c && c <= '9') {
            assert(d[i - start] == c);
            assert(!is_digit(d[i - start]));
            assert(!all_digits(d));
            return None;
        }
        let dv = (c as u32 - '0' as u32) as u64;
        let ghost prev = d.take(i - start);
        let ghost next = d.take(i - start + 1);
        assert(next.drop_last() =~= prev);
        assert(next.last() == c);
        assert(digits_value(next) == digits_value(prev) * 10 + digit_value(c));
        if !too_big {
            if dv > max || v > (max - dv) / 10 {
                too_big = true;
                assert(digits_value(next) > max) by (nonlinear_arith)
                    requires
                        digits_value(next) == v * 10 + dv,
                        dv > max || v > (max - dv) / 10,
                        dv <= 9,
                ;
            } else {
                assert(v * 10 + dv <= max) by (nonlinear_arith)
                    requires
                        v <= (max - dv) / 10,
                        dv <= max,
                ;
                v = v * 10 + dv;
            }
        } else {
            assert(digits_value(next) > max) by (nonlinear_arith)
                requires
                    digits_value(next) == digits_value(prev) * 10 + digit_value(c),
                    digits_value(prev) > max,
            ;
        }
        assert(all_digits(next)) by {
            assert forall|k: int| 0 <= k < next.len() implies is_digit(#[trigger] next[k]) by {
                if k < prev.len() {
                    assert(next[k] == prev[k]);
                }
            }
        }
        i += 1;
    }
    assert(d.take(n - start) =~= d);
    assert(all_digits(d));
    assert(d.len() > 0);
    if too_big {
        None
    } else {
        Some(v)
    }
}

/// A configured number: the value `raw` reads as, no greater than `max`,
/// else `default` (also when nothing is configured).
pub fn value_or(raw: Option<&str>, max: u64, default: u64) -> (r: u64)
    ensures
        r == match raw {
            Some(s) => match parse_unsigned(s@, max as nat) {
                Some(v) => v as u64,
                None => default,
            },
            None => default,
        },
{
    match raw {
        Some(s) => match parse_decimal(s, max) {
            Some(v) => v,
            None => default,
        },
        None => default,
    }
}

} // verus!

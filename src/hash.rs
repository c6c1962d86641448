//! The hash engine: records are made under a chosen scheme and checked
//! under the scheme that their prefix names.

use vstd::prelude::*;
use vstd::string::StrSliceExecFns;
use vstd::string::StringExecFns;
use argon2::password_hash::rand_core::OsRng;
use argon2::password_hash::{PasswordHash, SaltString};
use argon2::{Algorithm, Argon2, PasswordHasher, PasswordVerifier, Version};
use sha_crypt::{sha512_check, sha512_simple, Sha512Params};
use crate::number::{all_digits, digits_value, is_digit, parse_decimal, parse_unsigned};
use crate::record::{ascii_text, decimal_digits, is_space, trim, trim_end, trim_start};
use crate::scrub::scrub;

verus! {

/// Why a record could not be made.
#[derive(Debug)]
pub enum PinHashError {
    UnsupportedScheme,
    HashFailure(String),
    ParseFailure(String),
}

impl PinHashError {
    /// The error as one line of text.
    pub fn message(&self) -> (r: String)
        ensures
            match self {
                PinHashError::UnsupportedScheme => r@ == "unsupported hash scheme"@,
                PinHashError::HashFailure(e) => r@ == "hash failure: "@ + e@,
                PinHashError::ParseFailure(e) => r@ == "parse failure: "@ + e@,
            },
    {
        match self {
            PinHashError::UnsupportedScheme => String::from_str("unsupported hash scheme"),
            PinHashError::HashFailure(e) => String::from_str("hash failure: ").concat(e.as_str()),
            PinHashError::ParseFailure(e) => String::from_str("parse failure: ").concat(e.as_str()),
        }
    }
}

/// The hashing schemes a record can be made under.
#[derive(Clone, Copy, Debug, PartialEq, Eq, Structural)]
pub enum Scheme {
    Sha512Crypt,
    Argon2id,
}

/// Argon2 cost parameters that override the defaults.
#[derive(Clone, Copy, Debug, PartialEq, Eq, Structural)]
pub struct Argon2Cost {
    pub m_cost: u32,
    pub t_cost: u32,
    pub p_cost: u32,
}

pub open spec fn starts_with(s: Seq<char>, p: Seq<char>) -> bool {
    p.len() <= s.len() && s.take(p.len() as int) == p
}

pub open spec fn sha512_prefix() -> Seq<char> {
    seq!['$', '6', '$']
}

pub open spec fn argon2_prefix() -> Seq<char> {
    seq!['$', 'a', 'r', 'g', 'o', 'n', '2']
}

pub open spec fn argon2id_prefix() -> Seq<char> {
    seq!['$', 'a', 'r', 'g', 'o', 'n', '2', 'i', 'd', '$']
}

/// The scheme a stored record is checked under: the one its prefix
/// names, else the configured default.
pub open spec fn scheme_of_record(stored: Seq<char>, default: Scheme) -> Scheme {
    if starts_with(stored, sha512_prefix()) {
        Scheme::Sha512Crypt
    } else if starts_with(stored, argon2_prefix()) {
        Scheme::Argon2id
    } else {
        default
    }
}

/// Whether sha-crypt's SHA512-crypt check accepts `candidate` against `stored`.
pub uninterp spec fn sha512_accepts(candidate: Seq<char>, stored: Seq<char>) -> bool;

/// Whether argon2's check accepts `candidate` against the PHC string `stored`.
pub uninterp spec fn argon2_accepts(candidate: Seq<char>, stored: Seq<char>) -> bool;

/// The digits that follow `start` in `s`, read as a number, stay within
/// `max` however far they run.
pub open spec fn run_within(s: Seq<char>, start: int, max: nat) -> bool {
    forall|j: int|
        start <= j <= s.len() && all_digits(#[trigger] s.subrange(start, j)) ==> digits_value(
            s.subrange(start, j),
        ) <= max
}

/// The largest parallelism whose product by 8 fits in a `u32`.
pub open spec fn lanes_limit() -> nat {
    0x1FFF_FFFF
}

/// Every `p=` in an Argon2 record is followed by a number within
/// `lanes_limit()`: checking a record whose parallelism is larger would
/// overflow inside argon2.
pub open spec fn argon2_lanes_bounded(s: Seq<char>) -> bool {
    forall|i: int|
        0 <= i && i + 1 < s.len() && s[i] == 'p' && #[trigger] s[i + 1] == '=' ==> run_within(
            s,
            i + 2,
            lanes_limit(),
        )
}

/// Whether `candidate` matches the stored record; an Argon2 record whose
/// parallelism is out of bounds matches nothing.
pub open spec fn record_accepts(candidate: Seq<char>, stored: Seq<char>, default: Scheme) -> bool {
    match scheme_of_record(stored, default) {
        Scheme::Sha512Crypt => sha512_accepts(candidate, stored),
        Scheme::Argon2id => argon2_lanes_bounded(stored) && argon2_accepts(candidate, stored),
    }
}

/// `s` holds at least three `$`: a scheme, a salt and a hash field.
pub open spec fn has_hash_fields(s: Seq<char>) -> bool {
    exists|i: int, j: int, k: int|
        0 <= i < j < k < s.len() && #[trigger] s[i] == '$' && #[trigger] s[j] == '$'
            && #[trigger] s[k] == '$'
}

/// A record written as one line: printable ASCII without spaces.
pub open spec fn one_line(s: Seq<char>) -> bool {
    s.len() > 0 && forall|i: int| 0 <= i < s.len() ==> '!' <= #[trigger] s[i] && s[i] <= '~'
}

/// The decimal text of `n`.
pub open spec fn decimal_text(n: nat) -> Seq<char> {
    ascii_text(decimal_digits(n))
}

/// How an Argon2id record made with memory `m`, time `t` and parallelism
/// `p` begins: `$argon2id$v=19$m=<m>,t=<t>,p=<p>$`.
pub open spec fn argon2id_head(m: u32, t: u32, p: u32) -> Seq<char> {
    argon2id_prefix() + seq!['v', '=', '1', '9', '$', 'm', '='] + decimal_text(m as nat) + seq![
        ',',
        't',
        '=',
    ] + decimal_text(t as nat) + seq![',', 'p', '='] + decimal_text(p as nat) + seq!['$']
}

/// Argon2's default memory cost in KiB.
pub const ARGON2_DEFAULT_M_COST: u32 = 19456;

/// Argon2's default time cost.
pub const ARGON2_DEFAULT_T_COST: u32 = 2;

/// Argon2's default parallelism.
pub const ARGON2_DEFAULT_P_COST: u32 = 1;

/// The parameters argon2 accepts: memory at least 8 and at least 8 times
/// the parallelism, time at least 1, parallelism from 1 to 2^24 - 1.
pub open spec fn argon2_params_ok(m: u32, t: u32, p: u32) -> bool {
    m >= 8 && m >= 8 * p && t >= 1 && 1 <= p <= 0xFF_FFFF
}

/// The costs a new Argon2id record is made with: the override when argon2
/// accepts it, else the defaults.
pub open spec fn chosen_cost(cost: Option<Argon2Cost>) -> (u32, u32, u32) {
    match cost {
        Some(c) => if argon2_params_ok(c.m_cost, c.t_cost, c.p_cost) {
            (c.m_cost, c.t_cost, c.p_cost)
        } else {
            (ARGON2_DEFAULT_M_COST, ARGON2_DEFAULT_T_COST, ARGON2_DEFAULT_P_COST)
        },
        None => (ARGON2_DEFAULT_M_COST, ARGON2_DEFAULT_T_COST, ARGON2_DEFAULT_P_COST),
    }
}


/// `c` is `w` once an ASCII capital is made small.
pub open spec fn folds_to_char(c: char, w: char) -> bool {
    if 'A' <= c && c <= 'Z' {
        c as u32 + 32 == w as u32
    } else {
        c == w
    }
}

/// `s` equals `word`, a lower-case ASCII word, up to case.
pub open spec fn equals_folded(s: Seq<char>, word: Seq<char>) -> bool {
    s.len() == word.len() && forall|i: int| 0 <= i < s.len() ==> folds_to_char(#[trigger] s[i], word[i])
}

pub open spec fn argon2_names(s: Seq<char>) -> bool {
    equals_folded(s, seq!['a', 'r', 'g', 'o', 'n', '2'])
        || equals_folded(s, seq!['a', 'r', 'g', 'o', 'n', '2', 'i', 'd'])
}

fn has_prefix(s: &str, p: &[char]) -> (r: bool)
    ensures
        r == starts_with(s@, p@),
{
    let n = s.unicode_len();
    if p.len() > n {
        return false;
    }
    let mut i: usize = 0;
    while i < p.len()
        invariant
            p.len() <= n == s@.len(),
            i <= p.len(),
            forall|k: int| 0 <= k < i ==> s@[k] == p@[k],
        decreases p.len() - i,
    {
        if s.get_char(i) != p[i] {
            assert(s@.take(p@.len() as int)[i as int] != p@[i as int]);
            return false;
        }
        i += 1;
    }
    assert(s@.take(p@.len() as int) =~= p@);
    true
}

fn folds_to(s: &str, word: &[char]) -> (r: bool)
    ensures
        r == equals_folded(s@, word@),
{
    let n = s.unicode_len();
    if n != word.len() {
        return false;
    }
    let mut i: usize = 0;
    while i < n
        invariant
            n == s@.len() == word@.len(),
            i <= n,
            forall|k: int| 0 <= k < i ==> folds_to_char(#[trigger] s@[k], word@[k]),
        decreases n - i,
    {
        let c = s.get_char(i);
        let w = word[i];
        let same = if 'A' <= c && c <= 'Z' { (c as u32) + 32 == w as u32 } else { c == w };
        if !same {
            return false;
        }
        i += 1;
    }
    true
}

/// The scheme named by the configured value: `argon2` or `argon2id` in
/// any case select Argon2id; anything else, SHA512-crypt.
pub fn scheme_from_env(value: &str) -> (r: Scheme)
    ensures
        r == (if argon2_names(value@) { Scheme::Argon2id } else { Scheme::Sha512Crypt }),
{
    let short = ['a', 'r', 'g', 'o', 'n', '2'];
    let long = ['a', 'r', 'g', 'o', 'n', '2', 'i', 'd'];
    assert(short@ =~= seq!['a', 'r', 'g', 'o', 'n', '2']);
    assert(long@ =~= seq!['a', 'r', 'g', 'o', 'n', '2', 'i', 'd']);
    if folds_to(value, &short) || folds_to(value, &long) {
        Scheme::Argon2id
    } else {
        Scheme::Sha512Crypt
    }
}

/// The scheme a stored record is checked under.
pub fn scheme_for_record(stored: &str, default: Scheme) -> (r: Scheme)
    ensures
        r == scheme_of_record(stored@, default),
{
    let sha = ['$', '6', '$'];
    let argon = ['$', 'a', 'r', 'g', 'o', 'n', '2'];
    assert(sha@ =~= sha512_prefix());
    assert(argon@ =~= argon2_prefix());
    if has_prefix(stored, &sha) {
        Scheme::Sha512Crypt
    } else if has_prefix(stored, &argon) {
        Scheme::Argon2id
    } else {
        default
    }
}

/// The Argon2 cost override given by the three configured values: each
/// must read as a positive number, else the defaults stay.
pub fn argon2_cost_from(m: &str, t: &str, p: &str) -> (r: Option<Argon2Cost>)
    ensures
        match (
            parse_unsigned(m@, u32::MAX as nat),
            parse_unsigned(t@, u32::MAX as nat),
            parse_unsigned(p@, u32::MAX as nat),
        ) {
            (Some(mv), Some(tv), Some(pv)) => if mv > 0 && tv > 0 && pv > 0 {
                r == Some(Argon2Cost { m_cost: mv as u32, t_cost: tv as u32, p_cost: pv as u32 })
            } else {
                r is None
            },
            _ => r is None,
        },
{
    let mv = parse_decimal(m, u32::MAX as u64);
    let tv = parse_decimal(t, u32::MAX as u64);
    let pv = parse_decimal(p, u32::MAX as u64);
    match (mv, tv, pv) {
        (Some(a), Some(b), Some(c)) => {
            if a > 0 && b > 0 && c > 0 {
                Some(Argon2Cost { m_cost: a as u32, t_cost: b as u32, p_cost: c as u32 })
            } else {
                None
            }
        },
        _ => None,
    }
}

#[verifier::external_type_specification]
#[verifier::external_body]
pub struct ExArgon2Params(argon2::Params);

#[verifier::external_type_specification]
#[verifier::external_body]
pub struct ExArgon2Error(argon2::Error);

#[verifier::external_type_specification]
#[verifier::external_body]
pub struct ExSaltString(SaltString);

/// Relies on argon2's `Params::new`: it fails unless the memory cost is at
/// least 8 and at least 8 times the parallelism, the time cost at least 1
/// and the parallelism between 1 and 2^24 - 1. The parallelism is bounded
/// so that its product by 8 does not overflow.
pub assume_specification[ argon2::Params::new ](
    m_cost: u32,
    t_cost: u32,
    p_cost: u32,
    output_len: Option<usize>,
) -> (r: Result<argon2::Params, argon2::Error>)
    requires
        p_cost <= 0x1FFF_FFFF,
        output_len is None,
    ensures
        r is Ok <==> (m_cost >= 8 && m_cost >= 8 * p_cost && t_cost >= 1 && 1 <= p_cost
            <= 0xFF_FFFF),
;

/// Relies on password-hash's `SaltString::generate` with the operating
/// system's random source.
#[verifier::external_body]
fn new_salt() -> SaltString {
    SaltString::generate(&mut OsRng)
}

/// Relies on argon2's `Params::new` and `hash_password` for Argon2id,
/// version 0x13, and on password-hash's PHC string: `$argon2id$v=19$`, the
/// three costs as `m=..,t=..,p=..`, then the salt and the hash in B64, which
/// holds no `=`. The record checks the PIN it was made from.
#[verifier::external_body]
fn argon2id_hash(pin: &str, salt: &SaltString, m: u32, t: u32, p: u32) -> (r: Result<String, String>)
    requires
        argon2_params_ok(m, t, p),
    ensures
        r matches Ok(rec) ==> starts_with(rec@, argon2id_prefix()) && starts_with(rec@, argon2id_head(m, t, p)),
        r matches Ok(rec) ==> argon2_accepts(pin@, rec@) && argon2_lanes_bounded(rec@),
        r matches Ok(rec) ==> one_line(rec@),
{
    let params = argon2::Params::new(m, t, p, None).map_err(|e| e.to_string())?;
    Argon2::new(Algorithm::Argon2id, Version::V0x13, params)
        .hash_password(pin.as_bytes(), salt)
        .map(|h| h.to_string())
        .map_err(|e| e.to_string())
}

/// Relies on password-hash's `PasswordHash::new` and argon2's
/// `verify_password`: only a PHC string of an Argon2 variant with both a
/// salt and a hash field is accepted.
/// A parallelism above `lanes_limit()` would overflow in argon2's
/// `Params::new`, so such records are not handed over.
#[verifier::external_body]
fn argon2_verify(candidate: &str, stored: &str) -> (r: bool)
    requires
        argon2_lanes_bounded(stored@),
    ensures
        r == argon2_accepts(candidate@, stored@),
        r ==> starts_with(stored@, argon2_prefix()) && has_hash_fields(stored@),
{
    match PasswordHash::new(stored) {
        Ok(ph) => Argon2::default().verify_password(candidate.as_bytes(), &ph).is_ok(),
        Err(_) => false,
    }
}

/// Relies on sha-crypt's `sha512_simple` with the default rounds: the
/// record `$6$<salt>$<hash>`, both in the crypt alphabet, starts with `$6$`,
/// and `sha512_check` reads the salt and rounds back from it.
#[verifier::external_body]
fn sha512_hash(pin: &str) -> (r: Result<String, String>)
    ensures
        r matches Ok(rec) ==> starts_with(rec@, sha512_prefix()),
        r matches Ok(rec) ==> sha512_accepts(pin@, rec@) && one_line(rec@),
{
    sha512_simple(pin, &Sha512Params::default()).map_err(|e| format!("{e:?}"))
}

/// Relies on sha-crypt's `sha512_check`: only a record `$6$[rounds=N$]<salt>$<hash>`
/// is accepted.
#[verifier::external_body]
fn sha512_verify(candidate: &str, stored: &str) -> (r: bool)
    ensures
        r == sha512_accepts(candidate@, stored@),
        r ==> starts_with(stored@, sha512_prefix()) && has_hash_fields(stored@),
{
    sha512_check(candidate, stored).is_ok()
}

/// Whether the digits that follow `start` stay within `max`.
fn run_stays_within(s: &str, n: usize, start: usize, max: u64) -> (r: bool)
    requires
        n == s@.len(),
        start <= n,
        max <= 0xFFFF_FFFF,
    ensures
        r == run_within(s@, start as int, max as nat),
{
    let mut j: usize = start;
    let mut v: u64 = 0;
    assert(s@.subrange(start as int, start as int) =~= Seq::<char>::empty());
    while j < n
        invariant
            start <= j <= n == s@.len(),
            max <= 0xFFFF_FFFF,
            v <= max,
            all_digits(s@.subrange(start as int, j as int)),
            v == digits_value(s@.subrange(start as int, j as int)),
            forall|k: int|
                start <= k <= j && all_digits(#[trigger] s@.subrange(start as int, k))
                    ==> digits_value(s@.subrange(start as int, k)) <= max,
        decreases n - j,
    {
        let c = s.get_char(j);
        if !('0' <= c && c <= '9') {
            assert forall|k: int|
                start <= k <= s@.len() && all_digits(#[trigger] s@.subrange(start as int, k))
                    implies digits_value(s@.subrange(start as int, k)) <= max by {
                if k > j {
                    assert(s@.subrange(start as int, k)[j - start] == c);
                }
            }
            return true;
        }
        let d = (c as u32 - '0' as u32) as u64;
        let ghost prev = s@.subrange(start as int, j as int);
        let ghost next = s@.subrange(start as int, j + 1);
        assert(next.drop_last() =~= prev);
        assert(next.last() == c);
        assert(all_digits(next)) by {
            assert forall|k: int| 0 <= k < next.len() implies is_digit(#[trigger] next[k]) by {
                if k < prev.len() {
                    assert(next[k] == prev[k]);
                }
            }
        }
        let w = v * 10 + d;
        if w > max {
            assert(digits_value(next) == w);
            return false;
        }
        v = w;
        j += 1;
    }
    true
}

/// Whether every `p=` of the record is followed by a parallelism within
/// `lanes_limit()`.
fn lanes_bounded(s: &str) -> (r: bool)
    ensures
        r == argon2_lanes_bounded(s@),
{
    let n = s.unicode_len();
    let mut i: usize = 0;
    while i < n && i + 1 < n
        invariant
            i <= n == s@.len(),
            forall|k: int|
                0 <= k < i && k + 1 < s@.len() && s@[k] == 'p' && #[trigger] s@[k + 1] == '='
                    ==> run_within(s@, k + 2, lanes_limit()),
        decreases n - i,
    {
        if s.get_char(i) == 'p' && s.get_char(i + 1) == '=' {
            if !run_stays_within(s, n, i + 2, 0x1FFF_FFFF) {
                assert(s@[i + 1] == '=');
                return false;
            }
        }
        i += 1;
    }
    true
}

/// Hashes `pin` under `scheme` with a fresh random salt and overwrites
/// the plaintext. The record is one line that checks the PIN it was made
/// from, names its scheme by its prefix, and for Argon2id carries the
/// chosen costs.
pub fn hash_pin(pin: &mut String, scheme: Scheme, cost: Option<Argon2Cost>) -> (r: Result<String, PinHashError>)
    ensures
        final(pin)@.len() == 0,
        r matches Ok(rec) ==> record_accepts(old(pin)@, rec@, scheme),
        r matches Ok(rec) ==> forall|d: Scheme| scheme_of_record(rec@, d) == scheme,
        r matches Ok(rec) ==> one_line(rec@) && trim(rec@) == rec@,
        r matches Ok(rec) ==> match scheme {
            Scheme::Sha512Crypt => starts_with(rec@, sha512_prefix()),
            Scheme::Argon2id => starts_with(
                rec@,
                argon2id_head(chosen_cost(cost).0, chosen_cost(cost).1, chosen_cost(cost).2),
            ),
        },
        r matches Err(e) ==> e is HashFailure,
{
    let out = match scheme {
        Scheme::Sha512Crypt => sha512_hash(pin.as_str()),
        Scheme::Argon2id => {
            let salt = new_salt();
            let defaults = (ARGON2_DEFAULT_M_COST, ARGON2_DEFAULT_T_COST, ARGON2_DEFAULT_P_COST);
            let (m, t, p) = match cost {
                Some(c) => {
                    if c.p_cost <= 0x1FFF_FFFF {
                        match argon2::Params::new(c.m_cost, c.t_cost, c.p_cost, None) {
                            Ok(_) => (c.m_cost, c.t_cost, c.p_cost),
                            Err(_) => defaults,
                        }
                    } else {
                        defaults
                    }
                },
                None => defaults,
            };
            argon2id_hash(pin.as_str(), &salt, m, t, p)
        },
    };
    scrub(pin);
    match out {
        Ok(rec) => {
            proof {
                if scheme == Scheme::Argon2id {
                    assert(rec@.take(3) =~= argon2id_prefix().take(3));
                    assert(!starts_with(rec@, sha512_prefix()));
                    assert(rec@.take(7) =~= argon2id_prefix().take(7));
                    assert(argon2id_prefix().take(7) =~= argon2_prefix());
                }
                let l = rec@.len() as int;
                assert('!' <= rec@[0] && rec@[0] <= '~');
                assert('!' <= rec@[l - 1] && rec@[l - 1] <= '~');
                assert(!is_space(rec@[0]));
                assert(trim_start(rec@) == rec@);
                assert(rec@.last() == rec@[l - 1]);
                assert(trim_end(rec@) == rec@);
            }
            Ok(rec)
        },
        Err(e) => Err(PinHashError::HashFailure(e)),
    }
}

/// Checks `candidate` against the stored record under the scheme its
/// prefix names, else under `default`, and overwrites the candidate.
/// A record that no scheme accepts verifies as false, as does an Argon2
/// record whose parallelism is out of bounds; none raises.
pub fn verify_pin(candidate: &mut String, stored: &str, default: Scheme) -> (r: bool)
    ensures
        r == record_accepts(old(candidate)@, stored@, default),
        r ==> starts_with(stored@, sha512_prefix()) || starts_with(stored@, argon2_prefix()),
        r ==> has_hash_fields(stored@),
        final(candidate)@.len() == 0,
{
    let ok = match scheme_for_record(stored, default) {
        Scheme::Sha512Crypt => sha512_verify(candidate.as_str(), stored),
        Scheme::Argon2id => {
            if lanes_bounded(stored) {
                argon2_verify(candidate.as_str(), stored)
            } else {
                false
            }
        },
    };
    scrub(candidate);
    ok
}

} // verus!

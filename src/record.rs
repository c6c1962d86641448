//! The failure-state record kept per user: its text form, read and
//! written.

use vstd::prelude::*;
use vstd::string::StrSliceExecFns;
use crate::hash::starts_with;
use crate::number::{all_digits, digit_value, digits_value, is_digit, parse_decimal, parse_unsigned, unsigned_body};

verus! {

/// What the failure-state file says of a user.
#[derive(Clone, Copy, Debug, PartialEq, Eq, Structural)]
pub enum FailRecord {
    /// No failures on record.
    Open,
    /// `count` failures since `first_ts`.
    Counting { count: u32, first_ts: u64 },
    /// Locked until the epoch second `until`.
    Locked { until: u64 },
}

/// The characters that `str::trim` removes: those with the Unicode
/// White_Space property.
pub open spec fn is_space(c: char) -> bool {
    c == '\t' || c == '\n' || c == '\x0B' || c == '\x0C' || c == '\r' || c == ' '
        || c == '\u{85}' || c == '\u{A0}' || c == '\u{1680}' || ('\u{2000}' <= c && c
        <= '\u{200A}') || c == '\u{2028}' || c == '\u{2029}' || c == '\u{202F}' || c
        == '\u{205F}' || c == '\u{3000}'
}

pub open spec fn trim_start(s: Seq<char>) -> Seq<char>
    decreases s.len(),
{
    if s.len() > 0 && is_space(s[0]) {
        trim_start(s.drop_first())
    } else {
        s
    }
}

pub open spec fn trim_end(s: Seq<char>) -> Seq<char>
    decreases s.len(),
{
    if s.len() > 0 && is_space(s.last()) {
        trim_end(s.drop_last())
    } else {
        s
    }
}

pub open spec fn trim(s: Seq<char>) -> Seq<char> {
    trim_end(trim_start(s))
}

pub open spec fn colon_free(s: Seq<char>) -> bool {
    forall|i: int| 0 <= i < s.len() ==> s[i] != ':'
}

/// `k` is the position of the first `:` in `s`.
pub open spec fn first_colon_at(s: Seq<char>, k: int) -> bool {
    0 <= k < s.len() && s[k] == ':' && colon_free(s.take(k))
}

pub open spec fn lock_tag() -> Seq<char> {
    seq!['l', 'o', 'c', 'k', ':']
}

/// The record a line of `count:first_ts` text gives.
pub open spec fn counting_from(count: Option<nat>, first_ts: Option<nat>) -> FailRecord {
    match (count, first_ts) {
        (Some(c), Some(t)) => FailRecord::Counting { count: c as u32, first_ts: t as u64 },
        _ => FailRecord::Open,
    }
}

/// The record the text of a failure-state file stands for at time `now`.
/// Surrounding whitespace is ignored; `lock:until_ts` is a lock,
/// `count:first_ts` a count, a bare count is a count since `now`, and
/// anything else is read as no record.
pub open spec fn parse_record(text: Seq<char>, now: u64) -> FailRecord {
    let line = trim(text);
    if starts_with(line, lock_tag()) {
        match parse_unsigned(line.skip(5), u64::MAX as nat) {
            Some(u) => FailRecord::Locked { until: u as u64 },
            None => FailRecord::Open,
        }
    } else if !colon_free(line) {
        let k = choose|k: int| first_colon_at(line, k);
        counting_from(
            parse_unsigned(line.take(k), u32::MAX as nat),
            parse_unsigned(line.skip(k + 1), u64::MAX as nat),
        )
    } else {
        match parse_unsigned(line, u32::MAX as nat) {
            Some(c) => FailRecord::Counting { count: c as u32, first_ts: now },
            None => FailRecord::Open,
        }
    }
}

fn space_char(c: char) -> (r: bool)
    ensures
        r == is_space(c),
{
    c == '\t' || c == '\n' || c == '\x0B' || c == '\x0C' || c == '\r' || c == ' ' || c == '\u{85}'
        || c == '\u{A0}' || c == '\u{1680}' || ('\u{2000}' <= c && c <= '\u{200A}') || c
        == '\u{2028}' || c == '\u{2029}' || c == '\u{202F}' || c == '\u{205F}' || c == '\u{3000}'
}

/// `s` without its leading and trailing whitespace.
pub fn trimmed(s: &str) -> (r: &str)
    ensures
        r@ == trim(s@),
{
    let n = s.unicode_len();
    let mut i: usize = 0;
    assert(s@.subrange(0, n as int) =~= s@);
    while i < n && space_char(s.get_char(i))
        invariant
            i <= n == s@.len(),
            trim_start(s@) == trim_start(s@.subrange(i as int, n as int)),
        decreases n - i,
    {
        assert(s@.subrange(i as int, n as int).drop_first() =~= s@.subrange(i + 1, n as int));
        i += 1;
    }
    let ghost t = s@.subrange(i as int, n as int);
    assert(trim_start(t) == t);
    let mut j: usize = n;
    while j > i && space_char(s.get_char(j - 1))
        invariant
            i <= j <= n == s@.len(),
            t == s@.subrange(i as int, n as int),
            trim_start(s@) == t,
            trim_end(t) == trim_end(s@.subrange(i as int, j as int)),
        decreases j,
    {
        assert(s@.subrange(i as int, j as int).drop_last() =~= s@.subrange(i as int, j - 1));
        j -= 1;
    }
    s.substring_char(i, j)
}

/// Where the first `:` of `s` stands, if any.
fn find_colon(s: &str) -> (r: Option<usize>)
    ensures
        match r {
            Some(k) => first_colon_at(s@, k as int),
            None => colon_free(s@),
        },
{
    let n = s.unicode_len();
    let mut i: usize = 0;
    while i < n
        invariant
            i <= n == s@.len(),
            colon_free(s@.take(i as int)),
        decreases n - i,
    {
        if s.get_char(i) == ':' {
            return Some(i);
        }
        assert(colon_free(s@.take(i + 1))) by {
            assert forall|k: int| 0 <= k < i + 1 implies #[trigger] s@.take(i + 1)[k] != ':' by {
                if k < i {
                    assert(s@.take(i + 1)[k] == s@.take(i as int)[k]);
                }
            }
        }
        i += 1;
    }
    assert(s@.take(n as int) =~= s@);
    None
}

proof fn lemma_first_colon_unique(s: Seq<char>, k: int, j: int)
    requires
        first_colon_at(s, k),
        first_colon_at(s, j),
    ensures
        k == j,
{
    if k < j {
        assert(s.take(j)[k] == ':');
    } else if j < k {
        assert(s.take(k)[j] == ':');
    }
}

/// Reads the text of a failure-state file at time `now`.
pub fn parse_fail_state(text: &str, now: u64) -> (r: FailRecord)
    ensures
        r == parse_record(text@, now),
{
    let line = trimmed(text);
    let n = line.unicode_len();
    let tag = ['l', 'o', 'c', 'k', ':'];
    assert(tag@ =~= lock_tag());
    let mut tagged = n >= 5;
    let mut i: usize = 0;
    while tagged && i < 5
        invariant
            n == line@.len(),
            i <= 5,
            tag@ == lock_tag(),
            tagged ==> n >= 5 && forall|k: int| 0 <= k < i ==> line@[k] == tag@[k],
            !tagged ==> !starts_with(line@, lock_tag()),
        decreases (if tagged { 6 - i } else { 0 }),
    {
        if line.get_char(i) != tag[i] {
            assert(line@.take(5)[i as int] != lock_tag()[i as int]);
            tagged = false;
        } else {
            i += 1;
        }
    }
    if tagged {
        assert(line@.take(5) =~= lock_tag());
        let rest = line.substring_char(5, n);
        assert(rest@ =~= line@.skip(5));
        match parse_decimal(rest, u64::MAX) {
            Some(u) => FailRecord::Locked { until: u },
            None => FailRecord::Open,
        }
    } else {
        match find_colon(line) {
            Some(k) => {
                let head = line.substring_char(0, k);
                let tail = line.substring_char(k + 1, n);
                assert(head@ =~= line@.take(k as int));
                assert(tail@ =~= line@.skip(k + 1));
                proof {
                    let c = choose|c: int| first_colon_at(line@, c);
                    lemma_first_colon_unique(line@, k as int, c);
                }
                let c = parse_decimal(head, u32::MAX as u64);
                let t = parse_decimal(tail, u64::MAX);
                match (c, t) {
                    (Some(cv), Some(tv)) => FailRecord::Counting { count: cv as u32, first_ts: tv },
                    _ => FailRecord::Open,
                }
            },
            None => match parse_decimal(line, u32::MAX as u64) {
                Some(c) => FailRecord::Counting { count: c as u32, first_ts: now },
                None => FailRecord::Open,
            },
        }
    }
}

/// The decimal digits of `n` as ASCII bytes, most significant first.
pub open spec fn decimal_digits(n: nat) -> Seq<u8>
    decreases n,
{
    if n < 10 {
        seq![(n + 48) as u8]
    } else {
        decimal_digits(n / 10).push((n % 10 + 48) as u8)
    }
}

/// The bytes a record is written as: nothing for no record, else one
/// line `count:first_ts` or `lock:until_ts`.
pub open spec fn render_record(rec: FailRecord) -> Seq<u8> {
    match rec {
        FailRecord::Open => Seq::empty(),
        FailRecord::Counting { count, first_ts } => decimal_digits(count as nat) + seq![58u8]
            + decimal_digits(first_ts as nat) + seq![10u8],
        FailRecord::Locked { until } => seq![108u8, 111u8, 99u8, 107u8, 58u8] + decimal_digits(
            until as nat,
        ) + seq![10u8],
    }
}

/// ASCII bytes read as characters.
pub open spec fn ascii_text(b: Seq<u8>) -> Seq<char> {
    b.map_values(|x: u8| x as char)
}

fn push_decimal(out: &mut Vec<u8>, n: u64)
    ensures
        final(out)@ == old(out)@ + decimal_digits(n as nat),
    decreases n,
{
    if n >= 10 {
        push_decimal(out, n / 10);
    }
    let d = (n % 10) as u8 + 48;
    out.push(d);
    assert(final(out)@ =~= old(out)@ + decimal_digits(n as nat));
}

/// The bytes to write for `rec`.
pub fn render_fail_state(rec: FailRecord) -> (r: Vec<u8>)
    ensures
        r@ == render_record(rec),
{
    let mut out: Vec<u8> = Vec::new();
    match rec {
        FailRecord::Open => {},
        FailRecord::Counting { count, first_ts } => {
            push_decimal(&mut out, count as u64);
            out.push(58u8);
            push_decimal(&mut out, first_ts);
            out.push(10u8);
        },
        FailRecord::Locked { until } => {
            out.push(108u8);
            out.push(111u8);
            out.push(99u8);
            out.push(107u8);
            out.push(58u8);
            push_decimal(&mut out, until);
            out.push(10u8);
        },
    }
    assert(out@ =~= render_record(rec));
    out
}

proof fn lemma_digits_read_back(n: nat)
    ensures
        ascii_text(decimal_digits(n)).len() >= 1,
        all_digits(ascii_text(decimal_digits(n))),
        digits_value(ascii_text(decimal_digits(n))) == n,
    decreases n,
{
    let d = ascii_text(decimal_digits(n));
    if n < 10 {
        assert(d.drop_last() =~= Seq::<char>::empty());
        assert(d.last() == ((n + 48) as u8) as char);
        assert((((n + 48) as u8) as char) as u32 == n + 48);
        assert(digits_value(d.drop_last()) == 0);
        assert(digit_value(d.last()) == n);
    } else {
        lemma_digits_read_back(n / 10);
        let e = ascii_text(decimal_digits(n / 10));
        assert(d =~= e.push(((n % 10 + 48) as u8) as char));
        assert(d.drop_last() =~= e);
        assert((((n % 10 + 48) as u8) as char) as u32 == n % 10 + 48);
        assert(digits_value(d) == (n / 10) * 10 + n % 10);
        assert((n / 10) * 10 + n % 10 == n) by (nonlinear_arith);
    }
}

proof fn lemma_digits_parse(n: nat, max: nat)
    requires
        n <= max,
    ensures
        parse_unsigned(ascii_text(decimal_digits(n)), max) == Some(n),
        is_digit(ascii_text(decimal_digits(n))[0]),
{
    lemma_digits_read_back(n);
    let d = ascii_text(decimal_digits(n));
    assert(is_digit(d[0]));
    assert(unsigned_body(d) == d);
}

proof fn lemma_counting_round_trip(count: u32, first_ts: u64, now: u64)
    ensures
        parse_record(ascii_text(render_record((FailRecord::Counting { count, first_ts }))), now)
            == (FailRecord::Counting { count, first_ts }),
{
    let t = ascii_text(render_record(FailRecord::Counting { count, first_ts }));
    lemma_digits_parse(count as nat, u32::MAX as nat);
    lemma_digits_parse(first_ts as nat, u64::MAX as nat);
    let a = ascii_text(decimal_digits(count as nat));
    let b = ascii_text(decimal_digits(first_ts as nat));
    let line = a + seq![':'] + b;
    assert(t =~= line.push('\n'));
    assert(trim_start(t) == t);
    assert(t.drop_last() =~= line);
    assert(line.last() == b.last());
    assert(is_digit(b[b.len() - 1]));
    assert(trim_end(line) == line);
    assert(trim(t) == line);
    assert(line[0] == a[0]);
    if line.len() >= 5 {
        assert(line.take(5)[0] == line[0]);
    }
    assert(!starts_with(line, lock_tag()));
    let k = a.len() as int;
    assert(line.take(k) =~= a);
    assert(first_colon_at(line, k));
    let c = choose|c: int| first_colon_at(line, c);
    lemma_first_colon_unique(line, k, c);
    assert(line.skip(k + 1) =~= b);
}

proof fn lemma_locked_round_trip(until: u64, now: u64)
    ensures
        parse_record(ascii_text(render_record((FailRecord::Locked { until }))), now)
            == (FailRecord::Locked { until }),
{
    let t = ascii_text(render_record(FailRecord::Locked { until }));
    lemma_digits_parse(until as nat, u64::MAX as nat);
    let b = ascii_text(decimal_digits(until as nat));
    let line = lock_tag() + b;
    assert(t =~= line.push('\n'));
    assert(trim_start(t) == t);
    assert(t.drop_last() =~= line);
    assert(line.last() == b.last());
    assert(is_digit(b[b.len() - 1]));
    assert(trim_end(line) == line);
    assert(line.take(5) =~= lock_tag());
    assert(line.skip(5) =~= b);
}

/// What a record is written as reads back as the same record, at any time:
/// so every write leaves a well-formed record, whatever was read before.
pub proof fn lemma_record_round_trip(rec: FailRecord, now: u64)
    ensures
        parse_record(ascii_text(render_record(rec)), now) == rec,
{
    match rec {
        FailRecord::Open => {
            let t = ascii_text(render_record(rec));
            assert(t =~= Seq::<char>::empty());
            assert(trim(t) =~= Seq::<char>::empty());
            assert(parse_unsigned(trim(t), u32::MAX as nat) is None);
        },
        FailRecord::Counting { count, first_ts } => lemma_counting_round_trip(count, first_ts, now),
        FailRecord::Locked { until } => lemma_locked_round_trip(until, now),
    }
}

} // verus!

//! One verification attempt, from what the process has read to its
//! outcome and the new failure state, and what holds over runs of
//! attempts.

use vstd::prelude::*;
use crate::hash::{record_accepts, verify_pin, Scheme};
use crate::input::{candidate_spec, prepare_candidate, PinLengths};
use crate::limiter::{
    conclude_spec, entry_gate, gate_spec, lock_from, record_attempt, saturating_add, standing, Gate,
    LimiterPolicy,
    Outcome, StateWrite, Verdict,
};
use crate::record::{ascii_text, lemma_record_round_trip, parse_fail_state, parse_record, render_record, FailRecord};
use crate::scrub::scrub;

verus! {

/// An attempt on a failure record: the entry check, then a refusal of an
/// ill-formed candidate, or the record of a match or a failure.
pub open spec fn attempt_spec(rec: FailRecord, now: u64, p: LimiterPolicy, well_formed: bool, matched: bool) -> Verdict {
    match gate_spec(rec, now, p) {
        Gate::Stop(v) => v,
        Gate::Proceed { count, first_ts } => if well_formed {
            conclude_spec(count, first_ts, matched, now, p)
        } else {
            Verdict { outcome: Outcome::BadInput, write: StateWrite::Keep }
        },
    }
}

pub open spec fn stored_view(stored: Option<&str>) -> Option<Seq<char>> {
    match stored {
        Some(s) => Some(s@),
        None => None,
    }
}

/// A whole attempt: without a stored record the candidate is refused as a
/// mismatch, and nothing is counted.
pub open spec fn check_spec(
    state: Seq<char>,
    input: Seq<char>,
    stored: Option<Seq<char>>,
    default: Scheme,
    now: u64,
    p: LimiterPolicy,
    lengths: PinLengths,
) -> Verdict {
    match stored {
        None => Verdict { outcome: Outcome::Mismatch, write: StateWrite::Keep },
        Some(s) => {
            let cand = candidate_spec(input, lengths);
            attempt_spec(
                parse_record(state, now),
                now,
                p,
                cand is Some,
                cand matches Some(c) && record_accepts(c, s, default),
            )
        },
    }
}

/// Decides one attempt: `state` is the failure-state file's text, `input`
/// what standard input held, `stored` the user's record if there is one.
/// The input buffer is overwritten on every path.
pub fn check_pin_attempt(
    state: &str,
    input: &mut String,
    stored: Option<&str>,
    default: Scheme,
    now: u64,
    p: LimiterPolicy,
    lengths: PinLengths,
) -> (r: Verdict)
    ensures
        final(input)@.len() == 0,
        r == check_spec(state@, old(input)@, stored_view(stored), default, now, p, lengths),
{
    let s = match stored {
        None => {
            scrub(input);
            return Verdict { outcome: Outcome::Mismatch, write: StateWrite::Keep };
        },
        Some(s) => s,
    };
    let rec = parse_fail_state(state, now);
    match entry_gate(rec, now, p) {
        Gate::Stop(v) => {
            scrub(input);
            v
        },
        Gate::Proceed { count, first_ts } => match prepare_candidate(input, lengths) {
            None => Verdict { outcome: Outcome::BadInput, write: StateWrite::Keep },
            Some(mut candidate) => {
                let matched = verify_pin(&mut candidate, s, default);
                record_attempt(count, first_ts, matched, now, p)
            },
        },
    }
}

/// The failure-state text after an attempt's verdict.
pub open spec fn state_after(state: Seq<char>, v: Verdict) -> Seq<char> {
    match v.write {
        StateWrite::Keep => state,
        StateWrite::Clear => Seq::empty(),
        StateWrite::Put(r) => ascii_text(render_record(r)),
    }
}

/// The failure-state text after well-formed wrong candidates at `times`,
/// in order.
pub open spec fn after_failures(state: Seq<char>, times: Seq<u64>, p: LimiterPolicy) -> Seq<char>
    decreases times.len(),
{
    if times.len() == 0 {
        state
    } else {
        let prev = after_failures(state, times.drop_last(), p);
        let now = times.last();
        state_after(prev, attempt_spec(parse_record(prev, now), now, p, true, false))
    }
}

proof fn lemma_empty_is_open(now: u64)
    ensures
        parse_record(Seq::empty(), now) == FailRecord::Open,
{
    lemma_record_round_trip(FailRecord::Open, now);
    assert(ascii_text(render_record(FailRecord::Open)) =~= Seq::<char>::empty());
}

proof fn lemma_few_failures_counted(p: LimiterPolicy, times: Seq<u64>, now: u64)
    requires
        times.len() < p.threshold,
    ensures
        match parse_record(after_failures(Seq::empty(), times, p), now) {
            FailRecord::Open => true,
            FailRecord::Counting { count, first_ts } => count <= times.len(),
            FailRecord::Locked { until } => false,
        },
    decreases times.len(),
{
    if times.len() == 0 {
        lemma_empty_is_open(now);
    } else {
        let t = times.last();
        lemma_few_failures_counted(p, times.drop_last(), t);
        let prev = after_failures(Seq::empty(), times.drop_last(), p);
        let rec = parse_record(prev, t);
        let (c, f) = standing(rec, t, p);
        assert(c < p.threshold);
        let v = attempt_spec(rec, t, p, true, false);
        assert(v.write == StateWrite::Put(FailRecord::Counting { count: (c + 1) as u32, first_ts: f }));
        lemma_record_round_trip(FailRecord::Counting { count: (c + 1) as u32, first_ts: f }, now);
    }
}

/// Fewer wrong candidates than the threshold, from no record, followed by
/// the right one: the attempt succeeds and the failure state is emptied.
/// (At exactly the threshold the last failure locks the account.)
pub proof fn lemma_recovery_below_threshold(p: LimiterPolicy, times: Seq<u64>, now: u64)
    requires
        times.len() < p.threshold,
    ensures
        attempt_spec(parse_record(after_failures(Seq::empty(), times, p), now), now, p, true, true)
            == (Verdict { outcome: Outcome::Success, write: StateWrite::Clear }),
{
    lemma_few_failures_counted(p, times, now);
}

/// Wrong candidates at non-decreasing `times`, as many as the threshold and
/// all within the window of the first, from no record: the last attempt is
/// refused as locked and leaves the lock, or with no timed lock the full
/// count. With a timed lock, every later attempt before the lock ends is
/// refused as locked, whatever its candidate, and leaves the state as it
/// is (a `Keep`), so the same holds of the attempts after it.
pub proof fn lemma_threshold_failures_lock(p: LimiterPolicy, times: Seq<u64>)
    requires
        times.len() == p.threshold,
        p.threshold >= 1,
        forall|i: int, j: int| 0 <= i <= j < times.len() ==> #[trigger] times[i] <= #[trigger] times[j],
        p.window_secs > 0 ==> forall|i: int| 0 <= i < times.len() ==> #[trigger] times[i] - times[0] <= p.window_secs,
    ensures
        ({
            let prev = after_failures(Seq::empty(), times.drop_last(), p);
            let t = times.last();
            let v = attempt_spec(parse_record(prev, t), t, p, true, false);
            &&& v.outcome == Outcome::Locked
            &&& v.write == StateWrite::Put(
                if p.lockout_secs > 0 {
                    lock_from(t, p)
                } else {
                    FailRecord::Counting { count: p.threshold, first_ts: times[0] }
                },
            )
        }),
        p.lockout_secs > 0 ==> forall|now: u64, well_formed: bool, matched: bool|
            now < saturating_add(times.last(), p.lockout_secs) ==> attempt_spec(
                parse_record(after_failures(Seq::empty(), times, p), now),
                now,
                p,
                well_formed,
                matched,
            ) == (Verdict { outcome: Outcome::Locked, write: StateWrite::Keep }),
{
    let k = (times.len() - 1) as nat;
    lemma_failures_add_up(p, times, k, times.last());
    assert(times.take(k as int) =~= times.drop_last());
    if p.lockout_secs > 0 {
        let t = times.last();
        assert(after_failures(Seq::empty(), times, p) == ascii_text(render_record(lock_from(t, p))));
        assert forall|now: u64, well_formed: bool, matched: bool|
            now < saturating_add(times.last(), p.lockout_secs) implies attempt_spec(
                parse_record(after_failures(Seq::empty(), times, p), now),
                now,
                p,
                well_formed,
                matched,
            ) == (Verdict { outcome: Outcome::Locked, write: StateWrite::Keep }) by {
            lemma_record_round_trip(lock_from(t, p), now);
        }
    }
}

proof fn lemma_failures_add_up(p: LimiterPolicy, times: Seq<u64>, k: nat, now: u64)
    requires
        times.len() == p.threshold,
        k < times.len(),
        forall|i: int, j: int| 0 <= i <= j < times.len() ==> #[trigger] times[i] <= #[trigger] times[j],
        p.window_secs > 0 ==> forall|i: int| 0 <= i < times.len() ==> #[trigger] times[i] - times[0] <= p.window_secs,
    ensures
        k == 0 ==> parse_record(after_failures(Seq::empty(), times.take(k as int), p), now) == FailRecord::Open,
        k > 0 ==> parse_record(after_failures(Seq::empty(), times.take(k as int), p), now) == (
        FailRecord::Counting { count: k as u32, first_ts: times[0] }),
        ({
            let prev = after_failures(Seq::empty(), times.take(k as int), p);
            let t = times[k as int];
            let v = attempt_spec(parse_record(prev, t), t, p, true, false);
            &&& k + 1 < p.threshold ==> v == (Verdict {
                outcome: Outcome::Mismatch,
                write: StateWrite::Put(FailRecord::Counting { count: (k + 1) as u32, first_ts: times[0] }),
            })
            &&& k + 1 == p.threshold ==> v.outcome == Outcome::Locked && v.write == StateWrite::Put(
                if p.lockout_secs > 0 {
                    lock_from(t, p)
                } else {
                    FailRecord::Counting { count: p.threshold, first_ts: times[0] }
                },
            )
        }),
    decreases k,
{
    let prev = after_failures(Seq::empty(), times.take(k as int), p);
    if k == 0 {
        assert(times.take(0) =~= Seq::<u64>::empty());
        lemma_empty_is_open(now);
        lemma_empty_is_open(times[0]);
    } else {
        let k1 = (k - 1) as nat;
        lemma_failures_add_up(p, times, k1, now);
        lemma_failures_add_up(p, times, k1, times[k1 as int]);
        assert(times.take(k as int).drop_last() =~= times.take(k1 as int));
        assert(times.take(k as int).last() == times[k1 as int]);
        lemma_record_round_trip(FailRecord::Counting { count: k as u32, first_ts: times[0] }, now);
        lemma_record_round_trip(FailRecord::Counting { count: k as u32, first_ts: times[0] }, times[k as int]);
        assert(times[0] <= times[k as int]);
    }
}

/// A lock still running refuses every attempt, whatever the candidate, and
/// leaves the failure state as it was: so every later attempt before
/// `until` is refused too.
pub proof fn lemma_lock_holds(p: LimiterPolicy, state: Seq<char>, until: u64, now: u64, well_formed: bool, matched: bool)
    requires
        parse_record(state, now) == (FailRecord::Locked { until }),
        now < until,
    ensures
        attempt_spec(parse_record(state, now), now, p, well_formed, matched) == (Verdict {
            outcome: Outcome::Locked,
            write: StateWrite::Keep,
        }),
        state_after(state, attempt_spec(parse_record(state, now), now, p, well_formed, matched)) == state,
{
}

/// A single failure from no record at `now1` no longer counts at `now2`
/// once more than the window has passed.
pub proof fn lemma_window_expiry(p: LimiterPolicy, now1: u64, now2: u64)
    requires
        now1 < now2,
        p.window_secs > 0,
        now2 - now1 > p.window_secs,
        p.threshold >= 2,
    ensures
        standing(parse_record(after_failures(Seq::empty(), seq![now1], p), now2), now2, p) == (0u32, now2),
{
    let times = seq![now1];
    assert(times.drop_last() =~= Seq::<u64>::empty());
    assert(after_failures(Seq::empty(), times.drop_last(), p) == Seq::<char>::empty());
    lemma_empty_is_open(now1);
    let v = attempt_spec(FailRecord::Open, now1, p, true, false);
    assert(v.write == StateWrite::Put(FailRecord::Counting { count: 1, first_ts: now1 }));
    assert(after_failures(Seq::empty(), times, p) == ascii_text(
        render_record(FailRecord::Counting { count: 1, first_ts: now1 }),
    ));
    lemma_record_round_trip(FailRecord::Counting { count: 1, first_ts: now1 }, now2);
}

/// With no timed lock, a count at the threshold refuses every attempt at
/// any time, whatever the window, and is left as it is.
pub proof fn lemma_untimed_lock_stays(p: LimiterPolicy, count: u32, first_ts: u64, now: u64, well_formed: bool, matched: bool)
    requires
        p.lockout_secs == 0,
        count >= p.threshold,
    ensures
        attempt_spec(FailRecord::Counting { count, first_ts }, now, p, well_formed, matched) == (Verdict {
            outcome: Outcome::Locked,
            write: StateWrite::Keep,
        }),
{
}

/// With no window, failures are never forgotten: a count below the
/// threshold stands at any time, and a failure adds one to it.
pub proof fn lemma_no_window_accumulates(p: LimiterPolicy, count: u32, first_ts: u64, now: u64)
    requires
        p.window_secs == 0,
        count < p.threshold,
    ensures
        gate_spec(FailRecord::Counting { count, first_ts }, now, p) == (Gate::Proceed { count, first_ts }),
        count + 1 < p.threshold ==> attempt_spec(FailRecord::Counting { count, first_ts }, now, p, true, false).write
            == StateWrite::Put(FailRecord::Counting { count: (count + 1) as u32, first_ts }),
{
}

} // verus!

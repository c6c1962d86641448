//! The rate limiter: what an attempt finds on entry and what it leaves
//! behind, by the failure-state record, the time and the policy.

use vstd::prelude::*;
use crate::record::FailRecord;

verus! {

/// The lockout policy.
#[derive(Clone, Copy, Debug, PartialEq, Eq, Structural)]
pub struct LimiterPolicy {
    /// Failures at which the account becomes locked.
    pub threshold: u32,
    /// How long a timed lock lasts; 0 keeps rejecting past the threshold
    /// without a timed lock.
    pub lockout_secs: u64,
    /// The interval over which failures add up; 0 means without end.
    pub window_secs: u64,
}

impl LimiterPolicy {
    /// Threshold 5, lockout 300 s, window 900 s.
    pub fn standard() -> (r: LimiterPolicy)
        ensures
            r.threshold == 5 && r.lockout_secs == 300 && r.window_secs == 900,
    {
        LimiterPolicy { threshold: 5, lockout_secs: 300, window_secs: 900 }
    }
}

/// How an attempt ends; each has its exit code.
#[derive(Clone, Copy, Debug, PartialEq, Eq, Structural)]
pub enum Outcome {
    Success,
    Mismatch,
    Locked,
    BadInput,
    Config,
}

pub open spec fn exit_code(o: Outcome) -> i32 {
    match o {
        Outcome::Success => 0,
        Outcome::Mismatch => 1,
        Outcome::Locked => 2,
        Outcome::BadInput => 3,
        Outcome::Config => 4,
    }
}

impl Outcome {
    /// The process exit code of the outcome.
    pub fn code(&self) -> (r: i32)
        ensures
            r == exit_code(*self),
    {
        match self {
            Outcome::Success => 0,
            Outcome::Mismatch => 1,
            Outcome::Locked => 2,
            Outcome::BadInput => 3,
            Outcome::Config => 4,
        }
    }
}

/// What becomes of the failure-state file.
#[derive(Clone, Copy, Debug, PartialEq, Eq, Structural)]
pub enum StateWrite {
    /// Left as it is.
    Keep,
    /// Emptied.
    Clear,
    /// Replaced by this record.
    Put(FailRecord),
}

/// The outcome of an attempt and what it leaves in the failure-state file.
#[derive(Clone, Copy, Debug, PartialEq, Eq, Structural)]
pub struct Verdict {
    pub outcome: Outcome,
    pub write: StateWrite,
}

/// What the entry check decides.
#[derive(Clone, Copy, Debug, PartialEq, Eq, Structural)]
pub enum Gate {
    /// The attempt ends here.
    Stop(Verdict),
    /// The candidate is checked; `count` failures since `first_ts` stand.
    Proceed { count: u32, first_ts: u64 },
}

pub open spec fn saturating_add(a: u64, b: u64) -> u64 {
    if a + b > u64::MAX {
        u64::MAX
    } else {
        (a + b) as u64
    }
}

/// Seconds from `first` to `now`; none when the clock went back.
pub open spec fn elapsed(now: u64, first: u64) -> nat {
    if now >= first {
        (now - first) as nat
    } else {
        0
    }
}

/// The lock that a failure at `now` sets.
pub open spec fn lock_from(now: u64, p: LimiterPolicy) -> FailRecord {
    FailRecord::Locked { until: saturating_add(now, p.lockout_secs) }
}

/// The failures that stand at `now`: none after an expired lock or no
/// record, none once the window has passed.
pub open spec fn standing(rec: FailRecord, now: u64, p: LimiterPolicy) -> (u32, u64) {
    let (c, f) = match rec {
        FailRecord::Counting { count, first_ts } => (count, first_ts),
        _ => (0u32, now),
    };
    if p.window_secs > 0 && elapsed(now, f) > p.window_secs {
        (0u32, now)
    } else {
        (c, f)
    }
}

/// A count at the threshold when there is no timed lock: the account stays
/// locked, whatever time has passed, until the record is removed.
pub open spec fn untimed_lock(rec: FailRecord, p: LimiterPolicy) -> bool {
    p.lockout_secs == 0 && (rec matches FailRecord::Counting { count, first_ts } && count >= p.threshold)
}

/// The entry check: a lock still running stops the attempt, as does a
/// count at the threshold without a timed lock, and standing failures at
/// the threshold, which set a timed lock when there is one.
pub open spec fn gate_spec(rec: FailRecord, now: u64, p: LimiterPolicy) -> Gate {
    if (rec matches FailRecord::Locked { until } && now < until) || untimed_lock(rec, p) {
        Gate::Stop(Verdict { outcome: Outcome::Locked, write: StateWrite::Keep })
    } else {
        let (c, f) = standing(rec, now, p);
        if c >= p.threshold {
            Gate::Stop(
                Verdict {
                    outcome: Outcome::Locked,
                    write: if p.lockout_secs > 0 {
                        StateWrite::Put(lock_from(now, p))
                    } else {
                        StateWrite::Keep
                    },
                },
            )
        } else {
            Gate::Proceed { count: c, first_ts: f }
        }
    }
}

/// After the check: a match clears the record; a failure adds one, and
/// at the threshold locks.
pub open spec fn conclude_spec(count: u32, first_ts: u64, matched: bool, now: u64, p: LimiterPolicy) -> Verdict {
    if matched {
        Verdict { outcome: Outcome::Success, write: StateWrite::Clear }
    } else {
        let c = (count + 1) as u32;
        let counted = FailRecord::Counting { count: c, first_ts };
        if c >= p.threshold {
            Verdict {
                outcome: Outcome::Locked,
                write: StateWrite::Put(if p.lockout_secs > 0 { lock_from(now, p) } else { counted }),
            }
        } else {
            Verdict { outcome: Outcome::Mismatch, write: StateWrite::Put(counted) }
        }
    }
}

/// The entry check of an attempt at `now`.
pub fn entry_gate(rec: FailRecord, now: u64, p: LimiterPolicy) -> (r: Gate)
    ensures
        r == gate_spec(rec, now, p),
        r matches Gate::Proceed { count, first_ts } ==> count < p.threshold,
{
    match rec {
        FailRecord::Locked { until } => {
            if now < until {
                return Gate::Stop(Verdict { outcome: Outcome::Locked, write: StateWrite::Keep });
            }
        },
        FailRecord::Counting { count, first_ts: _ } => {
            if p.lockout_secs == 0 && count >= p.threshold {
                return Gate::Stop(Verdict { outcome: Outcome::Locked, write: StateWrite::Keep });
            }
        },
        FailRecord::Open => {},
    }
    let (mut c, mut f) = match rec {
        FailRecord::Counting { count, first_ts } => (count, first_ts),
        _ => (0u32, now),
    };
    let since = if now >= f { now - f } else { 0 };
    if p.window_secs > 0 && since > p.window_secs {
        c = 0;
        f = now;
    }
    if c >= p.threshold {
        let write = if p.lockout_secs > 0 {
            let until = now.saturating_add(p.lockout_secs);
            StateWrite::Put(FailRecord::Locked { until })
        } else {
            StateWrite::Keep
        };
        Gate::Stop(Verdict { outcome: Outcome::Locked, write })
    } else {
        Gate::Proceed { count: c, first_ts: f }
    }
}

/// What an attempt that got past the entry check leaves behind.
pub fn record_attempt(count: u32, first_ts: u64, matched: bool, now: u64, p: LimiterPolicy) -> (r: Verdict)
    requires
        count < p.threshold,
    ensures
        r == conclude_spec(count, first_ts, matched, now, p),
{
    if matched {
        return Verdict { outcome: Outcome::Success, write: StateWrite::Clear };
    }
    let c = count + 1;
    if c >= p.threshold {
        let rec = if p.lockout_secs > 0 {
            FailRecord::Locked { until: now.saturating_add(p.lockout_secs) }
        } else {
            FailRecord::Counting { count: c, first_ts }
        };
        Verdict { outcome: Outcome::Locked, write: StateWrite::Put(rec) }
    } else {
        Verdict { outcome: Outcome::Mismatch, write: StateWrite::Put(FailRecord::Counting { count: c, first_ts }) }
    }
}

/// Whether a failure with `count` standing is logged when one in `sample`
/// failures is: the first, the one at the threshold, and every
/// `sample`-th (every one when `sample` is 0 or 1).
pub fn failure_logged(count: u32, threshold: u32, sample: u32) -> (r: bool)
    ensures
        r == (count == 1 || count == threshold || sample <= 1 || count % sample == 0),
{
    count == 1 || count == threshold || sample <= 1 || count % sample == 0
}

} // verus!

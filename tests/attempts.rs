use pin_auth::attempt::check_pin_attempt;
use pin_auth::hash::{hash_pin, Scheme};
use pin_auth::input::PinLengths;
use pin_auth::limiter::{
    entry_gate, failure_logged, record_attempt, Gate, LimiterPolicy, Outcome, StateWrite, Verdict,
};
use pin_auth::record::{render_fail_state, FailRecord};

/// The failure-state file of one user, held in memory.
struct Store {
    secret: Option<String>,
    fail: Option<String>,
}

impl Store {
    fn provision(pin: &str) -> Store {
        let mut p = String::from(pin);
        let rec = hash_pin(&mut p, Scheme::Sha512Crypt, None).unwrap();
        Store { secret: Some(rec), fail: None }
    }

    fn verify(&mut self, input: &str, now: u64, p: LimiterPolicy) -> i32 {
        let mut buf = String::from(input);
        let state = self.fail.clone().unwrap_or_default();
        let v = check_pin_attempt(
            &state,
            &mut buf,
            self.secret.as_deref(),
            Scheme::Sha512Crypt,
            now,
            p,
            PinLengths::standard(),
        );
        assert!(buf.is_empty());
        match v.write {
            StateWrite::Keep => {}
            StateWrite::Clear => self.fail = None,
            StateWrite::Put(r) => self.fail = Some(String::from_utf8(render_fail_state(r)).unwrap()),
        }
        v.outcome.code()
    }
}

fn policy(threshold: u32, lockout: u64, window: u64) -> LimiterPolicy {
    LimiterPolicy { threshold, lockout_secs: lockout, window_secs: window }
}

#[test]
fn end_to_end_pin_dir() {
    let mut s = Store::provision("2468");
    let p = LimiterPolicy::standard();
    assert_eq!(s.verify("2468\n", 1000, p), 0);
    assert!(s.fail.is_none());
    let p3 = policy(3, 300, 900);
    assert_eq!(s.verify("0000\n", 1001, p3), 1);
    assert_eq!(s.verify("0000\n", 1002, p3), 1);
    assert_eq!(s.verify("0000\n", 1003, p3), 2);
    assert_eq!(s.verify("2468\n", 1004, p3), 2);
}

#[test]
fn timed_lockout_expires() {
    let mut s = Store::provision("1111");
    let p = policy(2, 2, 900);
    assert_eq!(s.verify("0000\n", 100, p), 1);
    assert_eq!(s.verify("0000\n", 100, p), 2);
    assert_eq!(s.verify("1111\n", 100, p), 2);
    assert_eq!(s.verify("1111\n", 103, p), 0);
    assert!(s.fail.is_none());
}

#[test]
fn length_and_count_scenario() {
    let mut s = Store::provision("12345");
    let p = LimiterPolicy::standard();
    assert_eq!(s.verify("1234\n", 10, p), 1);
    assert_eq!(s.fail.as_deref(), Some("1:10\n"));
    assert_eq!(s.verify("123\n", 11, p), 3);
    assert_eq!(s.verify("1234567\n", 12, p), 3);
    assert_eq!(s.fail.as_deref(), Some("1:10\n"));
}

#[test]
fn corrupt_state_is_open() {
    let mut s = Store::provision("9999");
    s.fail = Some(String::from("garbage"));
    assert_eq!(s.verify("9999\n", 10, LimiterPolicy::standard()), 0);
    assert!(s.fail.is_none());
}

#[test]
fn corrupt_state_rewritten_well_formed() {
    let mut s = Store::provision("9999");
    s.fail = Some(String::from("garbage"));
    assert_eq!(s.verify("0000\n", 10, LimiterPolicy::standard()), 1);
    assert_eq!(s.fail.as_deref(), Some("1:10\n"));
}

#[test]
fn bad_input_not_counted() {
    let mut s = Store::provision("4321");
    let p = LimiterPolicy::standard();
    for input in ["", "\n", "123\n", "1234567\n", "12a4\n", "12 34\n", "１２３４\n"] {
        assert_eq!(s.verify(input, 5, p), 3, "{input:?}");
        assert!(s.fail.is_none());
    }
}

#[test]
fn only_one_newline_is_stripped() {
    let mut s = Store::provision("4321");
    assert_eq!(s.verify("4321\n\n", 5, LimiterPolicy::standard()), 3);
    assert_eq!(s.verify("4321", 5, LimiterPolicy::standard()), 0);
}

#[test]
fn missing_secret_is_mismatch_and_uncounted() {
    let mut s = Store { secret: None, fail: None };
    assert_eq!(s.verify("1234\n", 5, LimiterPolicy::standard()), 1);
    assert!(s.fail.is_none());
}

#[test]
fn recovery_after_failures_below_threshold() {
    let mut s = Store::provision("2580");
    let p = policy(5, 300, 900);
    for t in 0..4 {
        assert_eq!(s.verify("0000\n", 100 + t, p), 1);
    }
    assert_eq!(s.verify("2580\n", 110, p), 0);
    assert!(s.fail.is_none());
}

#[test]
fn locked_within_lockout_regardless_of_candidate() {
    let mut s = Store::provision("2580");
    let p = policy(3, 60, 900);
    for t in 0..3 {
        s.verify("0000\n", 100 + t, p);
    }
    assert_eq!(s.fail.as_deref(), Some("lock:162\n"));
    for t in [102, 130, 161] {
        assert_eq!(s.verify("2580\n", t, p), 2);
        assert_eq!(s.verify("0000\n", t, p), 2);
        assert_eq!(s.verify("12\n", t, p), 2);
    }
    assert_eq!(s.verify("2580\n", 162, p), 0);
}

#[test]
fn failure_outside_window_forgotten() {
    let mut s = Store::provision("2580");
    let p = policy(2, 300, 10);
    assert_eq!(s.verify("0000\n", 100, p), 1);
    assert_eq!(s.verify("0000\n", 111, p), 1);
    assert_eq!(s.fail.as_deref(), Some("1:111\n"));
}

#[test]
fn untimed_lock_stays() {
    let mut s = Store::provision("2580");
    let p = policy(2, 0, 0);
    assert_eq!(s.verify("0000\n", 100, p), 1);
    assert_eq!(s.verify("0000\n", 101, p), 2);
    assert_eq!(s.fail.as_deref(), Some("2:100\n"));
    assert_eq!(s.verify("2580\n", 100_000_000, p), 2);
    assert_eq!(s.fail.as_deref(), Some("2:100\n"));
}

#[test]
fn no_window_accumulates() {
    let mut s = Store::provision("2580");
    let p = policy(10, 300, 0);
    assert_eq!(s.verify("0000\n", 100, p), 1);
    assert_eq!(s.verify("0000\n", 1_000_000, p), 1);
    assert_eq!(s.fail.as_deref(), Some("2:100\n"));
}

#[test]
fn clock_going_back_is_no_expiry() {
    let p = policy(3, 300, 10);
    let g = entry_gate(FailRecord::Counting { count: 2, first_ts: 500 }, 100, p);
    assert_eq!(g, Gate::Proceed { count: 2, first_ts: 500 });
}

#[test]
fn entry_gate_cases() {
    let p = policy(3, 300, 900);
    let locked = Verdict { outcome: Outcome::Locked, write: StateWrite::Keep };
    assert_eq!(entry_gate(FailRecord::Locked { until: 200 }, 199, p), Gate::Stop(locked));
    assert_eq!(entry_gate(FailRecord::Locked { until: 200 }, 200, p), Gate::Proceed { count: 0, first_ts: 200 });
    assert_eq!(entry_gate(FailRecord::Open, 7, p), Gate::Proceed { count: 0, first_ts: 7 });
    assert_eq!(
        entry_gate(FailRecord::Counting { count: 3, first_ts: 10 }, 20, p),
        Gate::Stop(Verdict { outcome: Outcome::Locked, write: StateWrite::Put(FailRecord::Locked { until: 320 }) })
    );
    assert_eq!(
        entry_gate(FailRecord::Counting { count: 3, first_ts: 10 }, 20, policy(3, 0, 900)),
        Gate::Stop(locked)
    );
    assert_eq!(
        entry_gate(FailRecord::Counting { count: 1, first_ts: u64::MAX - 1 }, u64::MAX, policy(3, 300, 900)),
        Gate::Proceed { count: 1, first_ts: u64::MAX - 1 }
    );
}

#[test]
fn record_attempt_cases() {
    let p = policy(3, 300, 900);
    assert_eq!(
        record_attempt(2, 10, true, 20, p),
        Verdict { outcome: Outcome::Success, write: StateWrite::Clear }
    );
    assert_eq!(
        record_attempt(1, 10, false, 20, p),
        Verdict { outcome: Outcome::Mismatch, write: StateWrite::Put(FailRecord::Counting { count: 2, first_ts: 10 }) }
    );
    assert_eq!(
        record_attempt(2, 10, false, u64::MAX - 5, p),
        Verdict { outcome: Outcome::Locked, write: StateWrite::Put(FailRecord::Locked { until: u64::MAX }) }
    );
    assert_eq!(
        record_attempt(2, 10, false, 20, policy(3, 0, 900)),
        Verdict { outcome: Outcome::Locked, write: StateWrite::Put(FailRecord::Counting { count: 3, first_ts: 10 }) }
    );
}

#[test]
fn outcome_codes() {
    assert_eq!(Outcome::Success.code(), 0);
    assert_eq!(Outcome::Mismatch.code(), 1);
    assert_eq!(Outcome::Locked.code(), 2);
    assert_eq!(Outcome::BadInput.code(), 3);
    assert_eq!(Outcome::Config.code(), 4);
}

#[test]
fn untimed_lock_outlasts_the_window() {
    let mut s = Store::provision("2580");
    let p = policy(2, 0, 10);
    assert_eq!(s.verify("0000\n", 100, p), 1);
    assert_eq!(s.verify("0000\n", 101, p), 2);
    assert_eq!(s.fail.as_deref(), Some("2:100\n"));
    assert_eq!(s.verify("2580\n", 1_000_000, p), 2);
    assert_eq!(s.fail.as_deref(), Some("2:100\n"));
    let locked = Verdict { outcome: Outcome::Locked, write: StateWrite::Keep };
    assert_eq!(entry_gate(FailRecord::Counting { count: 5, first_ts: 0 }, 999_999, p), Gate::Stop(locked));
}

#[test]
fn failure_sampling() {
    assert!(failure_logged(1, 5, 3));
    assert!(failure_logged(5, 5, 3));
    assert!(failure_logged(3, 5, 3));
    assert!(!failure_logged(2, 5, 3));
    assert!(!failure_logged(4, 5, 3));
    assert!(failure_logged(4, 5, 1));
    assert!(failure_logged(4, 5, 0));
}

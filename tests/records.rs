use pin_auth::number::{parse_decimal, value_or};
use pin_auth::record::{parse_fail_state, render_fail_state, trimmed, FailRecord};

#[test]
fn decimal_parsing() {
    assert_eq!(parse_decimal("0", u64::MAX), Some(0));
    assert_eq!(parse_decimal("+42", u64::MAX), Some(42));
    assert_eq!(parse_decimal("+", u64::MAX), None);
    assert_eq!(parse_decimal("", u64::MAX), None);
    assert_eq!(parse_decimal("-1", u64::MAX), None);
    assert_eq!(parse_decimal("12a", u64::MAX), None);
    assert_eq!(parse_decimal("18446744073709551615", u64::MAX), Some(u64::MAX));
    assert_eq!(parse_decimal("18446744073709551616", u64::MAX), None);
    assert_eq!(parse_decimal("4294967295", u32::MAX as u64), Some(4294967295));
    assert_eq!(parse_decimal("4294967296", u32::MAX as u64), None);
}

#[test]
fn configured_values() {
    assert_eq!(value_or(None, u32::MAX as u64, 5), 5);
    assert_eq!(value_or(Some("3"), u32::MAX as u64, 5), 3);
    assert_eq!(value_or(Some("three"), u32::MAX as u64, 5), 5);
    assert_eq!(value_or(Some(""), u64::MAX, 900), 900);
}

#[test]
fn trimming_whitespace() {
    assert_eq!(trimmed("  2:100\n"), "2:100");
    assert_eq!(trimmed("\u{3000}x\u{a0}"), "x");
    assert_eq!(trimmed(" \t\n"), "");
}

#[test]
fn parse_record_forms() {
    assert_eq!(parse_fail_state("2:1700000000\n", 5), FailRecord::Counting { count: 2, first_ts: 1700000000 });
    assert_eq!(parse_fail_state("lock:1700000300", 5), FailRecord::Locked { until: 1700000300 });
    assert_eq!(parse_fail_state("3", 77), FailRecord::Counting { count: 3, first_ts: 77 });
    assert_eq!(parse_fail_state("", 5), FailRecord::Open);
    assert_eq!(parse_fail_state("garbage", 5), FailRecord::Open);
    assert_eq!(parse_fail_state("lock:soon", 5), FailRecord::Open);
    assert_eq!(parse_fail_state("1:2:3", 5), FailRecord::Open);
    assert_eq!(parse_fail_state("4294967296:1", 5), FailRecord::Open);
}

#[test]
fn render_record_forms() {
    assert_eq!(render_fail_state(FailRecord::Open), b"".to_vec());
    assert_eq!(render_fail_state(FailRecord::Counting { count: 2, first_ts: 1700000000 }), b"2:1700000000\n".to_vec());
    assert_eq!(render_fail_state(FailRecord::Locked { until: 0 }), b"lock:0\n".to_vec());
}

#[test]
fn record_round_trip_on_values() {
    for rec in [
        FailRecord::Open,
        FailRecord::Counting { count: 0, first_ts: 0 },
        FailRecord::Counting { count: u32::MAX, first_ts: u64::MAX },
        FailRecord::Locked { until: 1234567890 },
    ] {
        let text = String::from_utf8(render_fail_state(rec)).unwrap();
        assert_eq!(parse_fail_state(&text, 99), rec);
    }
}

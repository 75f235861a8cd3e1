use std::time::Duration;

use failover_proxy::clock::{epoch_millis, now_millis, uptime_seconds};
use failover_proxy::credentials::{
    load_credentials, Credentials, CredentialsError, CredentialsRead, OAuthCredential,
};
use failover_proxy::metrics::Metrics;
use failover_proxy::rate::Rate;
use failover_proxy::table::Table;
use failover_proxy::text::{
    characters, cut_at, eq_ignore_ascii_case, same, split, starts_with, strip_prefix, trim_end,
};

#[test]
fn rates_compare_as_doubles() {
    let samples = [
        0.0f64,
        -0.0,
        1.0,
        -1.0,
        0.5,
        0.25,
        1.5,
        -3.25,
        f64::MIN_POSITIVE,
        5e-324,
        -5e-324,
        f64::MAX,
        f64::MIN,
        f64::INFINITY,
        f64::NEG_INFINITY,
        f64::NAN,
        0.9999999999999999,
    ];
    for a in samples {
        assert_eq!(Rate { bits: a.to_bits() }.clamp().bits, a.clamp(0.0, 1.0).to_bits());
        for b in samples {
            assert_eq!(Rate { bits: b.to_bits() }.fires(a.to_bits()), a < b);
        }
    }
}

#[test]
fn certain_rules_fire_and_impossible_ones_do_not() {
    for k in [0u64, 1, 1 << 52, (1 << 53) - 1] {
        let draw = (k as f64 / (1u64 << 53) as f64).to_bits();
        assert!(Rate { bits: 1.0f64.to_bits() }.fires(draw));
        assert!(!Rate { bits: 0.0f64.to_bits() }.fires(draw));
    }
}

#[test]
fn strings_split_at_every_dot() {
    assert_eq!(split("a.bc..d", '.'), vec!["a", "bc", "", "d"]);
    assert_eq!(split("", '.'), vec![""]);
    assert_eq!(split(".", '.'), vec!["", ""]);
    assert_eq!(split("\u{e9}t\u{e9}.x", '.'), vec!["\u{e9}t\u{e9}", "x"]);
}

#[test]
fn strings_trim_and_strip() {
    assert_eq!(trim_end("https://a//", '/'), "https://a");
    assert_eq!(trim_end("a/b", '/'), "a/b");
    assert_eq!(trim_end("//", '/'), "");
    assert!(starts_with("/v1/x", "/v1"));
    assert!(!starts_with("/v", "/v1"));
    assert!(starts_with("x", ""));
    assert_eq!(strip_prefix("$REF:a.b", "$REF:"), Some("a.b".to_string()));
    assert_eq!(strip_prefix("REF:a", "$REF:"), None);
    assert!(same("a", "a"));
    assert!(!same("a", "b"));
    assert_eq!(characters("a\u{e9}"), vec!['a', '\u{e9}']);
}

#[test]
fn case_is_ignored_for_ascii_only() {
    assert!(eq_ignore_ascii_case("Transfer-Encoding", "transfer-encoding"));
    assert!(!eq_ignore_ascii_case("host", "hosts"));
    assert!(!eq_ignore_ascii_case("\u{c9}", "\u{e9}"));
    assert!(!eq_ignore_ascii_case("[", "{"));
}

#[test]
fn tables_hold_the_last_value_of_a_name() {
    let mut t: Table<u64> = Table::new();
    assert!(t.is_empty());
    t.insert("a".to_string(), 1);
    t.insert("b".to_string(), 2);
    t.insert("a".to_string(), 3);
    assert_eq!(t.get("a"), Some(&3));
    assert_eq!(t.entries().len(), 2);
    assert_eq!(t.remove("a"), Some(3));
    assert_eq!(t.remove("a"), None);
    assert!(!t.contains("a"));
    assert!(t.contains("b"));
    assert!(!t.is_empty());
}

#[test]
fn tokens_expire_and_stay_expired() {
    let token = |expires_at: u64| OAuthCredential {
        access_token: "t".to_string(),
        refresh_token: "r".to_string(),
        expires_at,
    };
    assert!(!token(10).is_expired_at(9));
    assert!(token(10).is_expired_at(10));
    assert!(token(10).is_expired_at(11));
    assert!(token(0).is_expired());
    assert!(token(1).is_expired());
    assert!(!token(u64::MAX).is_expired());
}

#[test]
fn clocks_before_the_epoch_read_zero() {
    assert_eq!(epoch_millis(None), 0);
    assert_eq!(epoch_millis(Some(5)), 5);
    assert_eq!(epoch_millis(Some((1u128 << 64) + 7)), 7);
    assert!(now_millis() > 1_600_000_000_000);
}

#[test]
fn credentials_load_or_say_why_not() {
    let parsed = CredentialsRead::Parsed(Credentials {
        claude_ai_oauth: OAuthCredential {
            access_token: "t".to_string(),
            refresh_token: "r".to_string(),
            expires_at: 7,
        },
    });
    let c = load_credentials("/c", parsed).ok().unwrap();
    assert_eq!((c.access_token.as_str(), c.expires_at), ("t", 7));
    let e = load_credentials("/c", CredentialsRead::Unreadable).err().unwrap();
    assert!(matches!(e, CredentialsError::Reading { .. }));
    assert_eq!(e.message(), "reading credentials from /c");
    let e = load_credentials("/c", CredentialsRead::Malformed).err().unwrap();
    assert!(matches!(e, CredentialsError::Parsing));
    assert_eq!(e.message(), "parsing credentials JSON");
}

#[test]
fn metrics_count_known_backends() {
    let mut m = Metrics::new(&["a".to_string(), "b".to_string(), "a".to_string()]);
    m.inc_requests("a");
    m.inc_requests("a");
    m.inc_requests("zzz");
    m.inc_failovers();
    m.inc_faults();
    m.inc_faults();
    m.set_last_status("b", 503);
    m.set_last_status("zzz", 1);
    let s = m.snapshot();
    assert_eq!(s.requests.get("a"), Some(&2));
    assert_eq!(s.requests.get("b"), Some(&0));
    assert_eq!(s.requests.get("zzz"), None);
    assert_eq!(s.failovers, 1);
    assert_eq!(s.faults_injected, 2);
    assert_eq!(s.last_status.get("a"), Some(&0));
    assert_eq!(s.last_status.get("b"), Some(&503));
    assert_eq!(s.last_status.entries().len(), 2);
    assert!(s.uptime_seconds < 20);
    let later = m.start_time + Duration::from_millis(42_999);
    assert_eq!(m.snapshot_at(&later).uptime_seconds, 42);
    assert_eq!(m.snapshot_at(&m.start_time).uptime_seconds, 0);
}

#[test]
fn counters_start_over() {
    let mut m = Metrics::new(&[]);
    m.failovers = u64::MAX;
    m.inc_failovers();
    assert_eq!(m.snapshot().failovers, 0);
}

#[test]
fn uptime_does_not_go_down() {
    let mut m = Metrics::new(&["a".to_string()]);
    m.inc_requests("a");
    let first = m.snapshot();
    let second = m.snapshot();
    assert!(first.uptime_seconds <= second.uptime_seconds);
    assert_eq!(first.requests.get("a"), second.requests.get("a"));
    let start = m.start_time + Duration::from_secs(5);
    assert_eq!(uptime_seconds(&start, &m.start_time), 0);
    assert_eq!(uptime_seconds(&m.start_time, &start), 5);
}

#[test]
fn queries_are_cut_off() {
    assert_eq!(cut_at("/v1?x=1?y", '?'), "/v1");
    assert_eq!(cut_at("/v1", '?'), "/v1");
    assert_eq!(cut_at("?x", '?'), "");
    assert_eq!(cut_at("", '?'), "");
}

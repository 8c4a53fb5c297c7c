use axum::http::{HeaderMap, HeaderValue};
use llm_free_gateway_v2::rate_limit::{
    choose_address, client_texts, extract_client_ip, ClientIp, RateLimiter, SWEEP_ABOVE, WINDOW_NANOS,
};

fn ip(a: u8) -> ClientIp {
    ClientIp::V4(0x7f00_0000 + a as u32)
}

fn seconds(n: u64) -> u64 {
    n * 1_000_000_000
}

#[test]
fn test_zero_limit_always_allows() {
    let mut rl = RateLimiter::new(0);
    for _ in 0..1000 {
        assert!(rl.check_and_increment(ip(1)));
    }
}

#[test]
fn test_limit_enforced() {
    let mut rl = RateLimiter::new(3);
    assert!(rl.check_and_increment(ip(1)));
    assert!(rl.check_and_increment(ip(1)));
    assert!(rl.check_and_increment(ip(1)));
    assert!(!rl.check_and_increment(ip(1)));
}

#[test]
fn test_different_ips_independent() {
    let mut rl = RateLimiter::new(2);
    assert!(rl.check_and_increment(ip(1)));
    assert!(rl.check_and_increment(ip(1)));
    assert!(!rl.check_and_increment(ip(1)));
    assert!(rl.check_and_increment(ip(2)));
}

#[test]
fn test_window_reset_after_expiry() {
    let mut rl = RateLimiter::new(2);
    assert!(rl.check_and_increment_at(ip(1), 0));
    assert!(rl.check_and_increment_at(ip(1), 0));
    assert!(!rl.check_and_increment_at(ip(1), seconds(1)));
    assert!(rl.check_and_increment_at(ip(1), seconds(61)));
}

#[test]
fn window_lasts_a_minute_to_the_nanosecond() {
    let mut rl = RateLimiter::new(1);
    assert_eq!(rl.max_per_minute(), 1);
    assert!(rl.check_and_increment_at(ip(1), 5));
    assert!(!rl.check_and_increment_at(ip(1), 5 + WINDOW_NANOS));
    assert!(rl.check_and_increment_at(ip(1), 6 + WINDOW_NANOS));
    assert!(!rl.check_and_increment_at(ip(1), 7 + WINDOW_NANOS));
}

#[test]
fn refused_requests_do_not_prolong_a_window() {
    let mut rl = RateLimiter::new(1);
    assert!(rl.check_and_increment_at(ip(1), 0));
    for s in 1..61 {
        assert!(!rl.check_and_increment_at(ip(1), seconds(s)));
    }
    assert!(rl.check_and_increment_at(ip(1), seconds(60) + 1));
}

#[test]
fn a_crowd_changes_no_decision() {
    let mut rl = RateLimiter::new(2);
    let busy = ClientIp::V6(1);
    assert!(rl.check_and_increment_at(busy, seconds(50)));
    for n in 0..(2 * SWEEP_ABOVE as u32) {
        assert!(rl.check_and_increment_at(ClientIp::V4(n), seconds(50)));
    }
    assert!(rl.check_and_increment_at(busy, seconds(100)));
    assert!(!rl.check_and_increment_at(busy, seconds(110)));
    assert!(rl.check_and_increment_at(busy, seconds(110) + 1));
    assert!(rl.check_and_increment_at(ClientIp::V4(7), seconds(111)));
}

fn headers(fields: &[(&'static str, &[u8])]) -> HeaderMap {
    let mut map = HeaderMap::new();
    for (name, value) in fields {
        map.append(*name, HeaderValue::from_bytes(value).unwrap());
    }
    map
}

#[test]
fn client_is_the_first_forwarded_address() {
    let h = headers(&[("x-forwarded-for", b" 203.0.113.7 , 10.0.0.1"), ("x-real-ip", b" 10.0.0.2\t")]);
    let texts = client_texts(&h);
    assert_eq!(texts.forwarded.as_deref(), Some("203.0.113.7"));
    assert_eq!(texts.direct.as_deref(), Some("10.0.0.2"));
    let h = headers(&[("x-forwarded-for", b"2001:db8::1")]);
    let texts = client_texts(&h);
    assert_eq!(texts.forwarded.as_deref(), Some("2001:db8::1"));
    assert_eq!(texts.direct, None);
}

#[test]
fn only_the_first_field_counts() {
    let h = headers(&[("x-forwarded-for", b"1.2.3.4"), ("x-forwarded-for", b"5.6.7.8")]);
    assert_eq!(client_texts(&h).forwarded.as_deref(), Some("1.2.3.4"));
}

#[test]
fn headers_that_are_no_text_are_passed_over() {
    let h = headers(&[("x-forwarded-for", b"1.2.3.4\xff"), ("x-real-ip", b"10.0.0.2")]);
    let texts = client_texts(&h);
    assert_eq!(texts.forwarded, None);
    assert_eq!(texts.direct.as_deref(), Some("10.0.0.2"));
    let h = headers(&[("x-forwarded-for", b""), ("X-Real-Ip", b"a\tb ~")]);
    let texts = client_texts(&h);
    assert_eq!(texts.forwarded.as_deref(), Some(""));
    assert_eq!(texts.direct.as_deref(), Some("a\tb ~"));
}

#[test]
fn client_defaults_to_localhost() {
    let texts = client_texts(&HeaderMap::new());
    assert_eq!((texts.forwarded, texts.direct), (None, None));
    assert_eq!(choose_address(None, None), ip(1));
    assert_eq!(choose_address(None, Some(ip(9))), ip(9));
    assert_eq!(choose_address(Some(ip(8)), Some(ip(9))), ip(8));
    assert_eq!(choose_address(Some(ip(8)), None), ip(8));
}

fn loopback(text: &String) -> Option<ClientIp> {
    text.strip_prefix("127.0.0.").and_then(|last| last.parse().ok()).map(ip)
}

#[test]
fn the_client_is_read_from_the_headers() {
    let client = |fields: &[(&'static str, &[u8])]| extract_client_ip(&headers(fields), loopback);
    assert_eq!(client(&[("x-forwarded-for", b" 127.0.0.7 , 127.0.0.8")]), ip(7));
    assert_eq!(
        client(&[("x-forwarded-for", b"127.0.0.7"), ("x-real-ip", b"127.0.0.9")]),
        ip(7)
    );
    assert_eq!(client(&[("x-forwarded-for", b"proxy"), ("x-real-ip", b" 127.0.0.9 ")]), ip(9));
    assert_eq!(client(&[("x-forwarded-for", b"\xff"), ("x-real-ip", b"127.0.0.9")]), ip(9));
    assert_eq!(client(&[("x-forwarded-for", b"proxy, 127.0.0.7")]), ip(1));
    assert_eq!(client(&[]), ip(1));
}

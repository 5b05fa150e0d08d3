use rustclient::errors::HttpError;
use rustclient::resolver::{resolve_outcome, IpAddress, ResolveEvent};
use rustclient::{domain_is_ipaddr, first_reachable, parse_ip_literal};

#[test]
fn http_test_domain() {
    assert!(domain_is_ipaddr("10.0.0.1"));
    assert!(domain_is_ipaddr("::1"));
    assert!(!domain_is_ipaddr("api.twilio.com"));
    assert!(!domain_is_ipaddr("foo"));
}

#[test]
fn lib_test_domain() {
    assert!(domain_is_ipaddr("10.0.0.1"));
    assert!(domain_is_ipaddr("::1"));
    assert!(!domain_is_ipaddr("api.twilio.com"));
    assert!(!domain_is_ipaddr("foo"));
}

#[test]
fn test_ipv4_literals() {
    assert!(domain_is_ipaddr("0.0.0.0"));
    assert!(domain_is_ipaddr("255.255.255.255"));
    assert!(domain_is_ipaddr("96.126.98.124"));
    assert!(!domain_is_ipaddr("256.0.0.1"));
    assert!(!domain_is_ipaddr("1.2.3"));
    assert!(!domain_is_ipaddr("1.2.3.4.5"));
    assert!(!domain_is_ipaddr("01.2.3.4"));
    assert!(!domain_is_ipaddr("1.2.3."));
    assert!(!domain_is_ipaddr(".1.2.3.4"));
    assert!(!domain_is_ipaddr("1..2.3"));
    assert!(!domain_is_ipaddr("a.b.c.d"));
    assert!(!domain_is_ipaddr(""));
}

#[test]
fn test_ipv6_literals() {
    assert!(domain_is_ipaddr("::"));
    assert!(domain_is_ipaddr("::1"));
    assert!(domain_is_ipaddr("1::"));
    assert!(domain_is_ipaddr("1::2"));
    assert!(domain_is_ipaddr("2001:db8:0:0:0:0:2:1"));
    assert!(domain_is_ipaddr("2001:db8::2:1"));
    assert!(domain_is_ipaddr("fe80:0:0:0:0:0:0:1"));
    assert!(domain_is_ipaddr("::ffff:192.168.0.1"));
    assert!(domain_is_ipaddr("1:2:3:4:5:6:7:8"));
    assert!(domain_is_ipaddr("1:2:3:4:5:6:7::"));
    assert!(domain_is_ipaddr("::1:2:3:4:5:6:7"));
    assert!(domain_is_ipaddr("1:2:3:4:5:6:1.2.3.4"));
    assert!(domain_is_ipaddr("1::1.2.3.4"));
    assert!(!domain_is_ipaddr("1.2.3.4::"));
    assert!(!domain_is_ipaddr("::1.2.3.4:5"));
    assert!(!domain_is_ipaddr(":"));
    assert!(!domain_is_ipaddr(":::"));
    assert!(!domain_is_ipaddr(":1"));
    assert!(!domain_is_ipaddr("1:"));
    assert!(!domain_is_ipaddr("1:2:3:4:5:6:7:8:9"));
    assert!(!domain_is_ipaddr("1:2:3:4:5:6:7:8::"));
    assert!(!domain_is_ipaddr("::1:2:3:4:5:6:7:8"));
    assert!(!domain_is_ipaddr("1::2::3"));
    assert!(!domain_is_ipaddr("12345::"));
    assert!(!domain_is_ipaddr("g::1"));
    assert!(!domain_is_ipaddr("1:2:3:4:5:6:7"));
}

#[test]
fn test_parse_ip_literal_v4() {
    assert_eq!(parse_ip_literal("10.0.0.1"), Some(IpAddress::V4(10, 0, 0, 1)));
    assert_eq!(
        parse_ip_literal("96.126.98.124"),
        Some(IpAddress::V4(96, 126, 98, 124))
    );
    assert_eq!(
        parse_ip_literal("255.255.255.255"),
        Some(IpAddress::V4(255, 255, 255, 255))
    );
    assert_eq!(parse_ip_literal("256.0.0.1"), None);
    assert_eq!(parse_ip_literal("api.twilio.com"), None);
    assert_eq!(parse_ip_literal("foo"), None);
}

#[test]
fn test_parse_ip_literal_v6() {
    assert_eq!(
        parse_ip_literal("::"),
        Some(IpAddress::V6(0, 0, 0, 0, 0, 0, 0, 0))
    );
    assert_eq!(
        parse_ip_literal("::1"),
        Some(IpAddress::V6(0, 0, 0, 0, 0, 0, 0, 1))
    );
    assert_eq!(
        parse_ip_literal("1::"),
        Some(IpAddress::V6(1, 0, 0, 0, 0, 0, 0, 0))
    );
    assert_eq!(
        parse_ip_literal("2001:db8::2:1"),
        Some(IpAddress::V6(0x2001, 0xdb8, 0, 0, 0, 0, 2, 1))
    );
    assert_eq!(
        parse_ip_literal("1:2:3:4:5:6:7:8"),
        Some(IpAddress::V6(1, 2, 3, 4, 5, 6, 7, 8))
    );
    assert_eq!(
        parse_ip_literal("1:2:3:4:5:6:7::"),
        Some(IpAddress::V6(1, 2, 3, 4, 5, 6, 7, 0))
    );
    assert_eq!(
        parse_ip_literal("::ffff:192.168.0.1"),
        Some(IpAddress::V6(0, 0, 0, 0, 0, 0xffff, 0xc0a8, 0x0001))
    );
    assert_eq!(
        parse_ip_literal("1:2:3:4:5:6:1.2.3.4"),
        Some(IpAddress::V6(1, 2, 3, 4, 5, 6, 0x0102, 0x0304))
    );
    assert_eq!(
        parse_ip_literal("AbCd::eF"),
        Some(IpAddress::V6(0xabcd, 0, 0, 0, 0, 0, 0, 0xef))
    );
    assert_eq!(parse_ip_literal(":::"), None);
    assert_eq!(parse_ip_literal("1::2::3"), None);
}

#[test]
fn test_resolve_outcome_resolved() {
    let addrs = vec![IpAddress::V4(10, 0, 0, 1)];
    let r = resolve_outcome("api.twilio.com", 1000, ResolveEvent::Resolved(addrs.clone()));
    assert_eq!(r.unwrap(), addrs);
}

#[test]
fn test_resolve_outcome_empty_success() {
    let r = resolve_outcome("api.twilio.com", 1000, ResolveEvent::Resolved(Vec::new()));
    assert_eq!(r.unwrap(), Vec::<IpAddress>::new());
}

#[test]
fn test_resolve_outcome_failed() {
    let r = resolve_outcome("api.twilio.com", 1000, ResolveEvent::LookupFailed);
    assert_eq!(
        r.unwrap_err(),
        HttpError::ResolveFailed {
            host: "api.twilio.com".to_string()
        }
    );
}

#[test]
fn test_resolve_outcome_timed_out() {
    let r = resolve_outcome("api.twilio.com", 1500, ResolveEvent::TimedOut);
    let err = r.unwrap_err();
    assert_eq!(
        err,
        HttpError::ResolveTimedOut {
            host: "api.twilio.com".to_string(),
            timeout_ms: 1500
        }
    );
    assert_eq!(
        err.message(),
        "Failed to resolve api.twilio.com after 1500 milliseconds"
    );
}

#[test]
fn test_failover_last_reachable() {
    let outcomes = vec![false, false, false, true];
    assert_eq!(first_reachable(&outcomes), Some(3));
}

#[test]
fn test_failover_first_reachable() {
    let outcomes = vec![true, false];
    assert_eq!(first_reachable(&outcomes), Some(0));
}

#[test]
fn test_failover_none_reachable() {
    assert_eq!(first_reachable(&vec![false, false]), None);
    assert_eq!(first_reachable(&Vec::new()), None);
}

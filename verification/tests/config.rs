use bifrost_dns::config::{fallback_servers, parse_u64, Config};

#[test]
fn config_defaults() {
    let c = Config::default();
    assert_eq!(c.dns_port, 53);
    assert_eq!(c.api_port, 15353);
    assert_eq!(c.log_level, "info");
    assert!(c.fallback_dns.is_empty());
    assert_eq!(c.cache_ttl, 300);
    assert!(!c.fallback_enabled());
}

#[test]
fn config_from_values_reads_and_ignores_bad_values() {
    let c = Config::from_values(Some("8053"), Some("x"), Some("debug"), Some("1.1.1.1, 8.8.8.8:5353"), Some("60"));
    assert_eq!(c.dns_port, 8053);
    assert_eq!(c.api_port, 15353);
    assert_eq!(c.log_level, "debug");
    assert_eq!(c.fallback_dns, vec!["1.1.1.1:53".to_string(), "8.8.8.8:5353".to_string()]);
    assert_eq!(c.cache_ttl, 60);
    assert!(c.fallback_enabled());
    let d = Config::from_values(Some("70000"), None, None, None, Some("-1"));
    assert_eq!(d.dns_port, 53);
    assert_eq!(d.cache_ttl, 300);
}

#[test]
fn fallback_servers_handles_ipv6_and_empty_items() {
    assert_eq!(
        fallback_servers("::1, [fe80::1]:5300,, , dns.example:53,9.9.9.9"),
        vec![
            "[::1]:53".to_string(),
            "[fe80::1]:5300".to_string(),
            "9.9.9.9:53".to_string(),
        ]
    );
    assert!(fallback_servers("").is_empty());
}

#[test]
fn parse_u64_follows_from_str() {
    assert_eq!(parse_u64("18446744073709551615"), Some(u64::MAX));
    assert_eq!(parse_u64("18446744073709551616"), None);
    assert_eq!(parse_u64("+7"), Some(7));
    assert_eq!(parse_u64("+"), None);
    assert_eq!(parse_u64(""), None);
    assert_eq!(parse_u64("1 "), None);
}

#[test]
fn fallback_servers_drops_what_is_not_a_socket_address() {
    assert_eq!(
        fallback_servers(" ::1 , [::1]:5353,bogus,,1.1.1.1:5353"),
        vec!["[::1]:53".to_string(), "[::1]:5353".to_string(), "1.1.1.1:5353".to_string()]
    );
    assert_eq!(
        fallback_servers("[fe80::1%2]:53,1.2.3.4:65536,1.2.3.4:+53,01.2.3.4,1.2.3.4:0053,[::1]"),
        vec!["[fe80::1%2]:53".to_string(), "1.2.3.4:0053".to_string()]
    );
    let c = Config::from_values(None, None, None, Some("bogus, localhost:53"), None);
    assert!(c.fallback_dns.is_empty());
    assert!(!c.fallback_enabled());
}

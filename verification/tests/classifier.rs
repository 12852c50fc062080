use nispor_ip::addr::{addr_key, is_ipv6_addr, is_ipv6_unicast_link_local,
    is_ipv6_unicast_link_local_full, parse_u8, str_eq, u8_dec_string};

#[test]
fn ipv6_syntax_is_colon() {
    assert!(is_ipv6_addr("::1"));
    assert!(is_ipv6_addr("2001:db8::1"));
    assert!(!is_ipv6_addr("192.0.2.1"));
    assert!(!is_ipv6_addr(""));
    assert!(!is_ipv6_addr("hello"));
}

#[test]
fn link_local_full_form() {
    assert!(is_ipv6_unicast_link_local_full("fe80::1", 64));
    assert!(is_ipv6_unicast_link_local_full("fe9f::1", 10));
    assert!(is_ipv6_unicast_link_local_full("fea0::1", 128));
    assert!(is_ipv6_unicast_link_local_full("feb0::1", 64));
    // Below the /10 boundary the block is not link-local.
    assert!(!is_ipv6_unicast_link_local_full("fe80::1", 9));
    // Not in fe80::/10 at nibble granularity.
    assert!(!is_ipv6_unicast_link_local_full("fec0::1", 64));
    assert!(!is_ipv6_unicast_link_local_full("fd00::1", 64));
    // Not IPv6 at all.
    assert!(!is_ipv6_unicast_link_local_full("fe8", 64));
    assert!(!is_ipv6_unicast_link_local_full("192.0.2.1", 24));
}

#[test]
fn link_local_combined_text() {
    assert!(is_ipv6_unicast_link_local("fe80::1/64"));
    assert!(!is_ipv6_unicast_link_local("2001:db8::1/64"));
    // No slash, two slashes, or a bad prefix suffix: never link-local.
    assert!(!is_ipv6_unicast_link_local("fe80::1"));
    assert!(!is_ipv6_unicast_link_local("fe80::1/64/64"));
    assert!(!is_ipv6_unicast_link_local("fe80::1/banana"));
    assert!(!is_ipv6_unicast_link_local("fe80::1/256"));
    assert!(!is_ipv6_unicast_link_local("fe80::1/"));
    // Prefix below 10 is not link-local.
    assert!(!is_ipv6_unicast_link_local("fe80::1/9"));
}

#[test]
fn u8_parsing() {
    assert_eq!(parse_u8("0"), Some(0));
    assert_eq!(parse_u8("255"), Some(255));
    assert_eq!(parse_u8("007"), Some(7));
    assert_eq!(parse_u8("+10"), Some(10));
    assert_eq!(parse_u8("256"), None);
    assert_eq!(parse_u8(""), None);
    assert_eq!(parse_u8("+"), None);
    assert_eq!(parse_u8("-1"), None);
    assert_eq!(parse_u8("1 "), None);
    assert_eq!(parse_u8("999999999999999999999"), None);
}

#[test]
fn decimal_rendering_and_keys() {
    assert_eq!(u8_dec_string(0).as_str(), "0");
    assert_eq!(u8_dec_string(7).as_str(), "7");
    assert_eq!(u8_dec_string(42).as_str(), "42");
    assert_eq!(u8_dec_string(255).as_str(), "255");
    assert_eq!(addr_key("192.0.2.1", 24).as_str(), "192.0.2.1/24");
    assert_eq!(addr_key("fe80::1", 64).as_str(), "fe80::1/64");
}

#[test]
fn string_equality() {
    assert!(str_eq("abc", "abc"));
    assert!(!str_eq("abc", "abd"));
    assert!(!str_eq("abc", "ab"));
    assert!(str_eq("", ""));
}

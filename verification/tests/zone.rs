use dns_server::error::DnsError;
use dns_server::models::{QueryClass, QueryType};
use dns_server::server::zone::{chars_of, is_whitespace, parse_ipv4, zone_line};

fn ip(text: &str) -> Option<Vec<u8>> {
    parse_ipv4(&chars_of(text))
}

#[test]
fn dotted_quads() {
    assert_eq!(ip("1.2.3.4"), Some(vec![1, 2, 3, 4]));
    assert_eq!(ip("0.0.0.0"), Some(vec![0, 0, 0, 0]));
    assert_eq!(ip("255.255.255.255"), Some(vec![255, 255, 255, 255]));
    assert_eq!(ip("192.168.10.99"), Some(vec![192, 168, 10, 99]));
    assert_eq!(ip("256.1.1.1"), None);
    assert_eq!(ip("1.2.3"), None);
    assert_eq!(ip("1.2.3.4.5"), None);
    assert_eq!(ip("1..3.4"), None);
    assert_eq!(ip("1.2.3."), None);
    assert_eq!(ip(".1.2.3"), None);
    assert_eq!(ip("01.2.3.4"), None);
    assert_eq!(ip("1.2.3.004"), None);
    assert_eq!(ip("1.2.3.4 "), None);
    assert_eq!(ip("1.2.3.a"), None);
    assert_eq!(ip("1.2.3.1000"), None);
    assert_eq!(ip(""), None);
    assert_eq!(ip("+1.2.3.4"), None);
}

#[test]
fn spaces_agree_with_the_standard_library() {
    for code in 0u32..0x3100 {
        if let Some(c) = char::from_u32(code) {
            assert_eq!(is_whitespace(c), c.is_whitespace(), "{code:#x}");
        }
    }
    assert!(!is_whitespace('\u{FEFF}'));
    assert!(!is_whitespace('\u{10FFFF}'));
}

#[test]
fn characters_of_a_text() {
    assert_eq!(chars_of("aé\u{3000}z"), vec!['a', 'é', '\u{3000}', 'z']);
    assert_eq!(chars_of(""), Vec::<char>::new());
}

#[test]
fn line_for_the_name_gives_a_record() {
    let record = zone_line("example.com IN A 1.2.3.4\n", "example.com").unwrap().unwrap();
    assert_eq!(record.name, "example.com");
    assert_eq!(record.query_class, QueryClass::IN);
    assert_eq!(record.query_type, QueryType::A);
    assert_eq!(record.ttl, 300);
    assert_eq!(record.rdata_length, 4);
    assert_eq!(record.rdata, vec![1, 2, 3, 4]);
}

#[test]
fn line_is_split_at_any_space() {
    let record = zone_line("\t example.com\u{00A0}IN \u{2003} A\r\x0b10.20.30.40 \r\n", "example.com")
        .unwrap()
        .unwrap();
    assert_eq!(record.rdata, vec![10, 20, 30, 40]);
}

#[test]
fn names_match_without_regard_to_case() {
    let record = zone_line("Example.COM IN A 1.2.3.4", "example.com").unwrap().unwrap();
    assert_eq!(record.name, "example.com");
}

#[test]
fn line_for_another_name_gives_nothing() {
    assert!(zone_line("other.org IN A 1.2.3.4", "example.com").unwrap().is_none());
    // Class, type and address of such a line are not looked at.
    assert!(zone_line("other.org XX YY zz", "example.com").unwrap().is_none());
}

#[test]
fn blank_lines_and_comments_give_nothing() {
    assert!(zone_line("", "example.com").unwrap().is_none());
    assert!(zone_line("   \t\r\n", "example.com").unwrap().is_none());
    assert!(zone_line("# example.com IN A 1.2.3.4 and more", "example.com").unwrap().is_none());
    assert!(zone_line("#", "#").unwrap().is_none());
}

#[test]
fn a_comment_starts_with_a_token_of_its_own() {
    assert!(matches!(zone_line("#comment", "example.com"), Err(DnsError::BrokenBindFile)));
    assert!(zone_line("#x IN A 1.2.3.4", "example.com").unwrap().is_none());
}

#[test]
fn lines_of_another_shape_are_broken() {
    assert!(matches!(zone_line("example.com IN A", "example.com"), Err(DnsError::BrokenBindFile)));
    assert!(matches!(
        zone_line("example.com IN A 1.2.3.4 extra", "example.com"),
        Err(DnsError::BrokenBindFile)
    ));
    assert!(matches!(zone_line("other.org", "example.com"), Err(DnsError::BrokenBindFile)));
}

#[test]
fn matching_line_with_bad_fields_is_broken() {
    assert!(matches!(zone_line("example.com CH A 1.2.3.4", "example.com"), Err(DnsError::BrokenBindFile)));
    assert!(matches!(zone_line("example.com IN MX 1.2.3.4", "example.com"), Err(DnsError::BrokenBindFile)));
    assert!(matches!(zone_line("example.com IN A 1.2.3", "example.com"), Err(DnsError::BrokenBindFile)));
    assert!(matches!(zone_line("example.com in A 1.2.3.4", "example.com"), Err(DnsError::BrokenBindFile)));
}

use std::collections::hash_map::DefaultHasher;
use std::hash::{Hash, Hasher};

use webwatch::models::{alert_id, platform_user_id, user_id_from_platform, Alert};
use webwatch::error::CommandError;
use webwatch::text::{parse_u64, sanitize, split_chunks, to_decimal, to_hex};

fn expected_id(url: &str, text: &str, invert: i64, user: i64) -> String {
    let mut h = DefaultHasher::new();
    url.hash(&mut h);
    text.hash(&mut h);
    invert.hash(&mut h);
    user.hash(&mut h);
    format!("{:x}", h.finish())
}

fn args(items: &[&str]) -> Vec<String> {
    items.iter().map(|s| s.to_string()).collect()
}

#[test]
fn alert_id_is_hex_of_field_hash() {
    assert_eq!(alert_id("https://a/", "foo", false, 42), expected_id("https://a/", "foo", 0, 42));
    assert_eq!(alert_id("https://a/", "foo", true, 42), expected_id("https://a/", "foo", 1, 42));
    let a = Alert::new("https://a/", "foo", true, -3, 1);
    assert_eq!(a.alert_id, expected_id("https://a/", "foo", 1, -3));
}

#[test]
fn alert_id_is_deterministic() {
    let a = Alert::new("https://a/", "foo", false, 42, 1);
    let b = Alert::new("https://a/", "foo", false, 42, 7);
    assert_eq!(a.alert_id, b.alert_id);
    let c = Alert::new("https://a/", "foo", false, 43, 1);
    assert_ne!(a.alert_id, c.alert_id);
}

#[test]
fn hex_and_decimal() {
    assert_eq!(to_hex(0), "0");
    assert_eq!(to_hex(255), "ff");
    assert_eq!(to_hex(0xdead_beef), "deadbeef");
    assert_eq!(to_hex(u64::MAX), format!("{:x}", u64::MAX));
    assert_eq!(to_decimal(0), "0");
    assert_eq!(to_decimal(1907), "1907");
    assert_eq!(to_decimal(u64::MAX), u64::MAX.to_string());
}

#[test]
fn parse_u64_like_std() {
    for s in ["0", "1", "+5", "007", "18446744073709551615", "18446744073709551616", "", "+", "-1", "1a", " 1", "++1"] {
        assert_eq!(parse_u64(s), s.parse::<u64>().ok(), "input {:?}", s);
    }
}

#[test]
fn sanitize_pattern() {
    assert_eq!(sanitize("say '''hi''' ~now"), "say \"hi\" now");
    assert_eq!(sanitize("''''"), "\"'");
    assert_eq!(sanitize("'~''"), "'''");
    assert_eq!(sanitize(""), "");
    assert_eq!(sanitize("plain"), "plain");
}

#[test]
fn split_into_pieces() {
    assert_eq!(split_chunks("abcdefg", 3), vec!["abc", "def", "g"]);
    assert_eq!(split_chunks("abcdef", 3), vec!["abc", "def"]);
    assert_eq!(split_chunks("ab", 3), vec!["ab"]);
    assert_eq!(split_chunks("", 3), vec![""]);
    assert_eq!(split_chunks("héllo", 2), vec!["hé", "ll", "o"]);
}

#[test]
fn from_args_builds_alert() {
    let a = Alert::from_args(&args(&["https://example.com", "a'''b~", "x", "-n"]), 42, 3).unwrap();
    assert_eq!(a.url, "https://example.com/");
    assert_eq!(a.matching_text, "a\"b");
    assert!(a.invert);
    assert_eq!(a.user_id, 42);
    assert_eq!(a.ordinal, 3);
    assert_eq!(a.alert_id, expected_id("https://example.com/", "a\"b", 1, 42));
    let b = Alert::from_args(&args(&["https://example.com/p", "foo"]), 42, 1).unwrap();
    assert!(!b.invert);
    // `-n` in the matching-text position is the text itself.
    let c = Alert::from_args(&args(&["https://example.com/p", "-n"]), 42, 1).unwrap();
    assert_eq!(c.matching_text, "-n");
    assert!(!c.invert);
}

#[test]
fn from_args_errors() {
    assert_eq!(Alert::from_args(&args(&[]), 1, 1).unwrap_err(), CommandError::MissingUrl);
    assert_eq!(Alert::from_args(&args(&["/relative", "x"]), 1, 1).unwrap_err(), CommandError::InvalidUrl);
    assert_eq!(
        Alert::from_args(&args(&["https://example.com/p"]), 1, 1).unwrap_err(),
        CommandError::MissingMatchingText
    );
}

#[test]
fn user_ids_are_bit_cast() {
    assert_eq!(user_id_from_platform(42), 42);
    assert_eq!(user_id_from_platform(u64::MAX), -1);
    assert_eq!(user_id_from_platform(1u64 << 63), i64::MIN);
    assert_eq!(platform_user_id(-1), u64::MAX);
    assert_eq!(platform_user_id(i64::MIN), 1u64 << 63);
    for id in [0u64, 1, 1 << 62, (1 << 63) + 12345, u64::MAX - 1] {
        assert_eq!(platform_user_id(user_id_from_platform(id)), id);
        assert_eq!(user_id_from_platform(id), id as i64);
    }
}

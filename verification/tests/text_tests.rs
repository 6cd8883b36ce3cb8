// Text helpers.

use foxwatch::ingestion::parse_ha_state;
use foxwatch::telemetry::DeviceState;
use foxwatch::text::{eq_ignore_ascii_case, is_white_space, join, str_eq, trim_white_space};

#[test]
fn trimming_removes_unicode_white_space() {
    assert!(matches!(parse_ha_state("\u{3000} off\u{a0}\n"), DeviceState::Off));
    match parse_ha_state("  a b \t") {
        DeviceState::Unknown(t) => assert_eq!(t, "a b"),
        other => panic!("unexpected {:?}", other),
    }
}

#[test]
fn lowercasing_follows_unicode() {
    match parse_ha_state(r#"{"state":"ÉTÉ"}"#) {
        DeviceState::Unknown(t) => assert_eq!(t, "été"),
        other => panic!("unexpected {:?}", other),
    }
}

#[test]
fn ascii_case_insensitive_comparison() {
    assert!(eq_ignore_ascii_case("UnAvailable", "unavailable"));
    assert!(!eq_ignore_ascii_case("unavailabl", "unavailable"));
    assert!(!eq_ignore_ascii_case("É", "é"));
    assert!(str_eq("abc", "abc"));
    assert!(!str_eq("abc", "abd"));
}

#[test]
fn joining_with_a_separator() {
    let v = vec!["a".to_string(), "b".to_string(), "c".to_string()];
    assert_eq!(join(&v, ", "), "a, b, c");
    assert_eq!(join(&vec![], ", "), "");
    assert_eq!(join(&vec!["x".to_string()], "\n"), "x");
}

#[test]
fn trim_white_space_directly() {
    assert_eq!(trim_white_space("  a b \t\n"), "a b");
    assert_eq!(trim_white_space("\u{3000}x\u{a0}"), "x");
    assert_eq!(trim_white_space("   "), "");
    assert_eq!(trim_white_space(""), "");
    assert!(is_white_space('\u{85}'));
    assert!(!is_white_space('\u{200b}'));
    for s in ["\u{2028} é \u{2029}", "\u{feff}x", " \u{180e}y "] {
        assert_eq!(trim_white_space(s), s.trim());
    }
}

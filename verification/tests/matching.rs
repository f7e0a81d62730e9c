//! The case-insensitive character comparison and the subsequence matcher.

fn matches(needle: &str, haystack: &str) -> bool {
    rff::matcher::matches(needle, haystack)
}

fn check_matches() {
    assert!(matches("a", "a"));
    assert!(matches("a", "abc"));
    assert!(matches("abc", "abc"));
    assert!(matches("ABC", "abc"));
    assert!(matches("abc", "a1b2c3"));
    assert!(matches("abc", "a1b2c3"));
    assert!(matches("test", "t/e/s/t"));
    assert!(matches("test", "t💣e💣s💣t"));
    assert!(matches("💣💣💣", "t💣e💣s💣t"));

    assert!(!matches("abc", "ab"));
    assert!(!matches("abc", "cab"));
    assert!(!matches("abc", ""));

    assert!(matches("", ""));
    assert!(matches("", "ab"));

    // UTF-8 case testing
    assert!(matches("a", "A"));
    assert!(matches("A", "a"));
    assert!(matches("山", "山"));
    assert!(matches("café", "CAFÉ"));
    assert!(matches("weiß", "WEIẞ"));
    assert!(matches("хди́ь", "ХОДИ́ТЬ"));
}

fn check_eq() {
    assert!(rff::matcher::eq('a', 'A'));
    assert!(rff::matcher::eq('山', '山'));
    assert!(!rff::matcher::eq('a', 'b'));
}

#[test]
fn matcher_test_eq() {
    check_eq();
}

#[test]
fn mod_test_eq() {
    check_eq();
}

#[test]
fn matcher_test_matches() {
    check_matches();
}

#[test]
fn mod_test_matches() {
    check_matches();
}

#[test]
fn lib_test_matches() {
    check_matches();
}

#[test]
fn matching_test_matches() {
    check_matches();
}

#[test]
fn empty_and_identical_always_match() {
    assert!(matches("", "anything at all"));
    assert!(matches("", ""));
    assert!(matches("app/models/order", "app/models/order"));
    assert!(matches("ß💣X", "ß💣X"));
}

#[test]
fn subsequence_order_matters() {
    assert!(matches("amo", "app/models/order"));
    assert!(!matches("oma", "app/models/order"));
}

#[test]
fn unicode_case_folding() {
    assert!(matches("AMOr", "App/Models/Order.rb"));
    assert!(matches("ß", "WEIẞ"));
    assert!(matches("ß", "ẞ"));
}

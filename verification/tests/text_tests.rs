use cyberapi::text::{contains, matches_at, remove_all, same_text, starts_with};

#[test]
fn prefixes_are_found() {
    assert!(starts_with("connecting to 1.2.3.4", "connecting to"));
    assert!(starts_with("abc", ""));
    assert!(starts_with("abc", "abc"));
    assert!(!starts_with("ab", "abc"));
    assert!(!starts_with(" connecting", "connecting"));
    assert!(starts_with("héllo wörld", "héllo"));
}

#[test]
fn infixes_are_found() {
    assert!(contains("a checkout waiting b", "checkout waiting"));
    assert!(contains("abc", "c"));
    assert!(contains("abc", ""));
    assert!(contains("", ""));
    assert!(!contains("abc", "abcd"));
    assert!(!contains("abc", "ca"));
    assert!(matches_at("abcabc", "bc", 4));
    assert!(!matches_at("abcabc", "bc", 5));
    assert!(!matches_at("abc", "a", 7));
}

#[test]
fn equal_texts_are_equal() {
    assert!(same_text("hyper::client::pool", "hyper::client::pool"));
    assert!(!same_text("hyper::client::pool", "hyper::client::poo"));
    assert!(!same_text("a", "b"));
    assert!(same_text("", ""));
}

#[test]
fn occurrences_are_cut_out() {
    assert_eq!(remove_all("Using ciphersuite X", "Using ciphersuite "), "X");
    assert_eq!(remove_all("aaa", "aa"), "a");
    assert_eq!(remove_all("abcabc", "bc"), "aa");
    assert_eq!(remove_all("abc", ""), "abc");
    assert_eq!(remove_all("abc", "abcd"), "abc");
    assert_eq!(remove_all("", "a"), "");
    assert_eq!(remove_all("ababab", "ab"), "");
    assert_eq!(remove_all("Using ciphersuite X", "Using ciphersuite "), "Using ciphersuite X".replace("Using ciphersuite ", ""));
}

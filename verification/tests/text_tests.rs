use a2app::text::{chars_of, contains, find, find_from, join2, join3, rfind, starts_with, trim_str, utf8_len_exceeds};

fn cv(s: &str) -> Vec<char> {
    chars_of(s)
}

#[test]
fn trim_matches_str_trim() {
    for s in ["", "   ", " a ", "\t\nabc\r\n", "x", "\u{3000}wide\u{2028}", "a b  c", "\u{85}z\u{A0}"] {
        assert_eq!(trim_str(s), s.trim(), "trim of {:?}", s);
    }
}

#[test]
fn find_and_rfind_count_characters() {
    let s = cv("ab\u{1F916}ab");
    assert_eq!(find(&s, &cv("ab")), Some(0));
    assert_eq!(find_from(&s, &cv("ab"), 1), Some(3));
    assert_eq!(rfind(&s, &cv("ab")), Some(3));
    assert_eq!(find(&s, &cv("zz")), None);
    assert_eq!(rfind(&s, &cv("zz")), None);
    assert_eq!(find(&s, &cv("")), Some(0));
    assert_eq!(rfind(&s, &cv("")), Some(5));
    assert!(contains(&s, &cv("\u{1F916}")));
    assert!(starts_with(&s, &cv("ab")));
    assert!(!starts_with(&s, &cv("b")));
}

#[test]
fn utf8_length_is_counted_in_bytes() {
    let s = cv("\u{1F916}\u{1F916}\u{1F916}\u{1F916}\u{1F916}");
    // Five four-byte characters: 20 bytes, not more than 20.
    assert!(!utf8_len_exceeds(&s, 0, 20));
    assert!(utf8_len_exceeds(&s, 0, 19));
    assert!(!utf8_len_exceeds(&s, 1, 16));
    assert!(utf8_len_exceeds(&s, 1, 15));
}

#[test]
fn joins_concatenate() {
    assert_eq!(join2("a", "bc"), "abc");
    assert_eq!(join3("a", "", "c"), "ac");
}

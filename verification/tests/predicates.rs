use ascii_pack::until::{
    ascii_alpha, ascii_alphanumeric, ascii_digit, empty, has_prefix, starts_with,
};
use ascii_pack::StopPredicate;

#[test]
fn ascii_digit_looks_at_the_first_character() {
    assert!(ascii_digit("0012"));
    assert!(ascii_digit("9"));
    assert!(ascii_digit(""));
    assert!(!ascii_digit("TEST"));
    assert!(!ascii_digit(" 12"));
    assert!(!ascii_digit("a1"));
    assert!(!ascii_digit("/"));
    assert!(!ascii_digit(":"));
    assert!(!ascii_digit("\u{0663}"));
}

#[test]
fn ascii_alphanumeric_looks_at_the_first_character() {
    assert!(ascii_alphanumeric("a"));
    assert!(ascii_alphanumeric("z9"));
    assert!(ascii_alphanumeric("A"));
    assert!(ascii_alphanumeric("Z"));
    assert!(ascii_alphanumeric("0"));
    assert!(ascii_alphanumeric("9"));
    assert!(ascii_alphanumeric(""));
    assert!(!ascii_alphanumeric(" a"));
    assert!(!ascii_alphanumeric("@"));
    assert!(!ascii_alphanumeric("["));
    assert!(!ascii_alphanumeric("`"));
    assert!(!ascii_alphanumeric("{"));
    assert!(!ascii_alphanumeric("\u{00e9}"));
}

#[test]
fn ascii_alpha_looks_at_the_first_character() {
    assert!(ascii_alpha("R001"));
    assert!(ascii_alpha("a"));
    assert!(ascii_alpha(""));
    assert!(!ascii_alpha("00 0501"));
    assert!(!ascii_alpha(" R"));
    assert!(!ascii_alpha("\n"));
    for c in ['a', 'Z', '1', ' ', '\u{00e9}', '\u{4eac}', '\u{1f4a9}'] {
        assert_eq!(ascii_alpha(&c.to_string()), c.is_alphabetic(), "{:?}", c);
    }
}

#[test]
fn empty_holds_of_the_empty_lookahead_only() {
    assert!(empty(""));
    assert!(!empty(" "));
    assert!(!empty("abc"));
}

#[test]
fn starts_with_compares_the_beginning() {
    assert_eq!(starts_with("del"), StopPredicate::StartsWith("del".to_string()));
    let stop = starts_with("del");
    assert!(stop.test("delimeter"));
    assert!(stop.test("del"));
    assert!(!stop.test("de"));
    assert!(!stop.test(""));
    assert!(!stop.test("xdel"));
    assert!(!stop.test("dal"));
    assert!(starts_with("").test(""));
    assert!(starts_with("").test("abc"));
    assert!(starts_with("\n").test("\nR"));
}

#[test]
fn has_prefix_agrees_with_std() {
    let texts = ["", "a", "ab", "abc", "abd", "b", "\u{00e9}a", "a\u{00e9}"];
    for text in texts {
        for prefix in texts {
            assert_eq!(has_prefix(text, prefix), text.starts_with(prefix), "{:?} {:?}", text, prefix);
        }
    }
}

#[test]
fn a_predicate_as_a_value_answers_as_its_function() {
    for text in ["", "0", "a", "Z", " ", "del", "\n"] {
        assert_eq!(StopPredicate::AsciiDigit.test(text), ascii_digit(text));
        assert_eq!(StopPredicate::AsciiAlphanumeric.test(text), ascii_alphanumeric(text));
        assert_eq!(StopPredicate::AsciiAlpha.test(text), ascii_alpha(text));
        assert_eq!(StopPredicate::Empty.test(text), empty(text));
    }
}

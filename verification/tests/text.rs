//! The helpers on strings.

use lc3_toolchain::model::reversed;
use lc3_toolchain::text::{
    contains_char, ends_with_char, spaces, starts_with_char, trim, without_first, without_last,
};

#[test]
fn trimming() {
    assert_eq!(trim(""), "");
    assert_eq!(trim("   "), "");
    assert_eq!(trim("a"), "a");
    assert_eq!(trim(" a b \t\n"), "a b");
    assert_eq!(trim("\u{2003}é x\u{a0}"), "é x");
    for text in ["", " ", "x ", " x", "  two  words  ", "\tä\u{3000}"] {
        assert_eq!(trim(text), text.trim());
    }
}

#[test]
fn first_and_last_characters() {
    assert!(starts_with_char(";x", ';'));
    assert!(!starts_with_char("x;", ';'));
    assert!(!starts_with_char("", ';'));
    assert!(ends_with_char("x:", ':'));
    assert!(!ends_with_char(":x", ':'));
    assert!(!ends_with_char("", ':'));
    assert!(ends_with_char("é", 'é'));
    assert_eq!(without_first(";note"), "note");
    assert_eq!(without_first("éa"), "a");
    assert_eq!(without_last("L:"), "L");
    assert_eq!(without_last("aé"), "a");
}

#[test]
fn searching_and_padding() {
    assert!(contains_char("a_b", '_'));
    assert!(!contains_char("ab", '_'));
    assert!(!contains_char("", '_'));
    assert_eq!(spaces(0), "");
    assert_eq!(spaces(3), "   ");
}

#[test]
fn turning_round() {
    assert_eq!(reversed(vec![1, 2, 3]), vec![3, 2, 1]);
    assert_eq!(reversed(Vec::<u8>::new()), Vec::<u8>::new());
}

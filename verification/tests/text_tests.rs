use wowsunpacker::query::translate;
use wowsunpacker::text::{characters, contains_text, join_with_slash, matches_at, replace_text};

#[test]
fn contains_finds_a_part() {
    assert!(contains_text("C:/Games/res_packages", "res_packages"));
    assert!(contains_text("res_packages", "res_packages"));
    assert!(contains_text("xres_packagesx", "res_packages"));
    assert!(contains_text("anything", ""));
    assert!(contains_text("", ""));
    assert!(!contains_text("res_package", "res_packages"));
    assert!(!contains_text("", "a"));
    assert!(!contains_text("abab", "bb"));
    assert!(contains_text("ääb", "äb"));
}

#[test]
fn replace_goes_from_left_to_right() {
    assert_eq!(replace_text("bin/1/idx", "idx", "res/texts"), "bin/1/res/texts");
    assert_eq!(replace_text("aaa", "aa", "b"), "ba");
    assert_eq!(replace_text("aaaa", "aa", "b"), "bb");
    assert_eq!(replace_text("abc", "x", "y"), "abc");
    assert_eq!(replace_text("abc", "", "y"), "abc");
    assert_eq!(replace_text("", "a", "y"), "");
    assert_eq!(replace_text("idx", "idx", ""), "");
    assert_eq!(replace_text("xidxidxx", "idx", "-"), "x--x");
}

#[test]
fn matches_at_compares_in_place() {
    let text = characters("hello");
    assert_eq!(text, vec!['h', 'e', 'l', 'l', 'o']);
    assert!(matches_at(&characters("ll"), &text, 2));
    assert!(!matches_at(&characters("ll"), &text, 1));
    assert!(matches_at(&characters(""), &text, 5));
    assert!(!matches_at(&characters(""), &text, 6));
    assert!(!matches_at(&characters("lo!"), &text, 3));
    assert!(!matches_at(&characters("o"), &text, usize::MAX));
}

#[test]
fn slash_joins_two_parts() {
    assert_eq!(join_with_slash("out", "a/b.txt"), "out/a/b.txt");
    assert_eq!(join_with_slash("", ""), "/");
}

#[test]
fn query_becomes_an_anchored_expression() {
    assert_eq!(translate("*"), "^(?:.*)$");
    assert_eq!(translate("gui/*.png"), "^(?:gui/.*.png)$");
    assert_eq!(translate(""), "^(?:)$");
    assert_eq!(translate("**a"), "^(?:.*.*a)$");
    assert_eq!(translate("a|b"), "^(?:a|b)$");
}

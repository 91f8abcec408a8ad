use veshader::text::contains_substr;
use veshader::text::split_on_char;
use veshader::text::starts_with_str;
use veshader::text::str_eq;

#[test]
fn string_equality_is_by_characters() {
    assert!(str_eq("", ""));
    assert!(str_eq("abc", "abc"));
    assert!(!str_eq("abc", "abd"));
    assert!(!str_eq("abc", "abcd"));
    assert!(str_eq("héé", "héé"));
}

#[test]
fn substring_search_finds_needle_anywhere() {
    assert!(contains_substr("//# TYPE VERTEX", "//#"));
    assert!(contains_substr("code //# trailing", "//#"));
    assert!(!contains_substr("// plain comment", "//#"));
    assert!(contains_substr("abc", ""));
    assert!(!contains_substr("ab", "abc"));
}

#[test]
fn prefix_test() {
    assert!(starts_with_str("// comment", "//"));
    assert!(!starts_with_str("/ not", "//"));
    assert!(!starts_with_str("/", "//"));
}

#[test]
fn splitting_keeps_empty_tokens() {
    assert_eq!(split_on_char("a b", ' '), vec!["a", "b"]);
    assert_eq!(split_on_char("a  b", ' '), vec!["a", "", "b"]);
    assert_eq!(split_on_char("", ' '), vec![""]);
    assert_eq!(split_on_char(" a ", ' '), vec!["", "a", ""]);
    assert_eq!(split_on_char("//# TYPE VERTEX", ' '), vec!["//#", "TYPE", "VERTEX"]);
}

#[test]
fn translation_handles_multibyte_text() {
    let map: Vec<usize> = vec![4, 6];
    let out = veshader::diagnostics::translate_diagnostic("ошибка :2: δ", &map, false);
    assert_eq!(out, Some("ошибка :6: δ".to_string()));
}

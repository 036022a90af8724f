use pacmanman::strutil::{join_vec, normalize_key, split_char, str_contains, str_eq, str_lex_leq, tokens};

#[test]
fn split_keeps_empty_segments() {
    let segs = split_char("a\n\nb\n", '\n');
    assert_eq!(segs, vec!["a", "", "b", ""]);
    assert_eq!(split_char("", '\n'), vec![""]);
}

#[test]
fn tokens_drop_empty_fields() {
    assert_eq!(tokens("  foo   1.0 "), vec!["foo", "1.0"]);
    assert_eq!(tokens("").len(), 0);
    assert_eq!(tokens("   ").len(), 0);
}

#[test]
fn string_equality_is_exact() {
    assert!(str_eq("abc", "abc"));
    assert!(!str_eq("abc", "abd"));
    assert!(!str_eq("abc", "ab"));
    assert!(str_eq("", ""));
}

#[test]
fn substring_search() {
    assert!(str_contains("foobar", "oba"));
    assert!(str_contains("foobar", ""));
    assert!(!str_contains("foobar", "baz"));
    assert!(!str_contains("fo", "foo"));
}

#[test]
fn lexicographic_order_is_bytewise() {
    assert!(str_lex_leq("alpha", "beta"));
    assert!(!str_lex_leq("beta", "alpha"));
    assert!(str_lex_leq("Zeta", "alpha"));
    assert!(str_lex_leq("ab", "abc"));
    assert!(!str_lex_leq("abc", "ab"));
    assert!(str_lex_leq("same", "same"));
}

#[test]
fn key_normalization_lowercases_and_drops_spaces() {
    assert_eq!(normalize_key("Depends On "), "dependson".chars().collect::<Vec<char>>());
    assert_eq!(normalize_key("URL"), "url".chars().collect::<Vec<char>>());
}

#[test]
fn join_with_commas() {
    let v = vec!["a".to_string(), "b".to_string(), "c".to_string()];
    assert_eq!(join_vec(&v), "a,b,c");
    assert_eq!(join_vec(&vec!["solo".to_string()]), "solo");
    assert_eq!(join_vec(&Vec::new()), "");
}

use cif_parser::{is_block_keyword, is_data_name, is_loop_keyword, special_split};

#[test]
fn test_simple_split() {
    let result = special_split("foo bar baz");
    assert_eq!(result.len(), 3);
    assert_eq!(result[0], ("foo".to_string(), false));
    assert_eq!(result[1], ("bar".to_string(), false));
    assert_eq!(result[2], ("baz".to_string(), false));
}

#[test]
fn test_quoted_string() {
    let result = special_split("'hello world' test");
    assert_eq!(result.len(), 2);
    assert_eq!(result[0], ("'hello world'".to_string(), true));
    assert_eq!(result[1], ("test".to_string(), false));
}

#[test]
fn test_comment() {
    let result = special_split("foo bar # comment");
    assert_eq!(result.len(), 2);
    assert_eq!(result[0], ("foo".to_string(), false));
    assert_eq!(result[1], ("bar".to_string(), false));
}

#[test]
fn test_data_name() {
    assert!(is_data_name("_atom_site.id", false));
    assert!(!is_data_name("_atom_site.id", true));
    assert!(!is_data_name("atom_site", false));
}

#[test]
fn test_keywords() {
    assert!(is_loop_keyword("loop_", false));
    assert!(!is_loop_keyword("loop_", true));

    assert!(is_block_keyword("data_1ABC", false));
    assert!(is_block_keyword("save_test", false));
    assert!(is_block_keyword("global_", false));
    assert!(!is_block_keyword("data_1ABC", true));
}

#[test]
fn split_empty_line_gives_no_token() {
    assert!(special_split("").is_empty());
    assert!(special_split(" \t ").is_empty());
}

#[test]
fn split_inner_apostrophe_is_not_a_quote() {
    let result = special_split("O1' C2' 'a b'");
    assert_eq!(result.len(), 3);
    assert_eq!(result[0], ("O1'".to_string(), false));
    assert_eq!(result[1], ("C2'".to_string(), false));
    assert_eq!(result[2], ("'a b'".to_string(), true));
}

#[test]
fn split_hash_inside_quotes_is_kept() {
    let result = special_split("\"a # b\" c # d");
    assert_eq!(result.len(), 2);
    assert_eq!(result[0], ("\"a # b\"".to_string(), true));
    assert_eq!(result[1], ("c".to_string(), false));
}

#[test]
fn split_unclosed_quote_runs_to_end() {
    let result = special_split("'abc def");
    assert_eq!(result, vec![("'abc def".to_string(), true)]);
}

#[test]
fn split_quote_closes_only_before_blank() {
    let result = special_split("'it's' x");
    assert_eq!(result.len(), 2);
    assert_eq!(result[0], ("'it's'".to_string(), true));
    assert_eq!(result[1], ("x".to_string(), false));
}

#[test]
fn keywords_reject_near_misses() {
    assert!(!is_loop_keyword("loop", false));
    assert!(!is_loop_keyword("loop_x", false));
    assert!(!is_block_keyword("global_x", false));
    assert!(!is_block_keyword("dat_", false));
    assert!(is_block_keyword("data_", false));
    assert!(!is_data_name("", false));
}

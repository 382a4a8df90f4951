use opcode_core::strutil::{
    chars_of, contains_sub, eq_chars, find_sub, join_from, parse_u32, split_lines_vec,
    split_tokens, starts_with, string_of, suffix_from,
};

fn cv(s: &str) -> Vec<char> {
    chars_of(s)
}

#[test]
fn chars_round_trip_through_string() {
    let v = cv("héllo wörld");
    assert_eq!(string_of(&v), "héllo wörld");
}

#[test]
fn substring_search_finds_the_leftmost_occurrence() {
    assert_eq!(find_sub(&cv("abcabc"), &cv("bc")), Some(1));
    assert_eq!(find_sub(&cv("abc"), &cv("zz")), None);
    assert_eq!(find_sub(&cv("abc"), &cv("")), Some(0));
    assert_eq!(find_sub(&cv("ab"), &cv("abc")), None);
    assert!(contains_sub(&cv("xx--resume yy"), &cv("--resume")));
}

#[test]
fn tokenizer_splits_on_runs_of_whitespace() {
    let toks = split_tokens(&cv("  a\tbb   ccc \n"));
    let toks: Vec<String> = toks.iter().map(|t| string_of(t)).collect();
    assert_eq!(toks, vec!["a", "bb", "ccc"]);
    assert!(split_tokens(&cv("   ")).is_empty());
}

#[test]
fn join_rebuilds_with_single_spaces() {
    let toks = split_tokens(&cv("a  b   c d"));
    assert_eq!(string_of(&join_from(&toks, 0)), "a b c d");
    assert_eq!(string_of(&join_from(&toks, 2)), "c d");
    assert_eq!(string_of(&join_from(&toks, 4)), "");
}

#[test]
fn line_splitting_matches_line_semantics() {
    let lines = split_lines_vec(&cv("a\nbb\n\nccc"));
    let lines: Vec<String> = lines.iter().map(|l| string_of(l)).collect();
    assert_eq!(lines, vec!["a", "bb", "", "ccc"]);
    let lines = split_lines_vec(&cv("one\n"));
    assert_eq!(lines.len(), 1);
    assert_eq!(string_of(&lines[0]), "one");
    assert!(split_lines_vec(&cv("")).is_empty());
}

#[test]
fn u32_parsing_accepts_digits_and_plus_only() {
    assert_eq!(parse_u32(&cv("0")), Some(0));
    assert_eq!(parse_u32(&cv("12345")), Some(12345));
    assert_eq!(parse_u32(&cv("+7")), Some(7));
    assert_eq!(parse_u32(&cv("4294967295")), Some(u32::MAX));
    assert_eq!(parse_u32(&cv("4294967296")), None);
    assert_eq!(parse_u32(&cv("99999999999999999999")), None);
    assert_eq!(parse_u32(&cv("")), None);
    assert_eq!(parse_u32(&cv("+")), None);
    assert_eq!(parse_u32(&cv("12a")), None);
    assert_eq!(parse_u32(&cv("-3")), None);
}

#[test]
fn prefix_and_equality_checks() {
    assert!(starts_with(&cv("agent-12"), &cv("agent-")));
    assert!(!starts_with(&cv("agent"), &cv("agent-")));
    assert!(eq_chars(&cv("same"), &cv("same")));
    assert!(!eq_chars(&cv("same"), &cv("sam")));
    let tail = suffix_from(&cv("agent-12"), 6);
    assert_eq!(string_of(&tail), "12");
}

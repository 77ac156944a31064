use std::collections::HashSet;

use dirtree::pattern::{Pattern, PatternError, PatternType};

#[derive(Debug, PartialEq)]
enum T {
    OneOrMore,
    One,
    OneOf(HashSet<char>),
    NotOneOf(HashSet<char>),
    Literal(char),
}

fn set(cs: &[char]) -> HashSet<char> {
    cs.iter().copied().collect()
}

fn tokens(p: &Pattern) -> Vec<T> {
    p.pattern_types()
        .iter()
        .map(|t| match t {
            PatternType::OneOrMore => T::OneOrMore,
            PatternType::One => T::One,
            PatternType::OneOf(v) => T::OneOf(set(v)),
            PatternType::NotOneOf(v) => T::NotOneOf(set(v)),
            PatternType::Literal(c) => T::Literal(*c),
        })
        .collect()
}

fn compile(s: &str) -> Pattern {
    Pattern::parse(s, true).expect("pattern compiles")
}

#[test]
fn parses_asterisk_pattern_base() {
    let result = compile("*");
    assert_eq!(tokens(&result), vec![T::OneOrMore])
}

#[test]
fn parses_question_mark_pattern_base() {
    let result = compile("?");
    assert_eq!(tokens(&result), vec![T::One])
}

#[test]
fn parses_enumerated_bracket_set_base() {
    let result = compile("[abcde]");
    assert_eq!(tokens(&result), vec![T::OneOf(set(&['a', 'b', 'c', 'd', 'e']))])
}

#[test]
fn parses_hyphenated_bracket_range_base() {
    let result = compile("[a-c]");
    assert_eq!(tokens(&result), vec![T::OneOf(set(&['a', 'b', 'c']))])
}

#[test]
fn parses_multi_hyphenated_bracket_ranges() {
    let result = compile("[a-cD-F0-5]");
    assert_eq!(tokens(&result), vec![T::OneOf(set(&[
            'a', 'b', 'c', 'D', 'E', 'F', '0', '1', '2', '3', '4', '5',
        ]))])
}

#[test]
fn parses_combined_patterns() {
    let result = compile("ctx-[a-c]??_t*");
    assert_eq!(tokens(&result), vec![
            T::Literal('c'),
            T::Literal('t'),
            T::Literal('x'),
            T::Literal('-'),
            T::OneOf(set(&['a', 'b', 'c'])),
            T::One,
            T::One,
            T::Literal('_'),
            T::Literal('t'),
            T::OneOrMore,
        ])
}

#[test]
fn one_or_more() {
    let pattern = compile("*");

    let is_match = pattern.is_match("abc");
    assert!(is_match == true);
}

#[test]
fn one_or_more_miss() {
    let pattern = compile("abc*");

    let is_match = pattern.is_match("abc");
    assert!(is_match == false);
}

#[test]
fn one_or_more_surrounded_by_literals() {
    let pattern = compile("a*c");

    let is_match = pattern.is_match("a_b_l_j_k_c");
    assert!(is_match == true);
}

#[test]
fn one_or_more_final_pattern() {
    let pattern = compile("a_b*");

    let is_match = pattern.is_match("a_b_l_j_k_c");
    assert!(is_match == true);
}

#[test]
fn inclusive_bracket_match_enumerated() {
    let pattern = compile("a[bljk_]c");

    let is_match = pattern.is_match("a_c");
    assert!(is_match == true);
}

#[test]
fn inclusive_bracket_match_enumerated_hypen_literal() {
    let pattern = compile("a[bljk_-]c");

    let is_match = pattern.is_match("a-c");
    assert!(is_match == true);
}

#[test]
fn inclusive_bracket_match_range() {
    let pattern = compile("a[b-k]c");

    let is_match = pattern.is_match("ajc");
    assert!(is_match == true);
}

#[test]
fn inclusive_bracket_match_multi_range() {
    let pattern = compile("a[b-k|0-9]c");

    let is_match = pattern.is_match("a7c");
    assert!(is_match == true);
}

#[test]
fn inclusive_bracket_match_range_miss() {
    let pattern = compile("a[b-k]c");

    let is_match = pattern.is_match("alc");
    assert!(is_match == false);
}

#[test]
fn exclusive_bracket_match_enumerated_miss() {
    let pattern = compile("a![bljk_]c");

    let is_match = pattern.is_match("a_c");
    assert!(is_match == false);
}

#[test]
fn exclusive_bracket_match_range_miss() {
    let pattern = compile("a![b-k]c");

    let is_match = pattern.is_match("ajc");
    assert!(is_match == false);
}

#[test]
fn exclusive_bracket_match_range() {
    let pattern = compile("a![b-k]c");

    let is_match = pattern.is_match("alc");
    assert!(is_match == true);
}

#[test]
fn combined_pattern_match() {
    let pattern = compile("ctx-[a-c]??_t*");

    let is_match = pattern.is_match("ctx-bcc_trest");
    assert!(is_match == true);
}

#[test]
fn combined_pattern_match_1() {
    let pattern = compile("ctx-*-[a-c]??_t*");

    let is_match = pattern.is_match("ctx-qrs-bcc_trest");
    assert!(is_match == true);
}

#[test]
fn combined_pattern_match_miss() {
    let pattern = compile("ctx-*-[a-c]??_t*");

    let is_match = pattern.is_match("ctx-qrsbcc_trest-");
    assert!(is_match == false);
}

#[test]
fn combined_pattern_miss() {
    let pattern = compile("ctx-[a-c]??_t*");

    let is_match = pattern.is_match("ctx-bcc_t");
    assert!(is_match == false);
}

#[test]
fn star_matches_every_non_empty_name() {
    let pattern = compile("*");
    for s in ["a", "ab", ".hidden", "with space", "\u{e9}t\u{e9}"] {
        assert!(pattern.is_match(s));
    }
    assert!(!pattern.is_match(""));
}

#[test]
fn one_or_more_needs_a_character_before_the_next_token() {
    assert!(compile("a*c").is_match("a_b_c"));
    assert!(!compile("a*c").is_match("ac"));
    assert!(!compile("abc*").is_match("abc"));
}

#[test]
fn bracket_range_and_negation() {
    assert!(compile("[a-c]").is_match("b"));
    assert!(!compile("[a-c]").is_match("d"));
    assert!(compile("![a-c]").is_match("d"));
    assert!(!compile("![a-c]").is_match("b"));
}

#[test]
fn negated_group_parses_to_none_of() {
    assert_eq!(tokens(&compile("![xy]")), vec![T::NotOneOf(set(&['x', 'y']))]);
}

#[test]
fn hyphen_not_between_alphanumerics_is_a_member() {
    assert_eq!(tokens(&compile("[_-]")), vec![T::OneOf(set(&['_', '-']))]);
    assert_eq!(tokens(&compile("[-a]")), vec![T::OneOf(set(&['-', 'a']))]);
    assert_eq!(tokens(&compile("[a-]")), vec![T::OneOf(set(&['a', '-']))]);
}

#[test]
fn literal_question_mark_and_bang() {
    assert_eq!(
        tokens(&compile("a!b?")),
        vec![T::Literal('a'), T::Literal('!'), T::Literal('b'), T::One]
    );
}

#[test]
fn malformed_patterns_are_rejected() {
    assert_eq!(Pattern::parse("abc]", true).err(), Some(PatternError::UnopenedGroup));
    assert_eq!(Pattern::parse("[]", true).err(), Some(PatternError::EmptyGroup));
    assert_eq!(Pattern::parse("[a-", true).err(), Some(PatternError::MissingRangeEnd));
    assert_eq!(Pattern::parse("[abc", true).err(), Some(PatternError::UnterminatedGroup));
}

#[test]
fn exclusive_pattern_keeps_its_flag() {
    let p = Pattern::parse("*.rs", false).expect("pattern compiles");
    assert!(!p.is_inclusive());
    assert!(compile("x").is_inclusive());
}

#[test]
fn leftover_characters_do_not_matter() {
    assert!(compile("ab").is_match("abcd"));
    assert!(!compile("ab").is_match("a"));
}

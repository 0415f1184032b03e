use rezdir::{
    chunk_plan, glob_pattern_to_regex, glob_regex_string, iso88591_bytes_to_string, matches_any,
    should_extract, without_leading_zero_bytes, without_trailing_spaces,
    without_trailing_zero_bytes,
};

fn compile(pattern: &str) -> regex::Regex {
    glob_pattern_to_regex(pattern).expect("glob should compile")
}

#[test]
fn glob_regex_text() {
    assert_eq!(glob_regex_string("*.txt"), "^[^/]+\\.txt$");
    assert_eq!(glob_regex_string("**.txt"), "^.+\\.txt$");
    assert_eq!(glob_regex_string("a?c"), "^a[^/]c$");
    assert_eq!(glob_regex_string("a\\b"), "^a/b$");
    assert_eq!(glob_regex_string("x*"), "^x[^/]+$");
    assert_eq!(glob_regex_string("x**"), "^x.+$");
    assert_eq!(glob_regex_string("<a>"), "^<a>$");
}

#[test]
fn glob_single_star_stays_within_directory() {
    let filters = vec![compile("*.txt")];
    assert!(matches_any(&filters, "a.txt"));
    assert!(!matches_any(&filters, "dir/a.txt"));
}

#[test]
fn glob_double_star_crosses_directories() {
    let filters = vec![compile("**.txt")];
    assert!(matches_any(&filters, "a.txt"));
    assert!(matches_any(&filters, "dir/a.txt"));
}

#[test]
fn glob_question_mark_single_character() {
    let filters = vec![compile("a?c.txt")];
    assert!(matches_any(&filters, "abc.txt"));
    assert!(!matches_any(&filters, "ac.txt"));
    assert!(!matches_any(&filters, "abbc.txt"));
}

#[test]
fn empty_filter_set_matches_everything() {
    let filters: Vec<regex::Regex> = Vec::new();
    assert!(should_extract(&filters, "anything/at.all"));
    assert!(should_extract(&filters, ""));
}

#[test]
fn several_filters_are_joined_by_or() {
    let filters = vec![compile("*.txt"), compile("*.pcx")];
    assert!(should_extract(&filters, "a.txt"));
    assert!(should_extract(&filters, "b.pcx"));
    assert!(!should_extract(&filters, "c.wav"));
}

#[test]
fn chunk_plan_zero_size_is_empty() {
    assert!(chunk_plan(0, 0x40_0000).is_empty());
}

#[test]
fn chunk_plan_exact_split() {
    assert_eq!(chunk_plan(10, 4), vec![4, 4, 2]);
    assert_eq!(chunk_plan(8, 4), vec![4, 4]);
    assert_eq!(chunk_plan(3, 4), vec![3]);
}

#[test]
fn legacy_decode_is_total_and_length_preserving() {
    let all: Vec<u8> = (0u8..=255).collect();
    let s = iso88591_bytes_to_string(&all);
    assert_eq!(s.chars().count(), 256);
    for (i, c) in s.chars().enumerate() {
        assert_eq!(c as u32, i as u32);
    }
    assert_eq!(iso88591_bytes_to_string(&[0x52, 0x45, 0x5A]), "REZ");
    assert_eq!(iso88591_bytes_to_string(&[0xE9]), "\u{e9}");
    assert_eq!(iso88591_bytes_to_string(&[]), "");
}

#[test]
fn byte_trimming() {
    assert_eq!(without_trailing_zero_bytes(&[1, 2, 0, 0]), &[1, 2]);
    assert_eq!(without_trailing_zero_bytes(&[0, 0]), &[] as &[u8]);
    assert_eq!(without_trailing_zero_bytes(&[0, 1]), &[0, 1]);
    assert_eq!(without_leading_zero_bytes(&[0, 0, 7, 0]), &[7, 0]);
    assert_eq!(without_leading_zero_bytes(&[]), &[] as &[u8]);
    assert_eq!(without_trailing_spaces(b"abc   "), b"abc");
    assert_eq!(without_trailing_spaces(b"   "), b"");
}

use ksmm::pattern::pattern_matches;
use ksmm::rules::RuleSet;
use ksmm::text::join_lines_exec;
use ksmm::text::split_lines;
use ksmm::text::trim_str;
use ksmm::text::u64_to_dec;

#[test]
fn directory_pattern_prefix() {
    assert!(pattern_matches("d/x.txt", "d/"));
    assert!(pattern_matches("d/sub/y.txt", "d/"));
    assert!(!pattern_matches("docs/x.txt", "d/"));
}

#[test]
fn directory_pattern_mid_path() {
    assert!(pattern_matches("src/d/x.txt", "d/"));
    assert!(pattern_matches("a/b/d", "d/"));
    assert!(!pattern_matches("ab/c.txt", "d/"));
}

#[test]
fn directory_pattern_substring_form() {
    // The mid-path form asks only for `/` followed by the stem.
    assert!(pattern_matches("src/data/x.txt", "d/"));
}

#[test]
fn wildcard_suffix_matches() {
    assert!(pattern_matches("a.log", "*.log"));
    assert!(pattern_matches("dir/b.log", "*.log"));
    assert!(!pattern_matches("a.log.txt", "*.log"));
    assert!(!pattern_matches("alog", "*.log"));
}

#[test]
fn wildcard_anchored_both_sides() {
    assert!(pattern_matches("report-2024.txt", "report-*.txt"));
    assert!(!pattern_matches("xreport-2024.txt", "report-*.txt"));
    assert!(!pattern_matches("report-2024.txt.bak", "report-*.txt"));
}

#[test]
fn wildcard_multiple_stars() {
    assert!(pattern_matches("a-middle-b", "a*middle*b"));
    assert!(pattern_matches("amiddleb", "a*middle*b"));
    assert!(!pattern_matches("a-b", "a*middle*b"));
}

#[test]
fn wildcard_dot_is_literal() {
    assert!(!pattern_matches("axlog", "a.log"));
    assert!(pattern_matches("a.log", "a*log"));
}

#[test]
fn exact_pattern_equality() {
    assert!(pattern_matches("README.md", "README.md"));
    assert!(!pattern_matches("README.mdx", "README.md"));
}

#[test]
fn exact_pattern_basename() {
    assert!(pattern_matches("docs/README.md", "README.md"));
    assert!(!pattern_matches("docsREADME.md", "README.md"));
}

#[test]
fn rule_text_splits_into_both_lists() {
    let mut rules = RuleSet::new();
    rules.add_text("# comment\n\n*.log\nbuild/\n!module.prop\n  !system/  \n");
    let ignore: Vec<&str> = rules.ignore.iter().map(|s| s.as_str()).collect();
    let keep: Vec<&str> = rules.keep.iter().map(|s| s.as_str()).collect();
    assert_eq!(ignore, vec!["*.log", "build/"]);
    assert_eq!(keep, vec!["module.prop", "system/"]);
}

#[test]
fn rule_texts_accumulate_in_order() {
    let mut rules = RuleSet::new();
    rules.add_text(".git/\n");
    rules.add_text("target/\n!keep.txt\n");
    let ignore: Vec<&str> = rules.ignore.iter().map(|s| s.as_str()).collect();
    let keep: Vec<&str> = rules.keep.iter().map(|s| s.as_str()).collect();
    assert_eq!(ignore, vec![".git/", "target/"]);
    assert_eq!(keep, vec!["keep.txt"]);
}

#[test]
fn load_takes_generic_rules_first_and_missing_texts_add_nothing() {
    let generic = "*.log\n".to_string();
    let tool = "build/\n!keep.txt\n".to_string();
    let both = RuleSet::load(Some(&generic), Some(&tool));
    let ignore: Vec<&str> = both.ignore.iter().map(|s| s.as_str()).collect();
    let keep: Vec<&str> = both.keep.iter().map(|s| s.as_str()).collect();
    assert_eq!(ignore, vec!["*.log", "build/"]);
    assert_eq!(keep, vec!["keep.txt"]);

    let only_tool = RuleSet::load(None, Some(&tool));
    let ignore: Vec<&str> = only_tool.ignore.iter().map(|s| s.as_str()).collect();
    assert_eq!(ignore, vec!["build/"]);

    let none = RuleSet::load(None, None);
    assert!(none.ignore.is_empty());
    assert!(none.keep.is_empty());
}

#[test]
fn rule_lines_are_trimmed() {
    let mut rules = RuleSet::new();
    rules.add_text("   *.tmp\t\n\t# indented comment\n   \n");
    let ignore: Vec<&str> = rules.ignore.iter().map(|s| s.as_str()).collect();
    assert_eq!(ignore, vec!["*.tmp"]);
    assert!(rules.keep.is_empty());
}

#[test]
fn trim_removes_blanks_on_both_sides() {
    assert_eq!(trim_str("  a b \t\r\n").as_str(), "a b");
    assert_eq!(trim_str("").as_str(), "");
    assert_eq!(trim_str(" \t ").as_str(), "");
    assert_eq!(trim_str("x").as_str(), "x");
    assert_eq!(trim_str("\u{00A0}\u{2003}x\u{3000}").as_str(), "x");
}

#[test]
fn split_and_join_round_trip() {
    let text = "first\nsecond\n\nlast";
    let lines = split_lines(text);
    let parts: Vec<&str> = lines.iter().map(|s| s.as_str()).collect();
    assert_eq!(parts, vec!["first", "second", "", "last"]);
    assert_eq!(join_lines_exec(&lines).as_str(), text);
}

#[test]
fn split_of_empty_text_is_one_empty_line() {
    let lines = split_lines("");
    assert_eq!(lines.len(), 1);
    assert_eq!(lines[0].as_str(), "");
}

#[test]
fn decimal_rendering_exact() {
    assert_eq!(u64_to_dec(0).as_str(), "0");
    assert_eq!(u64_to_dec(7).as_str(), "7");
    assert_eq!(u64_to_dec(1234567890).as_str(), "1234567890");
    assert_eq!(u64_to_dec(2025010203).as_str(), "2025010203");
    assert_eq!(u64_to_dec(u64::MAX).as_str(), "18446744073709551615");
}

#[test]
fn matching_is_total_on_empty_strings() {
    assert!(pattern_matches("", ""));
    assert!(!pattern_matches("a", ""));
    assert!(!pattern_matches("", "a"));
    assert!(pattern_matches("", "*"));
    assert!(pattern_matches("anything/at/all", "*"));
}

#[test]
fn directory_form_wins_over_wildcard_form() {
    // A pattern with both a `*` and a trailing slash is read as a
    // directory pattern, so the `*` is a literal character in it.
    assert!(pattern_matches("x*y/file", "x*y/"));
    assert!(!pattern_matches("xzy/file", "x*y/"));
}

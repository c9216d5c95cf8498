use ksmm::metadata::bump_content;
use ksmm::metadata::is_valid_module_id;
use ksmm::metadata::render_module_prop;
use ksmm::metadata::stamp_content;
use ksmm::metadata::stamp_lines;
use ksmm::metadata::Metadata;
use ksmm::text::split_lines;
use ksmm::version::compute_version_code;
use ksmm::version::current_version_code;

#[test]
fn version_code_formula_exact() {
    assert_eq!(compute_version_code(2025, 1, 2, 3), 2025010203);
    assert_eq!(compute_version_code(2024, 12, 31, 23), 2024123123);
    assert_eq!(compute_version_code(0, 1, 1, 0), 10100);
    assert_eq!(compute_version_code(9999, 12, 31, 23), 9999123123);
}

#[test]
fn version_code_never_decreases_an_hour_later() {
    // Readings an hour apart, across a day, a month and a year boundary.
    assert!(compute_version_code(2025, 6, 10, 11) <= compute_version_code(2025, 6, 10, 12));
    assert!(compute_version_code(2025, 6, 10, 23) <= compute_version_code(2025, 6, 11, 0));
    assert!(compute_version_code(2025, 6, 30, 23) <= compute_version_code(2025, 7, 1, 0));
    assert!(compute_version_code(2025, 12, 31, 23) <= compute_version_code(2026, 1, 1, 0));
}

#[test]
fn current_version_code_is_in_calendar_bounds() {
    let code = current_version_code().unwrap();
    // A sane wall clock reads between the years 2001 and 9999.
    assert!(code > 2000_00_00_00 + 1_00_00_00);
    assert!(code <= 9999_12_31_23);
    assert!(code % 100 <= 23);
    let day = (code / 100) % 100;
    assert!((1..=31).contains(&day));
    let month = (code / 10000) % 100;
    assert!((1..=12).contains(&month));
}

#[test]
fn stamp_replaces_first_version_code_line_only() {
    let lines = split_lines("id=foo\nversionCode=1\nname=bar\nversionCode=2");
    let stamped = stamp_lines(&lines, 42);
    let out: Vec<&str> = stamped.iter().map(|s| s.as_str()).collect();
    assert_eq!(out, vec!["id=foo", "versionCode=42", "name=bar", "versionCode=2"]);
}

#[test]
fn stamp_appends_when_no_version_code_line() {
    let lines = split_lines("id=foo\nname=bar");
    let stamped = stamp_lines(&lines, 7);
    let out: Vec<&str> = stamped.iter().map(|s| s.as_str()).collect();
    assert_eq!(out, vec!["id=foo", "name=bar", "versionCode=7"]);
}

#[test]
fn stamp_preserves_other_lines_verbatim() {
    let content = "# header comment\nid=foo\n\nweird line without key\nversionCode=9\ntail=x";
    let out = stamp_content(content, 2025061012);
    assert_eq!(
        out.as_str(),
        "# header comment\nid=foo\n\nweird line without key\nversionCode=2025061012\ntail=x"
    );
}

#[test]
fn stamp_keeps_a_final_newline() {
    assert_eq!(stamp_content("a=1\n", 5).as_str(), "a=1\nversionCode=5\n");
    assert_eq!(stamp_content("a=1", 5).as_str(), "a=1\nversionCode=5");
    assert_eq!(stamp_content("versionCode=1\n", 5).as_str(), "versionCode=5\n");
}

#[test]
fn bump_content_uses_the_clock_code() {
    let (code, out) = bump_content("id=foo\nversionCode=1").unwrap();
    assert_eq!(out, format!("id=foo\nversionCode={}", code));
}

#[test]
fn metadata_lookup_last_occurrence_wins() {
    let lines = split_lines("id=first\nname=x\nid=second\nbroken line\nempty=");
    let meta = Metadata::load(&lines);
    assert_eq!(meta.get("id").unwrap().as_str(), "second");
    assert_eq!(meta.get("name").unwrap().as_str(), "x");
    assert_eq!(meta.get("empty").unwrap().as_str(), "");
    assert!(meta.get("missing").is_none());
    assert!(meta.get("broken line").is_none());
}

#[test]
fn metadata_value_may_hold_equals_sign() {
    let lines = split_lines("updateJson=https://github.com/u/r?a=b");
    let meta = Metadata::load(&lines);
    assert_eq!(meta.get("updateJson").unwrap().as_str(), "https://github.com/u/r?a=b");
}

#[test]
fn module_prop_rendering_exact() {
    let text = render_module_prop(
        "foo",
        "Foo",
        "0.1.0",
        2025010203,
        "someone",
        "a module",
        "https://github.com/u/r/releases/latest/download/update.json",
    );
    assert_eq!(
        text.as_str(),
        "id=foo\nname=Foo\nversion=0.1.0\nversionCode=2025010203\nauthor=someone\n\
         description=a module\nupdateJson=https://github.com/u/r/releases/latest/download/update.json\n"
    );
}

#[test]
fn module_id_grammar() {
    assert!(is_valid_module_id("foo"));
    assert!(is_valid_module_id("a1.b_c-d"));
    assert!(!is_valid_module_id("f"));
    assert!(!is_valid_module_id("1foo"));
    assert!(!is_valid_module_id("foo bar"));
    assert!(!is_valid_module_id(""));
    assert!(!is_valid_module_id("-foo"));
}

use debth::ignore::ignore_path;
use debth::ignore::ignore_pattern_for_path;
use debth::ignore::normalize_relative;
use debth::ignore::IgnoreError;
use debth::ignore::IgnorePattern;
use debth::ignore::IgnoreRules;
use debth::path::FsPath;
use debth::wildcard::wildcard_match;

fn rules_path(text: &str) -> FsPath {
    let parts = text.split('/').filter(|part| !part.is_empty());
    FsPath::new(text.starts_with('/'), parts.map(|part| part.as_bytes().to_vec()).collect())
}

const IGNORE_HEADER: &str = "# debth ignore file
# Edit this file to unignore paths or add more patterns.
# Blank lines and # comments are ignored. Use !pattern to unignore.
";

#[test]
fn parses_rooted_file_and_directory_patterns() {
    let file = IgnorePattern::parse("/src/main.rs").unwrap();
    assert!(file.matches("src/main.rs", false));
    assert!(!file.matches("other/src/main.rs", false));

    let directory = IgnorePattern::parse("/src/").unwrap();
    assert!(directory.matches("src", true));
    assert!(directory.matches("src/main.rs", false));
    assert!(!directory.matches("other/src/main.rs", false));
}

#[test]
fn parses_gitignore_style_wildcards_and_negations() {
    let wildcard = IgnorePattern::parse("*.log").unwrap();
    assert!(wildcard.matches("debug/app.log", false));
    assert!(!wildcard.matches("debug/app.txt", false));

    let negated = IgnorePattern::parse("!keep.log").unwrap();
    assert!(negated.negated);
    assert!(negated.matches("logs/keep.log", false));
}

#[test]
fn generated_patterns_are_readable_and_rooted() {
    let root = rules_path("/tmp/project");
    let file = ignore_pattern_for_path(&root, &root.join(&rules_path("src/main.rs")), false);
    let directory = ignore_pattern_for_path(&root, &root.join(&rules_path("src")), true);

    assert_eq!(file.unwrap(), "/src/main.rs");
    assert_eq!(directory.unwrap(), "/src/");
}

#[test]
fn blank_lines_and_comments_state_no_rule() {
    for line in ["", "   \t ", "# note", "  # note", "/", "!", "! ", "//", "!/"] {
        assert!(IgnorePattern::parse(line).is_none(), "{line}");
    }
}

#[test]
fn parts_of_a_line_are_told_apart() {
    let pattern = IgnorePattern::parse("  ! /a\\b// ").unwrap();
    assert_eq!(pattern.pattern, "a/b");
    assert!(pattern.negated);
    assert!(pattern.anchored);
    assert!(pattern.dir_only);
    assert!(!pattern.has_slash);

    let plain = IgnorePattern::parse("a/b").unwrap();
    assert_eq!(plain.pattern, "a/b");
    assert!(!plain.negated && !plain.anchored && !plain.dir_only && plain.has_slash);
}

#[test]
fn patterns_with_a_slash_match_any_tail() {
    let pattern = IgnorePattern::parse("src/*.rs").unwrap();
    assert!(pattern.matches("src/a.rs", false));
    assert!(pattern.matches("deep/src/a.rs", false));
    assert!(!pattern.matches("src/a.txt", false));

    let directory = IgnorePattern::parse("a/b/").unwrap();
    assert!(directory.matches("x/a/b/c", false));
    assert!(directory.matches("x/a/b", true));
    assert!(!directory.matches("x/a/b", false));

    let name = IgnorePattern::parse("build/").unwrap();
    assert!(name.matches("x/build/y", false));
    assert!(name.matches("build", true));
    assert!(!name.matches("build", false));
}

#[test]
fn wildcards_stand_for_bytes() {
    assert!(wildcard_match("a?c", "abc"));
    assert!(!wildcard_match("a?c", "ac"));
    assert!(wildcard_match("*", ""));
    assert!(wildcard_match("a*b*c", "a-b-b-c"));
    assert!(!wildcard_match("a*b", "abc"));
    assert!(wildcard_match("", ""));
    assert!(!wildcard_match("", "a"));
    assert!(!wildcard_match("?", "\u{e9}"));
    assert!(wildcard_match("??", "\u{e9}"));
    assert!(!wildcard_match("*b", "*ab"));
    assert!(wildcard_match("x*y", "x*y"));
}

#[test]
fn last_matching_rule_decides() {
    let root = rules_path("/w");
    let rules = IgnoreRules::load(&root, "*.log\n!keep.log\r\n/a/\n");
    assert!(rules.is_ignored(&rules_path("/w/x.log"), false));
    assert!(!rules.is_ignored(&rules_path("/w/keep.log"), false));
    assert!(rules.is_ignored(&rules_path("/w/a"), true));
    assert!(!rules.is_ignored(&rules_path("/w/a"), false));
    assert!(rules.is_ignored(&rules_path("/w/a/keep.log"), false));
    assert!(!rules.is_ignored(&rules_path("/elsewhere/x.log"), false));
    assert!(!rules.is_ignored(&root, true));
}

#[test]
fn added_paths_are_ignored_and_other_rules_stay() {
    let root = rules_path("/w");
    let existing = "*.log\n!keep.log";
    let mut rules = IgnoreRules::load(&root, existing);
    let added = rules.add_path(&rules_path("/w/keep.log"), false, existing).unwrap();
    assert_eq!(added.pattern, "/keep.log");
    assert_eq!(added.content.as_deref(), Some("*.log\n!keep.log\n/keep.log\n"));
    assert!(rules.is_ignored(&rules_path("/w/keep.log"), false));
    assert!(!rules.is_ignored(&rules_path("/w/deep/keep.log"), false));
    assert!(rules.is_ignored(&rules_path("/w/other.log"), false));
}

#[test]
fn new_ignore_file_starts_with_the_header() {
    let root = rules_path("/w");
    let mut rules = IgnoreRules::load(&root, " \n");
    let added = rules.add_path(&rules_path("/w/a/b"), true, " \n").unwrap();
    assert_eq!(added.content.unwrap(), format!("{IGNORE_HEADER}/a/b/\n"));
    assert!(rules.is_ignored(&rules_path("/w/a/b"), true));
    assert!(rules.is_ignored(&rules_path("/w/a/b/c/d"), false));
}

#[test]
fn line_that_is_there_is_not_added_again() {
    let root = rules_path("/w");
    let mut rules = IgnoreRules::load(&root, "");
    let added = rules.add_path(&rules_path("/w/a"), false, "  /a \n").unwrap();
    assert_eq!(added.content, None);
    assert!(rules.is_ignored(&rules_path("/w/a"), false));
}

#[test]
fn unignored_paths_come_back() {
    let root = rules_path("/w");
    let rules = IgnoreRules::load(&root, "/a/\n!/a/\n");
    assert!(!rules.is_ignored(&rules_path("/w/a"), true));
    assert!(!rules.is_ignored(&rules_path("/w/a/b"), false));
}

#[test]
fn paths_outside_and_the_root_cannot_be_ignored() {
    let root = rules_path("/w");
    let mut rules = IgnoreRules::load(&root, "");
    let outside = rules.add_path(&rules_path("/x"), false, "").unwrap_err();
    assert!(matches!(outside, IgnoreError::Outside { .. }));
    assert_eq!(outside.message(), "/x is outside /w");
    let itself = rules.add_path(&root, true, "").unwrap_err();
    assert!(matches!(itself, IgnoreError::WorkspaceRoot));
    assert_eq!(itself.message(), "cannot ignore the workspace root itself");
}

#[test]
fn ignore_file_lies_in_the_state_directory() {
    assert_eq!(ignore_path(&rules_path("/w")).to_text(), "/w/.debth/ignore");
    assert_eq!(normalize_relative(&rules_path("")), None);
    assert_eq!(normalize_relative(&rules_path("a/b")).as_deref(), Some("a/b"));
}

#[test]
fn names_that_are_no_text_are_repaired() {
    let root = rules_path("/w");
    let path = root.child(&[0x61, 0xff]);
    assert_eq!(ignore_pattern_for_path(&root, &path, false).unwrap(), "/a\u{fffd}");
    assert_eq!(path.to_text(), "/w/a\u{fffd}");
}

#[test]
fn path_that_is_added_twice_is_written_once() {
    let root = rules_path("/w");
    let mut rules = IgnoreRules::load(&root, "*.log");
    let first = rules.add_path(&rules_path("/w/a"), true, "*.log").unwrap();
    let content = first.content.unwrap();
    assert_eq!(content, "*.log\n/a/\n");
    let second = rules.add_path(&rules_path("/w/a"), true, &content).unwrap();
    assert_eq!(second.content, None);
}

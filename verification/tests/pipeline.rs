//! The diff pipeline end to end, and the walker and reducer on their own.

use fixme_report::error::PipelineError;
use fixme_report::issue_tracker::Templates;
use fixme_report::parser::{
    get_patched_or_added_files, parse_git_diff, parse_string, reduce_hunk, DiffFile, DiffHunk,
    DiffLine, DiffPatchSet,
};

fn no_templates() -> Templates {
    Templates { todo: None, fixme: None }
}

fn line(added: bool, target_line: Option<u64>, value: &str) -> DiffLine {
    DiffLine { added, target_line, value: String::from(value) }
}

#[test]
fn single_hunk_diff_yields_one_issue() {
    let diff = "--- a/app.rs\n+++ b/app.rs\n@@ -41,0 +42,1 @@\n+// TODO: fix this\n";
    let issues = parse_git_diff(String::from(diff), &no_templates()).unwrap();
    assert_eq!(issues.len(), 1);
    let issue = &issues[0];
    assert_eq!(issue.title, "Todo: fix this");
    assert!(issue.details.contains("Filename: \"app.rs\""));
    assert!(issue.details.contains("Line: 42"));
    assert_eq!(issue.reference, None);
    assert_eq!(issue.status, "open");
}

#[test]
fn removed_and_context_lines_yield_nothing() {
    let diff = "--- a/x.rs\n+++ b/x.rs\n@@ -1,3 +1,2 @@\n context\n-// TODO: removed\n context\n";
    let issues = parse_git_diff(String::from(diff), &no_templates()).unwrap();
    assert_eq!(issues.len(), 0);
}

#[test]
fn malformed_diff_is_a_parse_error() {
    let diff = "@@ -1,2 +1,2 @@\n context\n";
    let r = parse_git_diff(String::from(diff), &no_templates());
    assert!(matches!(r, Err(PipelineError::ParseError(_))));
}

#[test]
fn oversized_hunk_header_numeral_is_rejected() {
    let diff =
        "--- a/f.rs\n+++ b/f.rs\n@@ -1,1 +99999999999999999999999999,1 @@\n+// TODO: big\n";
    let r = parse_git_diff(String::from(diff), &no_templates());
    assert!(matches!(r, Err(PipelineError::UnsupportedDiffShape)));
}

#[test]
fn ten_digit_hunk_header_numeral_is_rejected() {
    let diff = "--- a/f.rs\n+++ b/f.rs\n@@ -1,1 +1234567890,1 @@\n+// TODO: far\n";
    let r = parse_git_diff(String::from(diff), &no_templates());
    assert!(matches!(r, Err(PipelineError::UnsupportedDiffShape)));
}

#[test]
fn nine_digit_line_numbers_are_processed() {
    let diff = "--- a/f.rs\n+++ b/f.rs\n@@ -999999999,0 +999999999,1 @@\n+// TODO: far away\n";
    let issues = parse_git_diff(String::from(diff), &no_templates()).unwrap();
    assert_eq!(issues.len(), 1);
    assert!(issues[0].details.contains("Line: 999999999"));
}

#[test]
fn long_numerals_in_added_lines_are_no_hunk_headers() {
    let diff = "--- a/f.rs\n+++ b/f.rs\n@@ -1,0 +1,1 @@\n+// TODO: call 99999999999999999999\n";
    let issues = parse_git_diff(String::from(diff), &no_templates()).unwrap();
    assert_eq!(issues.len(), 1);
    assert_eq!(issues[0].title, "Todo: call 99999999999999999999");
}

#[test]
fn junk_header_position_lines_are_inert() {
    let diff = "--- a/f.rs\n+++ b/f.rs\n@@ -1,0 +1,1 @@\n+x\n@@ -broken header\n";
    let issues = parse_git_diff(String::from(diff), &no_templates()).unwrap();
    assert_eq!(issues.len(), 0);
}

#[test]
fn pattern_free_header_junk_is_accepted() {
    let issues = parse_git_diff(String::from("@@ -x\n"), &no_templates()).unwrap();
    assert_eq!(issues.len(), 0);
}

#[test]
fn target_header_without_source_is_rejected() {
    let r = parse_git_diff(String::from("+++ b/foo"), &no_templates());
    assert!(matches!(r, Err(PipelineError::UnsupportedDiffShape)));
}

#[test]
fn non_ascii_text_in_header_position_is_rejected() {
    let diff = "@@ -\u{0663} +1 @@\n";
    let r = parse_git_diff(String::from(diff), &no_templates());
    assert!(matches!(r, Err(PipelineError::UnsupportedDiffShape)));
}

#[test]
fn issues_follow_file_then_hunk_then_line_order() {
    let diff = "--- a/one.rs\n+++ b/one.rs\n@@ -1,0 +1,2 @@\n+// TODO: a\n+// FIXME: b\n@@ -10,0 +20,1 @@\n+// TODO: c\n--- a/two.rs\n+++ b/two.rs\n@@ -5,0 +7,1 @@\n+// FIXME: d\n";
    let issues = parse_git_diff(String::from(diff), &no_templates()).unwrap();
    let titles: Vec<&str> = issues.iter().map(|i| i.title.as_str()).collect();
    assert_eq!(titles, vec!["Todo: a", "Fixme: b", "Todo: c", "Fixme: d"]);
    assert!(issues[0].details.contains("Line: 1"));
    assert!(issues[1].details.contains("Line: 2"));
    assert!(issues[2].details.contains("Line: 20"));
    assert!(issues[3].details.contains("Filename: \"two.rs\""));
}

#[test]
fn parse_string_renders_scanned_annotations() {
    let blob = "// TODO: one\nplain\n// FIXME: two";
    let issues = parse_string(
        String::from(blob),
        String::from("dir/f.rs"),
        7,
        &no_templates(),
    )
    .unwrap();
    assert_eq!(issues.len(), 2);
    assert_eq!(issues[0].title, "Todo: one");
    assert!(issues[0].details.contains("Line: 7"));
    assert_eq!(issues[1].title, "Fixme: two");
    assert!(issues[1].details.contains("Line: 9"));
    assert!(issues[1].details.contains("Filename: \"dir/f.rs\""));
}

#[test]
fn reducer_joins_added_lines_and_takes_first_target() {
    let hunk = DiffHunk {
        lines: vec![
            line(false, Some(4), "context"),
            line(true, Some(5), "first"),
            line(false, None, "more context"),
            line(true, Some(7), "second"),
        ],
    };
    let r = reduce_hunk(&hunk).unwrap();
    assert_eq!(r.0, 5);
    assert_eq!(r.1, "first\nsecond");
}

#[test]
fn reducer_yields_nothing_without_added_lines() {
    let hunk = DiffHunk {
        lines: vec![line(false, Some(1), "a"), line(false, None, "b")],
    };
    assert_eq!(reduce_hunk(&hunk), None);
}

#[test]
fn walker_strips_two_path_characters_and_orders_files() {
    let patch = DiffPatchSet {
        modified: vec![DiffFile {
            target_file: String::from("b/src/main.rs"),
            hunks: vec![DiffHunk { lines: vec![line(true, Some(3), "x")] }],
        }],
        added: vec![DiffFile {
            target_file: String::from("b/new.rs"),
            hunks: vec![
                DiffHunk { lines: vec![line(false, Some(1), "ctx")] },
                DiffHunk { lines: vec![line(true, Some(8), "y")] },
            ],
        }],
    };
    let frags = get_patched_or_added_files(&patch);
    assert_eq!(frags.len(), 2);
    assert_eq!(frags[0].filename, "src/main.rs");
    assert_eq!(frags[0].line, 3);
    assert_eq!(frags[0].diff, "x");
    assert_eq!(frags[1].filename, "new.rs");
    assert_eq!(frags[1].line, 8);
    assert_eq!(frags[1].diff, "y");
}

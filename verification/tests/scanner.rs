//! The annotation scanner: line numbers, ordering, and stability.

use fixme_report::parser::{parse, scan, Annotation, Comment};
use fixme_report::text::{split_lines, to_lowercase_ascii, u64_to_string};

#[test]
fn scans_whole_file_from_line_one() {
    let text = "fn main() {}\n// TODO: first\nsome code\n//FIXME: second\n";
    let r = parse(text, "src/a.rs");
    assert_eq!(
        r,
        vec![
            Annotation::Todo(Comment {
                line: 2,
                file: String::from("src/a.rs"),
                details: String::from("first"),
            }),
            Annotation::FixMe(Comment {
                line: 4,
                file: String::from("src/a.rs"),
                details: String::from("second"),
            }),
        ]
    );
}

#[test]
fn scan_adds_offset_to_zero_based_index() {
    let blob = "plain\n// TODO: here";
    let r = scan(blob, "f.rs", 10);
    assert_eq!(
        r,
        vec![Annotation::Todo(Comment {
            line: 11,
            file: String::from("f.rs"),
            details: String::from("here"),
        })]
    );
}

#[test]
fn scan_is_idempotent_and_order_stable() {
    let blob = "// FIXME: a\nx\n// TODO: b\n// TODO: c";
    let first = scan(blob, "f.rs", 5);
    let second = scan(blob, "f.rs", 5);
    assert_eq!(first, second);
    assert_eq!(first.len(), 3);
}

#[test]
fn scan_of_blob_without_markers_is_empty() {
    let r = scan("nothing\nto\nsee", "f.rs", 1);
    assert_eq!(r, vec![]);
}

#[test]
fn split_lines_handles_terminators() {
    let lines = split_lines("a\r\nb\nc");
    assert_eq!(lines, vec![String::from("a"), String::from("b"), String::from("c")]);
    assert_eq!(split_lines(""), Vec::<String>::new());
    assert_eq!(split_lines("\n"), vec![String::from("")]);
    assert_eq!(split_lines("a\n"), vec![String::from("a")]);
    assert_eq!(split_lines("a\r"), vec![String::from("a\r")]);
}

#[test]
fn u64_renders_in_decimal() {
    assert_eq!(u64_to_string(0), "0");
    assert_eq!(u64_to_string(42), "42");
    assert_eq!(u64_to_string(1234567890), "1234567890");
    assert_eq!(u64_to_string(u64::MAX), "18446744073709551615");
}

#[test]
fn ascii_lowercase_leaves_other_characters() {
    assert_eq!(to_lowercase_ascii("GitHub-123 É"), "github-123 É");
}

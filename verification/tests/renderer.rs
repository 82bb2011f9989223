//! The issue renderer: titles, truncation, default bodies, templates.

use fixme_report::error::PipelineError;
use fixme_report::issue_tracker::{Issue, Templates};
use fixme_report::parser::{Annotation, Comment};

fn no_templates() -> Templates {
    Templates { todo: None, fixme: None }
}

fn todo_annotation(details: &str) -> Annotation {
    Annotation::Todo(Comment {
        line: 3,
        file: String::from("src/lib.rs"),
        details: String::from(details),
    })
}

#[test]
fn new_issue_has_open_status_and_no_reference() {
    let issue = Issue::new(String::from("t"), String::from("d"));
    assert_eq!(issue.reference, None);
    assert_eq!(issue.title, "t");
    assert_eq!(issue.details, "d");
    assert_eq!(issue.status, "open");
}

#[test]
fn short_details_render_whole_title() {
    let details = "a".repeat(60);
    let issue = Issue::from(todo_annotation(&details), &no_templates()).unwrap();
    assert_eq!(issue.title, format!("Todo: {}", details));
}

#[test]
fn sixty_one_character_details_truncate_to_sixty() {
    let details = "b".repeat(61);
    let issue = Issue::from(todo_annotation(&details), &no_templates()).unwrap();
    let title = issue.title;
    assert!(title.ends_with("..."));
    let middle = &title["Todo: ".len()..title.len() - 3];
    assert_eq!(middle.chars().count(), 60);
    assert_eq!(middle, &details[..60]);
}

#[test]
fn truncation_counts_characters_not_bytes() {
    let details: String = "é".repeat(61);
    let issue = Issue::from(todo_annotation(&details), &no_templates()).unwrap();
    let title = issue.title;
    assert!(title.ends_with("..."));
    let middle = &title["Todo: ".len()..title.len() - 3];
    assert_eq!(middle.chars().count(), 60);
}

#[test]
fn fixme_title_uses_fixme_prefix() {
    let ann = Annotation::FixMe(Comment {
        line: 1,
        file: String::from("f"),
        details: String::from("short"),
    });
    let issue = Issue::from(ann, &no_templates()).unwrap();
    assert_eq!(issue.title, "Fixme: short");
}

#[test]
fn default_body_lists_file_line_and_comment() {
    let issue = Issue::from(todo_annotation("watch out"), &no_templates()).unwrap();
    assert_eq!(
        issue.details,
        "+ Filename: \"src/lib.rs\"\n+ Line: 3\n+ Comment: watch out"
    );
    assert_eq!(issue.status, "open");
    assert_eq!(issue.reference, None);
}

#[test]
fn configured_template_renders_comment_fields() {
    let templates = Templates {
        todo: Some(String::from("{{file}} at {{line}}: {{details}}")),
        fixme: None,
    };
    let issue = Issue::from(todo_annotation("do it"), &templates).unwrap();
    assert_eq!(issue.details, "src/lib.rs at 3: do it");
}

#[test]
fn template_is_selected_by_marker_kind() {
    let templates = Templates {
        todo: Some(String::from("todo template")),
        fixme: Some(String::from("fixme {{details}}")),
    };
    let ann = Annotation::FixMe(Comment {
        line: 9,
        file: String::from("f"),
        details: String::from("x"),
    });
    let issue = Issue::from(ann, &templates).unwrap();
    assert_eq!(issue.details, "fixme x");
}

#[test]
fn failing_template_render_is_an_error() {
    let templates = Templates { todo: Some(String::from("{{#if}}")), fixme: None };
    let r = Issue::from(todo_annotation("x"), &templates);
    assert!(matches!(r, Err(PipelineError::TemplateError(_))));
}

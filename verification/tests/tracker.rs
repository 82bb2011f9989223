//! The configuration rule and the tracker client's verifiable side.

use fixme_report::config::Config;
use fixme_report::error::PipelineError;
use fixme_report::issue_tracker::{new, GithubClient, Issue, IssueFields, IssueTracker};

fn sample_config(kind: &str) -> Config {
    Config {
        kind: String::from(kind),
        url: String::from("https://github.com"),
        repository: String::from("acme/widgets"),
        username: String::from("user"),
        token: String::from("sometoken"),
    }
}

#[test]
fn known_tracker_types_are_valid_case_insensitively() {
    assert!(sample_config("github").is_valid().is_ok());
    assert!(sample_config("GitHub").is_valid().is_ok());
    assert!(sample_config("BitbucketCloud").is_valid().is_ok());
    assert!(sample_config("bitbucketserver").is_valid().is_ok());
}

#[test]
fn unknown_tracker_type_is_rejected_with_its_name() {
    let r = sample_config("Jira").is_valid();
    match r {
        Err(PipelineError::UnknownConfigType(name)) => assert_eq!(name, "jira"),
        _ => panic!("expected an unknown-configuration-type error"),
    }
}

#[test]
fn tracker_is_chosen_by_lowercased_name() {
    assert_eq!(IssueTracker::from(String::from("GitHub")), IssueTracker::Github);
    assert_eq!(
        IssueTracker::from(String::from("bitbucketcloud")),
        IssueTracker::BitbucketCloud
    );
    assert_eq!(
        IssueTracker::from(String::from("BITBUCKETSERVER")),
        IssueTracker::BitbucketServer
    );
}

#[test]
fn client_is_built_from_the_configuration() {
    let client = new(sample_config("github"));
    let mut issue = Issue::new(String::from("t"), String::from("d"));
    assert_eq!(client.get_issue_url(&issue), None);
    issue.reference = Some(String::from("12"));
    assert_eq!(
        client.get_issue_url(&issue),
        Some(String::from("https://github.com/acme/widgets/issues/12"))
    );
}

#[test]
fn failure_status_becomes_an_http_error() {
    let r = GithubClient::issue_from_response(404, String::from("not found"), None);
    match r {
        Err(PipelineError::HttpError { status_code, body }) => {
            assert_eq!(status_code, 404);
            assert_eq!(body, "not found");
        },
        _ => panic!("expected an http error"),
    }
}

#[test]
fn missing_response_body_yields_the_empty_issue() {
    let issue = GithubClient::issue_from_response(201, String::new(), None).unwrap();
    assert_eq!(issue.reference, None);
    assert_eq!(issue.title, "");
    assert_eq!(issue.details, "");
    assert_eq!(issue.status, "");
}

#[test]
fn response_fields_become_the_created_issue() {
    let fields = IssueFields {
        title: String::from("Todo: x"),
        details: String::from("body"),
        status: String::from("open"),
        number: 42,
    };
    let issue = GithubClient::issue_from_response(201, String::new(), Some(fields)).unwrap();
    assert_eq!(issue.reference, Some(String::from("42")));
    assert_eq!(issue.title, "Todo: x");
    assert_eq!(issue.details, "body");
    assert_eq!(issue.status, "open");
}

//! The issue renderer: turning a typed annotation into an issue title and
//! body, optionally through a user-supplied template.
//!
//! Submitting the finished issues to a remote tracker is the surrounding
//! program's work: the library builds the client's coordinates (`new`)
//! and interprets what the tracker answers
//! (`GithubClient::issue_from_response`), while the transport that
//! carries the request stays outside.

mod github;

use vstd::prelude::*;
use vstd::string::StrSliceExecFns;
use vstd::string::StringExecFns;

use crate::config::Config;
use crate::error::PipelineError;
use crate::parser::{ann_view, rendered_template, AnnSpec, Annotation, Comment};
use crate::text::{dec_of, u64_to_string};

pub use github::GithubClient;
pub use github::IssueFields;

verus! {

/// The supported issue trackers.
#[derive(Debug, PartialEq, Eq, Structural, Clone, Copy)]
pub enum IssueTracker {
    Github,
    BitbucketCloud,
    BitbucketServer,
}

/// The optional template sources, one per marker kind, supplied once per
/// pipeline run.
pub struct Templates {
    pub todo: Option<String>,
    pub fixme: Option<String>,
}

/// The ghost shape of the template configuration.
pub struct TemplatesV {
    pub todo: Option<Seq<char>>,
    pub fixme: Option<Seq<char>>,
}

impl View for Templates {
    type V = TemplatesV;

    open spec fn view(&self) -> TemplatesV {
        TemplatesV {
            todo: match self.todo {
                Some(t) => Some(t@),
                None => None,
            },
            fixme: match self.fixme {
                Some(t) => Some(t@),
                None => None,
            },
        }
    }
}

/// An issue ready for submission to a tracker. The tracker-assigned
/// reference is absent until the issue is created remotely.
#[derive(Debug, PartialEq, Clone)]
pub struct Issue {
    pub reference: Option<String>,
    pub title: String,
    pub details: String,
    pub status: String,
}

/// The ghost shape of an `Issue`.
pub struct IssueV {
    pub reference: Option<Seq<char>>,
    pub title: Seq<char>,
    pub details: Seq<char>,
    pub status: Seq<char>,
}

impl View for Issue {
    type V = IssueV;

    open spec fn view(&self) -> IssueV {
        IssueV {
            reference: match self.reference {
                Some(r) => Some(r@),
                None => None,
            },
            title: self.title@,
            details: self.details@,
            status: self.status@,
        }
    }
}

pub open spec fn open_status() -> Seq<char> {
    seq!['o', 'p', 'e', 'n']
}

/// The title's marker prefix.
pub open spec fn title_prefix(fixme: bool) -> Seq<char> {
    if fixme {
        seq!['F', 'i', 'x', 'm', 'e', ':', ' ']
    } else {
        seq!['T', 'o', 'd', 'o', ':', ' ']
    }
}

/// The title rule: the marker prefix, then the details; details longer
/// than sixty characters are cut at sixty and get a `...` suffix.
pub open spec fn spec_title(fixme: bool, details: Seq<char>) -> Seq<char> {
    if details.len() <= 60 {
        title_prefix(fixme) + details
    } else {
        title_prefix(fixme) + details.take(60) + seq!['.', '.', '.']
    }
}

/// The default body: a three-line block listing the quoted filename, the
/// line number, and the comment text verbatim.
pub open spec fn default_body(file: Seq<char>, line: u64, details: Seq<char>) -> Seq<char> {
    seq!['+', ' ', 'F', 'i', 'l', 'e', 'n', 'a', 'm', 'e', ':', ' ', '"'] + file + seq![
        '"',
        '\n',
        '+',
        ' ',
        'L',
        'i',
        'n',
        'e',
        ':',
        ' ',
    ] + dec_of(line as nat) + seq!['\n', '+', ' ', 'C', 'o', 'm', 'm', 'e', 'n', 't', ':', ' ']
        + details
}

/// The template the configuration assigns to an annotation's marker.
pub open spec fn template_for(fixme: bool, t: TemplatesV) -> Option<Seq<char>> {
    if fixme {
        t.fixme
    } else {
        t.todo
    }
}

/// Whether the configured template (if any) renders for this annotation.
/// With no template configured the renderer always succeeds.
pub open spec fn render_ok(a: AnnSpec, file: Seq<char>, t: TemplatesV) -> bool {
    match template_for(a.fixme, t) {
        Some(tpl) => rendered_template(tpl, a.line, file, a.details) is Some,
        None => true,
    }
}

/// The body the renderer owes for an annotation.
pub open spec fn spec_body(a: AnnSpec, file: Seq<char>, t: TemplatesV) -> Seq<char> {
    match template_for(a.fixme, t) {
        Some(tpl) => match rendered_template(tpl, a.line, file, a.details) {
            Some(b) => b,
            None => Seq::empty(),
        },
        None => default_body(file, a.line, a.details),
    }
}

/// The issue the renderer owes for an annotation when it succeeds.
pub open spec fn spec_issue(a: AnnSpec, file: Seq<char>, t: TemplatesV) -> IssueV {
    IssueV {
        reference: None,
        title: spec_title(a.fixme, a.details),
        details: spec_body(a, file, t),
        status: open_status(),
    }
}

/// Title truncation: details of at most sixty characters appear whole
/// after the marker prefix; longer details are cut at their first sixty
/// characters and end in `...`.
pub proof fn lemma_title_truncation(fixme: bool, details: Seq<char>)
    ensures
        details.len() <= 60 ==> spec_title(fixme, details) == title_prefix(fixme) + details,
        details.len() > 60 ==> spec_title(fixme, details) == title_prefix(fixme) + details.take(60)
            + seq!['.', '.', '.'],
        details.len() > 60 ==> spec_title(fixme, details).len() == title_prefix(fixme).len() + 63,
{
}

fn build_title(fixme: bool, details: &String) -> (r: String)
    ensures
        r@ == spec_title(fixme, details@),
{
    proof {
        reveal_strlit("Fixme: ");
        reveal_strlit("Todo: ");
        reveal_strlit("...");
    }
    let mut t = if fixme {
        String::from_str("Fixme: ")
    } else {
        String::from_str("Todo: ")
    };
    proof {
        assert(t@ =~= title_prefix(fixme));
    }
    let n = details.as_str().unicode_len();
    if n <= 60 {
        t.append(details.as_str());
        proof {
            assert(t@ =~= spec_title(fixme, details@));
        }
    } else {
        t.append(details.as_str().substring_char(0, 60));
        t.append("...");
        proof {
            assert(details@.subrange(0, 60) =~= details@.take(60));
            assert(t@ =~= spec_title(fixme, details@));
        }
    }
    t
}

fn build_default_body(c: &Comment) -> (r: String)
    ensures
        r@ == default_body(c.file@, c.line, c.details@),
{
    proof {
        reveal_strlit("+ Filename: \"");
        reveal_strlit("\"\n+ Line: ");
        reveal_strlit("\n+ Comment: ");
    }
    let mut b = String::from_str("+ Filename: \"");
    b.append(c.file.as_str());
    b.append("\"\n+ Line: ");
    let num = u64_to_string(c.line);
    b.append(num.as_str());
    b.append("\n+ Comment: ");
    b.append(c.details.as_str());
    proof {
        assert(b@ =~= default_body(c.file@, c.line, c.details@));
    }
    b
}

impl Issue {
    /// A fresh issue: no tracker reference yet, status `open`.
    pub fn new(title: String, details: String) -> (r: Issue)
        ensures
            r@.reference is None,
            r@.title == title@,
            r@.details == details@,
            r@.status == open_status(),
    {
        proof {
            reveal_strlit("open");
        }
        let r = Issue { reference: None, title, details, status: String::from_str("open") };
        proof {
            assert(r.status@ =~= open_status());
        }
        r
    }

    /// The issue renderer: one annotation becomes one issue, through the
    /// configured template for its marker kind if there is one, else with
    /// the default body. A failing template render is an error.
    pub fn from(annotation: Annotation, templates: &Templates) -> (r: Result<Issue, PipelineError>)
        ensures
            ({
                let a = ann_view(annotation);
                let file = annotation.comment().file@;
                match r {
                    Ok(issue) => render_ok(a, file, templates@) && issue@ == spec_issue(
                        a,
                        file,
                        templates@,
                    ),
                    Err(e) => !render_ok(a, file, templates@) && e is TemplateError,
                }
            }),
    {
        let (comment, fixme) = match annotation {
            Annotation::FixMe(c) => (c, true),
            Annotation::Todo(c) => (c, false),
        };
        let title = build_title(fixme, &comment.details);
        let tpl = if fixme {
            &templates.fixme
        } else {
            &templates.todo
        };
        let details = match tpl {
            Some(t) => match comment.render(t.as_str()) {
                Ok(b) => b,
                Err(e) => {
                    return Err(e);
                },
            },
            None => build_default_body(&comment),
        };
        Ok(Issue::new(title, details))
    }
}

impl Default for Issue {
    /// An empty issue: every field empty, no reference.
    fn default() -> (r: Issue)
        ensures
            r@.reference is None,
            r@.title == Seq::<char>::empty(),
            r@.details == Seq::<char>::empty(),
            r@.status == Seq::<char>::empty(),
    {
        Issue {
            reference: None,
            title: String::new(),
            details: String::new(),
            status: String::new(),
        }
    }
}

/// Builds the tracker client a configuration names.
pub fn new(config: Config) -> (r: GithubClient)
    ensures
        r.url@ == config.url@,
        r.username@ == config.username@,
        r.token@ == config.token@,
        r.repository_slug@ == config.repository@,
{
    GithubClient::new(config.url, config.username, config.token, config.repository)
}

} // verus!

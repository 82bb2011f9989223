//! The GitHub tracker client's verifiable side: its coordinates, issue
//! URLs, and the interpretation of a creation response.

use vstd::prelude::*;
use vstd::string::StrSliceExecFns;
use vstd::string::StringExecFns;

use crate::error::PipelineError;
use crate::issue_tracker::{Issue, IssueV};
use crate::text::{dec_of, u64_to_string};

verus! {

/// The coordinates of a remote GitHub repository.
pub struct GithubClient {
    pub url: String,
    pub username: String,
    pub token: String,
    pub repository_slug: String,
}

/// The fields a tracker's creation response carries for the new issue.
pub struct IssueFields {
    pub title: String,
    pub details: String,
    pub status: String,
    pub number: i64,
}

/// The decimal rendering of a signed number.
pub open spec fn dec_of_int(n: int) -> Seq<char> {
    if n < 0 {
        seq!['-'] + dec_of((-n) as nat)
    } else {
        dec_of(n as nat)
    }
}

/// Renders a signed number in decimal.
fn i64_to_string(n: i64) -> (r: String)
    ensures
        r@ == dec_of_int(n as int),
{
    if n >= 0 {
        u64_to_string(n as u64)
    } else {
        proof {
            reveal_strlit("-");
        }
        let m: u64 = ((-(n + 1)) as u64) + 1;
        let mut s = String::from_str("-");
        let mag = u64_to_string(m);
        s.append(mag.as_str());
        proof {
            assert(m as int == -(n as int));
            assert(s@ =~= dec_of_int(n as int));
        }
        s
    }
}

/// The web address of an issue: base URL, repository slug, and the
/// issue's reference, joined in the tracker's path shape.
pub open spec fn issue_url(base: Seq<char>, slug: Seq<char>, rf: Seq<char>) -> Seq<char> {
    base + seq!['/'] + slug + seq!['/', 'i', 's', 's', 'u', 'e', 's', '/'] + rf
}

impl GithubClient {
    /// A client for one repository.
    pub fn new(url: String, username: String, token: String, repository_slug: String) -> (r:
        GithubClient)
        ensures
            r.url@ == url@,
            r.username@ == username@,
            r.token@ == token@,
            r.repository_slug@ == repository_slug@,
    {
        GithubClient { url, username, token, repository_slug }
    }

    /// The web address of an issue that has a tracker reference; an issue
    /// never created remotely has none.
    pub fn get_issue_url(&self, issue: &Issue) -> (r: Option<String>)
        ensures
            match issue.reference {
                Some(rf) => r matches Some(u) && u@ == issue_url(
                    self.url@,
                    self.repository_slug@,
                    rf@,
                ),
                None => r is None,
            },
    {
        match &issue.reference {
            Some(rf) => {
                proof {
                    reveal_strlit("/");
                    reveal_strlit("/issues/");
                }
                let mut u = self.url.clone();
                u.append("/");
                u.append(self.repository_slug.as_str());
                u.append("/issues/");
                u.append(rf.as_str());
                proof {
                    assert(u@ =~= issue_url(self.url@, self.repository_slug@, rf@));
                }
                Some(u)
            },
            None => None,
        }
    }

    /// Interprets a creation response: a failure status becomes an error
    /// carrying the response body; a success without a body yields the
    /// empty issue; a success with fields yields those fields, with the
    /// issue number rendered as the tracker reference.
    pub fn issue_from_response(
        status_code: u16,
        body: String,
        fields: Option<IssueFields>,
    ) -> (r: Result<Issue, PipelineError>)
        ensures
            ({
                if status_code >= 400 {
                    match r {
                        Err(e) => match e {
                            PipelineError::HttpError { status_code: sc, body: b } => sc
                                == status_code && b@ == body@,
                            _ => false,
                        },
                        Ok(_) => false,
                    }
                } else {
                    match (r, fields) {
                        (Ok(i), None) => i@ == (IssueV {
                            reference: None,
                            title: Seq::empty(),
                            details: Seq::empty(),
                            status: Seq::empty(),
                        }),
                        (Ok(i), Some(f)) => i@ == (IssueV {
                            reference: Some(dec_of_int(f.number as int)),
                            title: f.title@,
                            details: f.details@,
                            status: f.status@,
                        }),
                        _ => false,
                    }
                }
            }),
    {
        if status_code >= 400 {
            return Err(PipelineError::HttpError { status_code, body });
        }
        match fields {
            None => Ok(Issue::default()),
            Some(f) => Ok(
                Issue {
                    reference: Some(i64_to_string(f.number)),
                    title: f.title,
                    details: f.details,
                    status: f.status,
                },
            ),
        }
    }
}

} // verus!

//! The tracker configuration and its validity rule.

use vstd::prelude::*;
use vstd::string::StrSliceExecFns;
use vstd::string::StringExecFns;

use crate::error::PipelineError;
use crate::issue_tracker::IssueTracker;
use crate::text::{lower_seq, to_lowercase_ascii};

verus! {

/// The tracker configuration: which tracker, where it lives, and the
/// credentials to reach it.
pub struct Config {
    pub kind: String,
    pub url: String,
    pub repository: String,
    pub username: String,
    pub token: String,
}

/// The recognized tracker type names, compared ASCII-case-insensitively.
pub open spec fn spec_valid_kind(s: Seq<char>) -> bool {
    lower_seq(s) == "github"@ || lower_seq(s) == "bitbucketcloud"@ || lower_seq(s)
        == "bitbucketserver"@
}

impl Config {
    /// Accepts a configuration whose tracker type is recognized; any
    /// other type is an error carrying the lowercased unknown name.
    pub fn is_valid(&self) -> (r: Result<(), PipelineError>)
        ensures
            match r {
                Ok(_) => spec_valid_kind(self.kind@),
                Err(e) => !spec_valid_kind(self.kind@) && match e {
                    PipelineError::UnknownConfigType(u) => u@ == lower_seq(self.kind@),
                    _ => false,
                },
            },
    {
        let low = to_lowercase_ascii(self.kind.as_str());
        if low == String::from_str("github") || low == String::from_str("bitbucketcloud") || low
            == String::from_str("bitbucketserver") {
            Ok(())
        } else {
            Err(PipelineError::UnknownConfigType(low))
        }
    }
}

impl IssueTracker {
    /// The tracker a recognized configuration type names.
    pub fn from(issue_tracker: String) -> (r: IssueTracker)
        requires
            spec_valid_kind(issue_tracker@),
        ensures
            r is Github <==> lower_seq(issue_tracker@) == "github"@,
            r is BitbucketCloud <==> lower_seq(issue_tracker@) == "bitbucketcloud"@,
            r is BitbucketServer <==> lower_seq(issue_tracker@) == "bitbucketserver"@,
    {
        proof {
            reveal_strlit("github");
            reveal_strlit("bitbucketcloud");
            reveal_strlit("bitbucketserver");
            assert("github"@.len() == 6);
            assert("bitbucketcloud"@.len() == 14);
            assert("bitbucketserver"@.len() == 15);
        }
        let low = to_lowercase_ascii(issue_tracker.as_str());
        if low == String::from_str("github") {
            IssueTracker::Github
        } else if low == String::from_str("bitbucketcloud") {
            IssueTracker::BitbucketCloud
        } else {
            IssueTracker::BitbucketServer
        }
    }
}

} // verus!

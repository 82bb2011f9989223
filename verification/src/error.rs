//! The errors the pipeline can surface.

use vstd::prelude::*;

verus! {

/// Everything that can go wrong while turning a diff into issues.
#[derive(Debug)]
pub enum PipelineError {
    /// The input is not a well-formed unified diff.
    ParseError(unidiff::Error),
    /// A blob the diff parser cannot be trusted with: a hunk-header line
    /// whose numerals its unchecked integer conversion cannot take, or a
    /// target-file header with no source-file header before it.
    UnsupportedDiffShape,
    /// The configured tracker type is not recognized.
    UnknownConfigType(String),
    /// A configured template failed to render for an annotation.
    TemplateError(handlebars::RenderError),
    /// The tracker answered with a failure status.
    HttpError { status_code: u16, body: String },
}

} // verus!

//! Declarations of the outside crates' types that flow through the
//! pipeline's results.

use vstd::prelude::*;

verus! {

/// The diff parser's error type, carried opaquely in parse failures.
#[verifier::external_type_specification]
#[verifier::external_body]
pub struct ExUnidiffError(unidiff::Error);

/// The template engine's error type, carried opaquely in render failures.
#[verifier::external_type_specification]
#[verifier::external_body]
pub struct ExRenderError(handlebars::RenderError);

} // verus!

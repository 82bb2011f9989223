//! Extraction of actionable `TODO` / `FIXME` annotations from unified diffs.
//!
//! The pipeline parses a unified-diff blob into per-hunk added-line regions,
//! scans those regions for annotation markers, computes target-file line
//! numbers, and renders each annotation into an issue title and body.

pub mod config;
pub mod error;
pub mod issue_tracker;
pub mod outside;
pub mod parser;
pub mod text;

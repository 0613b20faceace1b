//! Rewrites embedded `{{ #git ... }}` markup tokens in documentation text
//! into excerpts of version-controlled files: a snapshot of a file at a
//! revision ("show") or a patch between two revisions ("diff"), with selected
//! line ranges kept visible and all other lines suppressed behind a comment
//! marker.
//!
//! This crate holds the verified core: the token scanner, the command
//! parser, the range model, the line annotator, the diff-line renderer and
//! the splicer that writes replacements back into the original text.
//! Obtaining the raw file or patch text from a repository is left to the
//! caller, which feeds each resolved result (or a failure) back into the
//! splicer.
use vstd::prelude::*;

pub mod annotate;
pub mod chars;
pub mod command;
pub mod diff;
pub mod range;
pub mod scanner;
pub mod splice;

pub use annotate::take_lines_comment_out_rest;
pub use range::parse_path_and_ranges;
pub use range::parse_range;

verus! {

/// The preprocessor itself: a stateless marker value whose methods identify
/// the rewriting pass to a host document processor.
pub struct Git {}

impl Git {
    /// The name under which the host looks this preprocessor up.
    pub fn name(&self) -> (res: &'static str)
        ensures
            res@ == "git"@,
    {
        "git"
    }

    /// Every renderer is supported except the literal name "not-supported".
    pub fn supports_renderer(&self, renderer: &str) -> (res: bool)
        ensures
            res == (renderer@ != "not-supported"@),
    {
        !crate::chars::str_eq(renderer, "not-supported")
    }
}

} // verus!

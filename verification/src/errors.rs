//! Error values shared by every parser in the crate.

use vstd::prelude::*;

verus! {

/// A parse failure.
///
/// Every parsing function returns one of these instead of panicking:
/// - `MalformedTag`: the text between `<` and `>` has an unterminated
///   attribute value.
/// - `UnexpectedEof`: a tag or an element is not closed before the input
///   ends.
/// - `MissingAnchor`: one of the fixed structural markers that delimit the
///   sidebar, the main content and the description is absent from the
///   document.
/// - `EmptyExpectedContent`: an element that must carry at least one content
///   fragment has none.
#[derive(Clone, Copy, Debug, PartialEq, Eq, Structural)]
pub enum Herr {
    MalformedTag,
    UnexpectedEof,
    MissingAnchor,
    EmptyExpectedContent,
}

impl Herr {
    /// A short human-readable account of the failure.
    pub fn describe(&self) -> (r: &'static str)
        ensures
            r@ == self.describe_spec(),
    {
        match self {
            Herr::MalformedTag => "malformed tag",
            Herr::UnexpectedEof => "unexpected end of input",
            Herr::MissingAnchor => "missing anchor",
            Herr::EmptyExpectedContent => "empty expected content",
        }
    }

    pub open spec fn describe_spec(&self) -> Seq<char> {
        match self {
            Herr::MalformedTag => "malformed tag"@,
            Herr::UnexpectedEof => "unexpected end of input"@,
            Herr::MissingAnchor => "missing anchor"@,
            Herr::EmptyExpectedContent => "empty expected content"@,
        }
    }
}

} // verus!

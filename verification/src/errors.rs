//! Errors the translator reports.  Every error is detected while parsing the
//! source text; no program text is ever emitted once one arises.

use vstd::prelude::*;

verus! {

/// A fatal fault in the source text.  Line numbers are 1-based and name the
/// offending line; the text fields carry the offending content verbatim.
#[derive(Clone, Debug, PartialEq, Eq)]
pub enum ParseError {
    /// No header line was found.  `source_empty` is true when the source had
    /// no non-blank line at all, false when the first non-blank line was not
    /// the header token.
    MissingHeader { source_empty: bool },
    /// A non-blank line inside the statement block did not open with a quote.
    ExpectedStringStatement { line: usize, content: String },
    /// A statement's string literal never closed on its line.
    UnterminatedString { line: usize, content: String },
    /// Non-whitespace text followed a statement's closing quote.
    TrailingCharacters { line: usize, trailing: String },
    /// The terminator line never appeared.
    MissingTerminator,
    /// A placeholder referenced argument index zero.
    ZeroArgumentIndex,
    /// A placeholder's digit run does not fit an argument index.
    InvalidArgumentIndex { digits: String },
}

} // verus!

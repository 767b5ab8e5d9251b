//! What can be wrong with the tokens of a document.

use super::span::Span;
use super::tokens::TokenClass;
use vstd::prelude::*;

verus! {

/// A fault in the input, with the place where it was found.
#[derive(PartialEq, Eq, Clone, Copy, Debug, Structural)]
pub enum ParseError {
    /// A token of one kind stands where an entry needs another.
    UnexpectedToken { expected: TokenClass, found: TokenClass, span: Span },
    /// The document does not open with a section heading.
    ExpectedHeader { span: Span },
    /// A section heading is not a `[`, a name and a `]`.
    MalformedHeader { span: Span },
    /// The input ends inside an entry, before its `=`.
    UnterminatedEntry { span: Span },
}

impl ParseError {
    /// Where the fault lies.
    pub open spec fn place(self) -> Span {
        match self {
            ParseError::UnexpectedToken { span, .. } => span,
            ParseError::ExpectedHeader { span } => span,
            ParseError::MalformedHeader { span } => span,
            ParseError::UnterminatedEntry { span } => span,
        }
    }

    /// Where the fault lies.
    pub fn span(&self) -> (r: Span)
        ensures
            r == self.place(),
    {
        match self {
            ParseError::UnexpectedToken { span, .. } => *span,
            ParseError::ExpectedHeader { span } => *span,
            ParseError::MalformedHeader { span } => *span,
            ParseError::UnterminatedEntry { span } => *span,
        }
    }
}

} // verus!

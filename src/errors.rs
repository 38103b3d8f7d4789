use crate::span::Span;
use crate::syntax_error::ErrorWithSpan;
use vstd::prelude::*;

verus! {

/// Which step of resolution failed.
#[derive(Debug, Clone, Copy, PartialEq, Eq, Structural)]
pub enum ParseErrorKind {
    /// The declared type names no transformer.
    UnknownType,
    /// No override, no default, and the declaration is not nullable.
    MissingValue,
    /// The value could not be converted to the declared type.
    CoercionFailed,
}

/// A failure of resolution: its kind, a message, and the span of the declaration.
#[derive(Debug)]
pub struct ParseError {
    pub kind: ParseErrorKind,
    pub message: String,
    pub span: Span,
}

/// The mathematical content of a `ParseError`.
pub struct ParseErrorView {
    pub kind: ParseErrorKind,
    pub message: Seq<char>,
    pub span: Span,
}

impl View for ParseError {
    type V = ParseErrorView;

    open spec fn view(&self) -> ParseErrorView {
        ParseErrorView { kind: self.kind, message: self.message@, span: self.span }
    }
}

impl ParseError {
    pub fn new(kind: ParseErrorKind, message: String, span: Span) -> (r: Self)
        ensures
            r@ == (ParseErrorView { kind, message: message@, span }),
    {
        Self { kind, message, span }
    }
}

impl ErrorWithSpan for ParseError {
    fn get_message(&self) -> (r: String)
        ensures
            r@ == self.message@,
    {
        self.message.clone()
    }

    fn get_span(&self) -> (r: Span)
        ensures
            r == self.span,
    {
        self.span
    }
}

} // verus!

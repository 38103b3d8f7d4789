use crate::span::Span;
use vstd::prelude::*;

verus! {

/// A failure of the tokenizer or of the AST builder: a message and the span it is about.
#[derive(Debug, Clone)]
pub struct SyntaxError {
    pub message: String,
    pub span: Span,
}

/// The mathematical content of a `SyntaxError`.
pub struct SyntaxErrorView {
    pub message: Seq<char>,
    pub span: Span,
}

impl View for SyntaxError {
    type V = SyntaxErrorView;

    open spec fn view(&self) -> SyntaxErrorView {
        SyntaxErrorView { message: self.message@, span: self.span }
    }
}

/// An error that knows its message and the span of source it is about.
pub trait ErrorWithSpan {
    fn get_message(&self) -> String;

    fn get_span(&self) -> Span;
}

impl SyntaxError {
    /// The message, as a text.
    pub fn to_string(&self) -> (r: String)
        ensures
            r@ == self.message@,
    {
        self.message.clone()
    }

    pub fn new(message: String, span: Span) -> (r: Self)
        ensures
            r@ == (SyntaxErrorView { message: message@, span }),
    {
        SyntaxError { message, span }
    }
}

impl ErrorWithSpan for SyntaxError {
    fn get_message(&self) -> (r: String)
        ensures
            r@ == self.message@,
    {
        self.message.clone()
    }

    fn get_span(&self) -> (r: Span)
        ensures
            r == self.span,
    {
        self.span
    }
}

} // verus!

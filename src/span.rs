use vstd::prelude::*;

verus! {

/// A half-open range `[start, end)` of character positions in a source text.
#[derive(Debug, Clone, Copy, PartialEq, Eq, Structural)]
pub struct Span {
    pub start: usize,
    pub end: usize,
}

impl Span {
    /// Whether the span is a valid range inside a text of `len` characters.
    pub open spec fn within(self, len: int) -> bool {
        self.start <= self.end && self.end <= len
    }

    /// The characters of `payload` that the span covers.
    pub fn substring(&self, payload: &str) -> (r: String)
        requires
            self.within(payload@.len() as int),
        ensures
            r@ == payload@.subrange(self.start as int, self.end as int),
    {
        payload.substring_char(self.start, self.end).to_owned()
    }
}

} // verus!

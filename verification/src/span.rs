//! Source positions and interned names.

use vstd::prelude::*;

verus! {

/// A half-open range of byte offsets into the source text.
#[derive(Debug, Clone, Copy, PartialEq, Eq, Structural, Hash)]
pub struct Span {
    pub start: usize,
    pub end: usize,
}

impl Span {
    /// The span from `start` up to, not including, `end`.
    pub fn start_end(start: usize, end: usize) -> (span: Span)
        ensures
            span == (Span { start, end }),
    {
        Span { start, end }
    }
}

/// A value together with the place in the source it was read from.
pub type Spanned<T> = (T, Span);

/// An interned name. Two symbols are the same name exactly when their indices
/// are equal; the text behind an index is kept by the front end.
#[derive(Debug, Clone, Copy, PartialEq, Eq, Structural, Hash)]
pub struct Symbol(pub u32);

impl Symbol {
    /// The symbol with the given index in the front end's name table.
    pub fn new(index: u32) -> (sym: Symbol)
        ensures
            sym == Symbol(index),
    {
        Symbol(index)
    }

    /// The index of this symbol in the front end's name table.
    pub fn index(self) -> (index: u32)
        ensures
            index == self.0,
    {
        self.0
    }
}

} // verus!

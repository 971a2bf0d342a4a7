use vstd::prelude::*;

verus! {

/// A byte range `[start, end)` of the source text.
#[derive(Clone, Copy, Debug, PartialEq, Eq, Structural)]
pub struct Span {
    pub start: u32,
    pub end: u32,
}

impl Span {
    pub open spec fn spec_is_empty(self) -> bool {
        self.start == self.end
    }

    /// The span that synthesized nodes carry.
    pub open spec fn spec_is_unspanned(self) -> bool {
        self.start == 0 && self.end == 0
    }

    pub open spec fn spec_contains_inclusive(self, other: Span) -> bool {
        self.start <= other.start && other.end <= self.end
    }

    pub fn new(start: u32, end: u32) -> (r: Span)
        ensures
            r.start == start,
            r.end == end,
    {
        Span { start, end }
    }

    pub fn is_empty(&self) -> (r: bool)
        ensures
            r == self.spec_is_empty(),
    {
        self.start == self.end
    }

    pub fn is_unspanned(&self) -> (r: bool)
        ensures
            r == self.spec_is_unspanned(),
    {
        self.start == 0 && self.end == 0
    }

    pub fn contains_inclusive(&self, other: Span) -> (r: bool)
        ensures
            r == self.spec_contains_inclusive(other),
    {
        self.start <= other.start && other.end <= self.end
    }
}

} // verus!

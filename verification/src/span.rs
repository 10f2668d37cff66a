use vstd::prelude::*;

verus! {

/// Identifies one file inside a [`crate::source::SourceMap`].
#[derive(Clone, Copy, PartialEq, Eq, Hash, Debug)]
pub struct FileId(pub u32);

/// A half-open byte range `[start, end)` inside one file.
#[derive(Clone, Copy, PartialEq, Eq, Hash, Debug)]
pub struct Span {
    pub file: FileId,
    pub start: u32,
    pub end: u32,
}

impl Span {
    /// Creates a span covering `[start, end)` in `file`.
    pub fn new(file: FileId, start: u32, end: u32) -> (span: Span)
        ensures
            span == (Span { file, start, end }),
    {
        Span { file, start, end }
    }

    /// A zero-width span at `pos`.
    pub fn point(file: FileId, pos: u32) -> (span: Span)
        ensures
            span == (Span { file, start: pos, end: pos }),
    {
        Span { file, start: pos, end: pos }
    }

    /// Whether two spans share a file and touch or overlap.
    pub open spec fn spec_intersects(self, other: Span) -> bool {
        &&& self.file == other.file
        &&& self.start <= other.end
        &&& other.start <= self.end
    }

    /// Whether two spans share a file and touch or overlap.
    ///
    /// Touching spans (`0..8` and `8..12`) intersect, so a point span on the
    /// edge of another span is covered by it.
    pub fn intersects(&self, other: Span) -> (b: bool)
        ensures
            b == self.spec_intersects(other),
    {
        self.file.0 == other.file.0 && self.start <= other.end && other.start <= self.end
    }
}

} // verus!

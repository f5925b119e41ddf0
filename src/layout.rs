//! Shape and element type of a two-dimensional buffer.
use vstd::prelude::*;

verus! {

/// The numeric type of one channel of one element.
#[derive(Clone, Copy, Debug, PartialEq, Eq, Structural)]
pub enum ElementKind {
    Unsigned8,
    Signed8,
    Unsigned16,
    Signed16,
    Signed32,
    Float16,
    Float32,
    Float64,
}

/// Rows, columns, channels per element and element type of a buffer.
#[derive(Clone, Copy, Debug, PartialEq, Eq, Structural)]
pub struct Layout {
    pub rows: i32,
    pub cols: i32,
    pub channels: i32,
    pub element: ElementKind,
}

impl Layout {
    /// Whether the buffer has one channel of the given element type.
    pub open spec fn is_single(self, kind: ElementKind) -> bool {
        self.channels == 1 && self.element == kind
    }

    /// Whether the buffer has one channel of the given element type.
    pub fn single_channel_of(&self, kind: ElementKind) -> (r: bool)
        ensures
            r == self.is_single(kind),
    {
        self.channels == 1 && self.element == kind
    }
}

} // verus!

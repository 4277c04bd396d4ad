//! Spans of bytes inside a backing container.

use vstd::prelude::*;

verus! {

/// A span of `length` bytes that starts `offset` bytes into the backing container.
#[derive(Copy, Clone, Debug, PartialEq, Eq, Structural)]
pub struct BytesSegment {
    pub offset: usize,
    pub length: usize,
}

impl BytesSegment {
    /// The position just past the last byte of the span.
    pub open spec fn end(self) -> int {
        self.offset + self.length
    }
}

impl From<(usize, usize)> for BytesSegment {
    fn from(value: (usize, usize)) -> (segment: Self) {
        let (offset, length) = value;
        Self { offset, length }
    }
}

impl vstd::std_specs::convert::FromSpecImpl<(usize, usize)> for BytesSegment {
    open spec fn obeys_from_spec() -> bool {
        true
    }

    open spec fn from_spec(value: (usize, usize)) -> Self {
        BytesSegment { offset: value.0, length: value.1 }
    }
}

} // verus!

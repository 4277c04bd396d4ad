//! Segment-mode storage: payloads of any length, laid one after the other in
//! the backing container. Each allocation is described by the segment where
//! it landed; positions only grow and no span is handed out twice.

use vstd::prelude::*;
use crate::container::{overwrite, read_span, span, write_padded};
use crate::error::FsError;
use crate::segment::BytesSegment;

verus! {

/// A segment store as contracts see it: the bytes of the backing container
/// and the position at which the next allocation lands.
pub struct SegmentStore {
    pub bytes: Seq<u8>,
    pub cursor: int,
}

impl SegmentStore {
    /// How an allocation of `data` ends: with the segment where the data
    /// lands, unless the segment would end beyond what the container can
    /// address.
    pub open spec fn alloc_outcome(self, data: Seq<u8>) -> Result<BytesSegment, FsError> {
        if self.cursor + data.len() > usize::MAX {
            Err(FsError::OutOfRange)
        } else {
            Ok(BytesSegment { offset: self.cursor as usize, length: data.len() as usize })
        }
    }

    /// The store after an allocation of `data`: the data lies at the cursor
    /// and the cursor has moved past it. An allocation that fails leaves the
    /// store as it was.
    pub open spec fn after_alloc(self, data: Seq<u8>) -> SegmentStore {
        if self.alloc_outcome(data) is Ok {
            SegmentStore {
                bytes: overwrite(self.bytes, self.cursor, data),
                cursor: self.cursor + data.len(),
            }
        } else {
            self
        }
    }

    /// The bytes of `segment`, if the container holds them all.
    pub open spec fn read(self, segment: BytesSegment) -> Option<Seq<u8>> {
        span(self.bytes, segment.offset as int, segment.length as int)
    }
}

/// Data that was allocated is read back from its segment, byte for byte.
pub proof fn allocated_data_reads_back(store: SegmentStore, data: Seq<u8>)
    requires
        store.cursor >= 0,
        store.alloc_outcome(data) is Ok,
    ensures
        store.after_alloc(data).read(store.alloc_outcome(data)->Ok_0) == Some(data),
{
}

/// An allocation leaves every segment as it was that was readable and ends at
/// or before the cursor.
pub proof fn alloc_keeps_earlier_segments(store: SegmentStore, data: Seq<u8>, segment: BytesSegment)
    requires
        store.cursor >= 0,
        segment.end() <= store.cursor,
        store.read(segment) is Some,
    ensures
        store.after_alloc(data).read(segment) == store.read(segment),
{
}

/// Segment-mode storage over a backing container held in memory.
pub struct MagiusFs {
    file: Vec<u8>,
    current_offset: usize,
}

impl View for MagiusFs {
    type V = SegmentStore;

    closed spec fn view(&self) -> SegmentStore {
        SegmentStore { bytes: self.file@, cursor: self.current_offset as int }
    }
}

impl MagiusFs {
    /// A segment store over `f` whose next allocation lands at
    /// `current_offset`.
    pub fn new(f: Vec<u8>, current_offset: usize) -> (fs: Self)
        ensures
            fs@ == (SegmentStore { bytes: f@, cursor: current_offset as int }),
    {
        Self { file: f, current_offset }
    }

    /// A segment store over `f` whose next allocation lands at the end of what
    /// `f` already holds.
    pub fn open(f: Vec<u8>) -> (fs: Self)
        ensures
            fs@ == (SegmentStore { bytes: f@, cursor: f@.len() as int }),
    {
        let current_offset: usize = f.len();
        Self { file: f, current_offset }
    }

    /// The position at which the next allocation lands.
    pub fn current_offset(&self) -> (offset: usize)
        ensures
            offset == self@.cursor,
    {
        self.current_offset
    }

    /// The bytes of the backing container.
    pub fn bytes(&self) -> (bytes: &Vec<u8>)
        ensures
            bytes@ == self@.bytes,
    {
        &self.file
    }

    /// Gives up the store and hands back the backing container.
    pub fn into_file(self) -> (file: Vec<u8>)
        ensures
            file@ == self@.bytes,
    {
        self.file
    }

    /// Writes `data` at the cursor and moves the cursor past it. Returns the
    /// segment that describes where the data landed.
    pub fn allocate(&mut self, data: &[u8]) -> (allocated: Result<BytesSegment, FsError>)
        ensures
            allocated == old(self)@.alloc_outcome(data@),
            final(self)@ == old(self)@.after_alloc(data@),
    {
        let offset: usize = self.current_offset;
        let length: usize = data.len();
        if length > usize::MAX - offset {
            return Err(FsError::OutOfRange);
        }
        write_padded(&mut self.file, offset, data, length);
        self.current_offset = offset + length;
        Ok(BytesSegment::from((offset, length)))
    }

    /// Reads the bytes of `segment`. Fails where the container holds fewer
    /// bytes there than the segment is long.
    pub fn read_segment(&self, segment: BytesSegment) -> (read: Result<Vec<u8>, FsError>)
        ensures
            match read {
                Ok(bytes) => self@.read(segment) == Some(bytes@),
                Err(e) => e == FsError::ShortRead && self@.read(segment) is None,
            },
    {
        match read_span(&self.file, segment.offset, segment.length) {
            Some(bytes) => Ok(bytes),
            None => Err(FsError::ShortRead),
        }
    }
}

} // verus!

//! The block store as contracts see it.
//!
//! The backing container is a flat run of fixed-size blocks, block `i` at byte
//! position `i * block_size`. A block's payload is written left-aligned and
//! padded with zero bytes to the block boundary; reading a block strips the
//! zero bytes at its end again.

use vstd::prelude::*;
use crate::container::{overwrite, padded, trimmed};
use crate::error::FsError;

verus! {

/// A block store as contracts see it: the bytes of the backing container, the
/// size of one block and the index of the next block that `push` hands out.
pub struct BlockStore {
    pub bytes: Seq<u8>,
    pub block_size: int,
    pub blocks_count: int,
}

/// The number of blocks that a payload of `len` bytes is split into.
pub open spec fn chunk_count(len: int, block_size: int) -> int {
    (len + block_size - 1) / block_size
}

/// The `i`-th piece of `data` when it is cut into pieces of `block_size` bytes:
/// every piece is full but possibly the last.
pub open spec fn chunk(data: Seq<u8>, block_size: int, i: int) -> Seq<u8> {
    data.subrange(
        i * block_size,
        if (i + 1) * block_size <= data.len() {
            (i + 1) * block_size
        } else {
            data.len() as int
        },
    )
}

/// The most blocks that a container can address at this block size.
pub open spec fn addressable_blocks(block_size: int) -> int {
    usize::MAX as int / block_size
}

impl BlockStore {
    /// Whether the store is one that a session can reach: blocks have a size,
    /// and the container holds every block below the next free one.
    pub open spec fn well_formed(self) -> bool {
        &&& self.block_size > 0
        &&& self.blocks_count >= 0
        &&& self.blocks_count * self.block_size <= self.bytes.len()
    }

    /// Whether the container holds all of block `index`.
    pub open spec fn holds(self, index: int) -> bool {
        (index + 1) * self.block_size <= self.bytes.len()
    }

    /// The raw bytes of block `index`.
    pub open spec fn block(self, index: int) -> Seq<u8> {
        self.bytes.subrange(index * self.block_size, (index + 1) * self.block_size)
    }

    /// What reading block `index` returns: its bytes without the zero bytes at
    /// their end, or nothing where the container does not hold the whole block.
    pub open spec fn read(self, index: int) -> Option<Seq<u8>> {
        if self.holds(index) {
            Some(trimmed(self.block(index)))
        } else {
            None
        }
    }

    /// How many of `blocks`, from the first on, the container holds whole,
    /// up to the first that it does not.
    pub open spec fn readable_prefix(self, blocks: Seq<u64>) -> int
        decreases blocks.len(),
    {
        if blocks.len() == 0 || !self.holds(blocks[0] as int) {
            0
        } else {
            1 + self.readable_prefix(blocks.drop_first())
        }
    }

    /// The payloads of `blocks`, each without the zero bytes at its end, one
    /// after the other.
    pub open spec fn gather(self, blocks: Seq<u64>) -> Seq<u8>
        decreases blocks.len(),
    {
        if blocks.len() == 0 {
            Seq::empty()
        } else {
            self.gather(blocks.drop_last()) + trimmed(self.block(blocks.last() as int))
        }
    }

    /// How reading `blocks` one after the other ends: it fails at the first
    /// block that the container does not hold whole.
    pub open spec fn read_all_outcome(self, blocks: Seq<u64>) -> Result<(), FsError> {
        if self.readable_prefix(blocks) == blocks.len() {
            Ok(())
        } else {
            Err(FsError::ShortRead)
        }
    }

    /// What reading `blocks` one after the other yields: the payloads of the
    /// blocks before the first that cannot be read.
    pub open spec fn read_all(self, blocks: Seq<u64>) -> Seq<u8> {
        self.gather(blocks.take(self.readable_prefix(blocks)))
    }

    /// Whether block `index` lies within what the container can address.
    pub open spec fn fits(self, index: int) -> bool {
        index < addressable_blocks(self.block_size)
    }

    /// The store after `data` was written to block `index`, padded to a full
    /// block.
    pub open spec fn put(self, index: int, data: Seq<u8>) -> BlockStore {
        BlockStore {
            bytes: overwrite(
                self.bytes,
                index * self.block_size,
                padded(data, self.block_size as int),
            ),
            ..self
        }
    }

    /// How a write of `data` to block `index` ends.
    pub open spec fn write_outcome(self, index: int, data: Seq<u8>) -> Result<(), FsError> {
        if data.len() > self.block_size {
            Err(FsError::BlockTooLarge)
        } else if !self.fits(index) {
            Err(FsError::OutOfRange)
        } else {
            Ok(())
        }
    }

    /// The store after a write of `data` to block `index`: a write that fails
    /// leaves the store as it was.
    pub open spec fn after_write(self, index: int, data: Seq<u8>) -> BlockStore {
        if self.write_outcome(index, data) is Ok {
            self.put(index, data)
        } else {
            self
        }
    }

    /// The store after the first `count` chunks of `data` were written, in
    /// order, to the consecutive blocks from `first` on.
    pub open spec fn put_chunks(self, first: int, data: Seq<u8>, count: int) -> BlockStore
        decreases count,
    {
        if count <= 0 {
            self
        } else {
            self.put_chunks(first, data, count - 1).put(
                first + count - 1,
                chunk(data, self.block_size, count - 1),
            )
        }
    }

    /// How many consecutive blocks from `first` on the container can address.
    pub open spec fn room(self, first: int) -> int {
        if addressable_blocks(self.block_size) > first {
            addressable_blocks(self.block_size) - first
        } else {
            0
        }
    }

    /// How many chunks of `data` a write to consecutive blocks from `first` on
    /// gets to write: all of them, or those before the first block that the
    /// container cannot address.
    pub open spec fn chunks_written(self, first: int, data: Seq<u8>) -> int {
        if chunk_count(data.len() as int, self.block_size) <= self.room(first) {
            chunk_count(data.len() as int, self.block_size)
        } else {
            self.room(first)
        }
    }

    /// How a write of `data` to consecutive blocks from `first` on ends: with
    /// the indices of the blocks written, in write order, or with the failure
    /// of the first block that cannot be written.
    pub open spec fn write_all_outcome(self, first: int, data: Seq<u8>) -> Result<
        Seq<u64>,
        FsError,
    > {
        if chunk_count(data.len() as int, self.block_size) <= self.room(first) {
            Ok(
                Seq::new(
                    chunk_count(data.len() as int, self.block_size) as nat,
                    |i: int| (first + i) as u64,
                ),
            )
        } else {
            Err(FsError::OutOfRange)
        }
    }

    /// The store after a write of `data` to consecutive blocks from `first`
    /// on. The blocks written before a failure stay written.
    pub open spec fn after_write_all(self, first: int, data: Seq<u8>) -> BlockStore {
        self.put_chunks(first, data, self.chunks_written(first, data))
    }

    /// How appending `data` ends: see `write_all_outcome`, from the next free
    /// block on.
    pub open spec fn push_outcome(self, data: Seq<u8>) -> Result<Seq<u64>, FsError> {
        self.write_all_outcome(self.blocks_count, data)
    }

    /// The store after `data` was appended: the next free block moves past the
    /// blocks written, unless the append failed.
    pub open spec fn after_push(self, data: Seq<u8>) -> BlockStore {
        if self.push_outcome(data) is Ok {
            BlockStore {
                blocks_count: self.blocks_count + chunk_count(data.len() as int, self.block_size),
                ..self.after_write_all(self.blocks_count, data)
            }
        } else {
            self.after_write_all(self.blocks_count, data)
        }
    }
}

/// The outcome of a write of several blocks, with the list of the blocks
/// written as contracts see it.
pub open spec fn listed(written: Result<Vec<u64>, FsError>) -> Result<Seq<u64>, FsError> {
    match written {
        Ok(blocks) => Ok(blocks@),
        Err(e) => Err(e),
    }
}

/// Whether no chunk of `data` ends in a zero byte. Reading strips the zero
/// bytes at the end of every block, so only such data is read back whole.
pub open spec fn ends_clean(data: Seq<u8>, block_size: int) -> bool {
    forall|i: int|
        0 <= i < chunk_count(data.len() as int, block_size) ==> (#[trigger] chunk(
            data,
            block_size,
            i,
        )).last() != 0
}

} // verus!

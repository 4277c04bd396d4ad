//! Block-mode storage over a backing container held in memory.

use vstd::prelude::*;
use crate::block_laws::{
    block_below_bound, chunk_count_bounds, opened_store_is_well_formed, push_keeps_well_formed,
    put_chunks_keeps_geometry,
};
use crate::blocks::{addressable_blocks, chunk_count, listed, BlockStore};
use crate::container::{read_span, trim_zeros, write_padded};
use crate::error::FsError;

verus! {

/// Block-mode storage over a backing container held in memory.
///
/// The size of a block is never zero, and the container holds every block
/// below the next free one.
pub struct MagiusFsIo {
    file: Vec<u8>,
    block_size: usize,
    blocks_count: u64,
}

impl View for MagiusFsIo {
    type V = BlockStore;

    closed spec fn view(&self) -> BlockStore {
        BlockStore {
            bytes: self.file@,
            block_size: self.block_size as int,
            blocks_count: self.blocks_count as int,
        }
    }
}

impl MagiusFsIo {
    #[verifier::type_invariant]
    spec fn well_formed(&self) -> bool {
        self@.well_formed()
    }

    /// Opens a block store over `f`. The next free block is the one after the
    /// whole blocks that `f` already holds; a partial block at its end does
    /// not count.
    pub fn new(f: Vec<u8>, block_size: usize) -> (io: Self)
        requires
            block_size > 0,
        ensures
            io@ == (BlockStore {
                bytes: f@,
                block_size: block_size as int,
                blocks_count: f@.len() as int / block_size as int,
            }),
            io@.well_formed(),
    {
        proof {
            opened_store_is_well_formed(f@, block_size as int);
        }
        let blocks_count: u64 = (f.len() / block_size) as u64;
        MagiusFsIo { file: f, block_size, blocks_count }
    }

    /// The size of one block in bytes.
    pub fn block_size(&self) -> (size: usize)
        ensures
            size == self@.block_size,
            self@.well_formed(),
    {
        proof {
            use_type_invariant(&*self);
        }
        self.block_size
    }

    /// The index of the next free block.
    pub fn blocks_count(&self) -> (count: u64)
        ensures
            count == self@.blocks_count,
            self@.well_formed(),
    {
        proof {
            use_type_invariant(&*self);
        }
        self.blocks_count
    }

    /// The bytes of the backing container.
    pub fn bytes(&self) -> (bytes: &Vec<u8>)
        ensures
            bytes@ == self@.bytes,
    {
        &self.file
    }

    /// Gives up the store and hands back the backing container.
    pub fn into_file(self) -> (file: Vec<u8>)
        ensures
            file@ == self@.bytes,
    {
        self.file
    }

    /// Writes `data` to block `block`, padded with zero bytes to a full block.
    /// A payload longer than one block is refused and nothing is written; so
    /// is a block beyond what the container can address.
    pub fn write_block(&mut self, block: u64, data: &[u8]) -> (done: Result<(), FsError>)
        ensures
            done == old(self)@.write_outcome(block as int, data@),
            final(self)@ == old(self)@.after_write(block as int, data@),
            data@.len() > old(self)@.block_size ==> done == Err::<(), FsError>(
                FsError::BlockTooLarge,
            ) && final(self)@ == old(self)@,
            final(self)@.well_formed(),
    {
        proof {
            use_type_invariant(&*self);
        }
        let block_size: usize = self.block_size;
        if data.len() > block_size {
            return Err(FsError::BlockTooLarge);
        }
        let limit: usize = usize::MAX / block_size;
        if block >= limit as u64 {
            return Err(FsError::OutOfRange);
        }
        proof {
            block_below_bound(block as int, block_size as int, usize::MAX as int);
            assert((block + 1) * block_size == block * block_size + block_size)
                by (nonlinear_arith);
        }
        let offset: usize = block as usize * block_size;
        // The container leaves the store while it is written to, so that the
        // store is whole at every step.
        let mut taken = MagiusFsIo { file: Vec::new(), block_size: 1, blocks_count: 0 };
        std::mem::swap(self, &mut taken);
        let MagiusFsIo { mut file, block_size, blocks_count } = taken;
        write_padded(&mut file, offset, data, block_size);
        *self = MagiusFsIo { file, block_size, blocks_count };
        Ok(())
    }

    /// Reads all of block `block`, the zero bytes at its end included. Fails
    /// where the container does not hold the whole block.
    pub fn read_raw_block(&self, block: u64) -> (read: Result<Vec<u8>, FsError>)
        ensures
            match read {
                Ok(bytes) => self@.holds(block as int) && bytes@ == self@.block(block as int),
                Err(e) => e == FsError::ShortRead && !self@.holds(block as int),
            },
    {
        proof {
            use_type_invariant(&*self);
        }
        let block_size: usize = self.block_size;
        let held: usize = self.file.len() / block_size;
        proof {
            block_below_bound(block as int, block_size as int, self.file@.len() as int);
        }
        if block >= held as u64 {
            return Err(FsError::ShortRead);
        }
        proof {
            assert((block + 1) * block_size == block * block_size + block_size)
                by (nonlinear_arith);
        }
        let offset: usize = block as usize * block_size;
        match read_span(&self.file, offset, block_size) {
            Some(raw) => Ok(raw),
            None => Err(FsError::ShortRead),
        }
    }

    /// Reads block `block` and strips the zero bytes at its end. Fails where
    /// the container does not hold the whole block.
    pub fn read_block(&self, block: u64) -> (read: Result<Vec<u8>, FsError>)
        ensures
            match read {
                Ok(bytes) => self@.read(block as int) == Some(bytes@),
                Err(e) => e == FsError::ShortRead && self@.read(block as int) is None,
            },
    {
        match self.read_raw_block(block) {
            Ok(raw) => Ok(trim_zeros(raw)),
            Err(e) => Err(e),
        }
    }

    /// Splits `data` into chunks of one block each and writes them, in order,
    /// to the consecutive blocks from `block` on. Returns the indices of the
    /// blocks written, in write order.
    pub fn write_blocks(&mut self, block: u64, data: &[u8]) -> (written: Result<Vec<u64>, FsError>)
        ensures
            listed(written) == old(self)@.write_all_outcome(block as int, data@),
            final(self)@ == old(self)@.after_write_all(block as int, data@),
            final(self)@.well_formed(),
    {
        proof {
            use_type_invariant(&*self);
        }
        let block_size: usize = self.block_size;
        let data_len: usize = data.len();
        let rest: usize = if data_len % block_size == 0 {
            0
        } else {
            1
        };
        proof {
            chunk_count_bounds(data_len as int, block_size as int);
            vstd::arithmetic::div_mod::lemma_div_is_ordered_by_denominator(
                usize::MAX as int,
                1,
                block_size as int,
            );
        }
        let needed_blocks: usize = data_len / block_size + rest;
        let ghost start = self@;
        let mut written_blocks: Vec<u64> = Vec::new();
        let mut i: usize = 0;
        while i < needed_blocks
            invariant
                i <= needed_blocks,
                needed_blocks == chunk_count(data_len as int, block_size as int),
                data_len == data@.len(),
                block_size == self.block_size,
                block_size > 0,
                start == old(self)@,
                start.block_size == block_size,
                self@ == start.put_chunks(block as int, data@, i as int),
                i <= start.room(block as int),
                written_blocks@ == Seq::new(i as nat, |j: int| (block + j) as u64),
                addressable_blocks(block_size as int) <= usize::MAX,
            decreases needed_blocks - i,
        {
            proof {
                chunk_count_bounds(data_len as int, block_size as int);
                assert(i * block_size <= (needed_blocks - 1) * block_size) by (nonlinear_arith)
                    requires
                        i <= needed_blocks - 1,
                        block_size > 0,
                ;
                assert((i + 1) * block_size == i * block_size + block_size) by (nonlinear_arith);
                put_chunks_keeps_geometry(start, block as int, data@, i as int);
            }
            let data_offset: usize = block_size * i;
            let left: usize = data_len - data_offset;
            let taken: usize = if left < block_size {
                left
            } else {
                block_size
            };
            let piece = vstd::slice::slice_subrange(data, data_offset, data_offset + taken);
            let index: u64 = match block.checked_add(i as u64) {
                Some(index) => index,
                None => {
                    return Err(FsError::OutOfRange);
                },
            };
            match self.write_block(index, piece) {
                Ok(()) => {},
                Err(e) => {
                    return Err(e);
                },
            }
            written_blocks.push(index);
            i += 1;
        }
        proof {
            use_type_invariant(&*self);
        }
        Ok(written_blocks)
    }

    /// Appends `data` to the store: writes it to as many blocks as it takes,
    /// starting at the next free block, and moves the next free block past
    /// them. Returns the indices of the blocks written, in write order.
    pub fn push(&mut self, data: &[u8]) -> (pushed: Result<Vec<u64>, FsError>)
        ensures
            listed(pushed) == old(self)@.push_outcome(data@),
            final(self)@ == old(self)@.after_push(data@),
            final(self)@.well_formed(),
    {
        let first: u64 = self.blocks_count;
        proof {
            use_type_invariant(&*self);
            push_keeps_well_formed(self@, data@);
            put_chunks_keeps_geometry(
                self@,
                first as int,
                data@,
                self@.chunks_written(first as int, data@),
            );
        }
        let blocks = match self.write_blocks(first, data) {
            Ok(blocks) => blocks,
            Err(e) => {
                return Err(e);
            },
        };
        self.blocks_count = first + blocks.len() as u64;
        Ok(blocks)
    }
}

} // verus!

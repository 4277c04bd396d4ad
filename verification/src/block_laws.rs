//! What holds of the block store: a store stays well-formed, what was written
//! is read back, and a write leaves the other blocks alone.

use vstd::prelude::*;
use vstd::arithmetic::div_mod::{
    lemma_div_is_ordered_by_denominator, lemma_fundamental_div_mod,
    lemma_fundamental_div_mod_converse, lemma_mod_bound,
};
use crate::blocks::{chunk, chunk_count, ends_clean, BlockStore};
use crate::container::{padded, trimmed_is_prefix, trimmed_padded};

verus! {

/// A block lies wholly below a byte bound exactly when its index lies below
/// the number of whole blocks under that bound.
pub proof fn block_below_bound(index: int, block_size: int, bound: int)
    requires
        block_size > 0,
    ensures
        (index + 1) * block_size <= bound <==> index < bound / block_size,
{
    let whole = bound / block_size;
    lemma_fundamental_div_mod(bound, block_size);
    lemma_mod_bound(bound, block_size);
    if index < whole {
        assert((index + 1) * block_size <= whole * block_size) by (nonlinear_arith)
            requires
                index + 1 <= whole,
                block_size > 0,
        ;
    } else {
        assert((index + 1) * block_size >= (whole + 1) * block_size) by (nonlinear_arith)
            requires
                index + 1 >= whole + 1,
                block_size > 0,
        ;
        assert((whole + 1) * block_size == block_size * whole + block_size) by (nonlinear_arith);
    }
}

/// Blocks with different indices do not overlap.
proof fn blocks_apart(low: int, high: int, block_size: int)
    by (nonlinear_arith)
    requires
        block_size > 0,
        0 <= low < high,
    ensures
        0 <= low * block_size,
        (low + 1) * block_size <= high * block_size,
        (low + 1) * block_size == low * block_size + block_size,
        (high + 1) * block_size == high * block_size + block_size,
{
}

/// The number of chunks is the number of whole blocks in the payload, and one
/// more where a rest remains: enough blocks to hold the payload, and none
/// that would stay empty.
pub proof fn chunk_count_bounds(len: int, block_size: int)
    requires
        len >= 0,
        block_size > 0,
    ensures
        chunk_count(len, block_size) == len / block_size + if len % block_size == 0 {
            0int
        } else {
            1int
        },
        0 <= chunk_count(len, block_size) <= len,
        chunk_count(len, block_size) * block_size >= len,
        (chunk_count(len, block_size) - 1) * block_size < len || len == 0,
        len == 0 <==> chunk_count(len, block_size) == 0,
{
    let whole = len / block_size;
    let rest = len % block_size;
    lemma_fundamental_div_mod(len, block_size);
    lemma_mod_bound(len, block_size);
    assert(whole <= whole * block_size) by (nonlinear_arith)
        requires
            whole >= 0,
            block_size > 0,
    ;
    if rest == 0 {
        lemma_fundamental_div_mod_converse(len + block_size - 1, block_size, whole, block_size - 1);
        assert((whole - 1) * block_size == whole * block_size - block_size) by (nonlinear_arith);
    } else {
        assert((whole + 1) * block_size == whole * block_size + block_size) by (nonlinear_arith);
        lemma_fundamental_div_mod_converse(len + block_size - 1, block_size, whole + 1, rest - 1);
    }
}

/// Every chunk holds at least one byte and at most a block's worth, and the
/// chunks lie one after the other in the data.
pub proof fn chunk_bounds(data: Seq<u8>, block_size: int, i: int)
    requires
        block_size > 0,
        0 <= i < chunk_count(data.len() as int, block_size),
    ensures
        0 <= i * block_size < data.len(),
        0 < chunk(data, block_size, i).len() <= block_size,
        chunk(data, block_size, i).len() == if (i + 1) * block_size <= data.len() {
            block_size
        } else {
            data.len() - i * block_size
        },
{
    let count = chunk_count(data.len() as int, block_size);
    chunk_count_bounds(data.len() as int, block_size);
    assert(i * block_size <= (count - 1) * block_size) by (nonlinear_arith)
        requires
            0 <= i <= count - 1,
            block_size > 0,
    ;
    assert((i + 1) * block_size == i * block_size + block_size) by (nonlinear_arith);
}

/// A store that is opened over a container, with the whole blocks of the
/// container counted as taken, is well-formed.
pub proof fn opened_store_is_well_formed(bytes: Seq<u8>, block_size: int)
    requires
        block_size > 0,
    ensures
        (BlockStore { bytes, block_size, blocks_count: bytes.len() as int / block_size })
            .well_formed(),
{
    let whole = bytes.len() as int / block_size;
    lemma_fundamental_div_mod(bytes.len() as int, block_size);
    lemma_mod_bound(bytes.len() as int, block_size);
    assert(whole >= 0) by (nonlinear_arith)
        requires
            whole * block_size + (bytes.len() as int % block_size) >= 0,
            0 <= bytes.len() as int % block_size < block_size,
    ;
}

/// A well-formed store holds every block below its next free block.
pub proof fn blocks_below_count_are_held(store: BlockStore, index: int)
    requires
        store.well_formed(),
        0 <= index < store.blocks_count,
    ensures
        store.holds(index),
{
    assert((index + 1) * store.block_size <= store.blocks_count * store.block_size)
        by (nonlinear_arith)
        requires
            index + 1 <= store.blocks_count,
            store.block_size > 0,
    ;
}

/// Writing chunks changes neither the block size nor the next free block.
pub proof fn put_chunks_keeps_geometry(store: BlockStore, first: int, data: Seq<u8>, count: int)
    ensures
        store.put_chunks(first, data, count).block_size == store.block_size,
        store.put_chunks(first, data, count).blocks_count == store.blocks_count,
    decreases count,
{
    if count > 0 {
        put_chunks_keeps_geometry(store, first, data, count - 1);
    }
}

/// Writing chunks never shortens the container.
pub proof fn put_chunks_keeps_length(store: BlockStore, first: int, data: Seq<u8>, count: int)
    ensures
        store.put_chunks(first, data, count).bytes.len() >= store.bytes.len(),
    decreases count,
{
    if count > 0 {
        put_chunks_keeps_length(store, first, data, count - 1);
    }
}

/// A block that was written holds the payload, padded to a full block, and
/// every other block holds what it held.
pub proof fn written_block_and_others(store: BlockStore, index: int, data: Seq<u8>)
    requires
        store.block_size > 0,
        index >= 0,
        data.len() <= store.block_size,
    ensures
        store.put(index, data).holds(index),
        store.put(index, data).block(index) == padded(data, store.block_size),
        forall|other: int|
            other >= 0 && other != index && store.holds(other) ==> (#[trigger] store.put(
                index,
                data,
            ).holds(other)) && store.put(index, data).block(other) == store.block(other),
{
    let after = store.put(index, data);
    assert((index + 1) * store.block_size == index * store.block_size + store.block_size)
        by (nonlinear_arith);
    assert forall|other: int|
        other >= 0 && other != index && store.holds(other) implies (#[trigger] after.holds(other))
        && after.block(other) == store.block(other) by {
        if other < index {
            blocks_apart(other, index, store.block_size);
        } else {
            blocks_apart(index, other, store.block_size);
        }
    }
}

/// After chunks were written to consecutive blocks, each of those blocks
/// holds its chunk, padded to a full block, and every other block holds what
/// it held.
pub proof fn written_chunks_and_others(store: BlockStore, first: int, data: Seq<u8>, count: int)
    requires
        store.block_size > 0,
        first >= 0,
        0 <= count <= chunk_count(data.len() as int, store.block_size),
    ensures
        forall|index: int|
            first <= index < first + count ==> (#[trigger] store.put_chunks(
                first,
                data,
                count,
            ).holds(index)) && store.put_chunks(first, data, count).block(index) == padded(
                chunk(data, store.block_size, index - first),
                store.block_size,
            ),
        forall|index: int|
            index >= 0 && !(first <= index < first + count) && store.holds(index) ==> (
            #[trigger] store.put_chunks(first, data, count).holds(index)) && store.put_chunks(
                first,
                data,
                count,
            ).block(index) == store.block(index),
    decreases count,
{
    if count > 0 {
        let before = store.put_chunks(first, data, count - 1);
        let piece = chunk(data, store.block_size, count - 1);
        let after = store.put_chunks(first, data, count);
        written_chunks_and_others(store, first, data, count - 1);
        put_chunks_keeps_geometry(store, first, data, count - 1);
        chunk_bounds(data, store.block_size, count - 1);
        written_block_and_others(before, first + count - 1, piece);
        assert forall|index: int|
            index >= 0 && !(first <= index < first + count) && store.holds(index) implies (
        #[trigger] after.holds(index)) && after.block(index) == store.block(index) by {
            assert(before.holds(index));
            assert(before.put(first + count - 1, piece).holds(index));
        }
    }
}

/// A write to a block, whether it succeeds or fails, keeps the store
/// well-formed.
pub proof fn write_keeps_well_formed(store: BlockStore, index: int, data: Seq<u8>)
    requires
        store.well_formed(),
    ensures
        store.after_write(index, data).well_formed(),
{
}

/// A write to consecutive blocks, whether it succeeds or fails, keeps the
/// store well-formed.
pub proof fn write_all_keeps_well_formed(store: BlockStore, first: int, data: Seq<u8>)
    requires
        store.well_formed(),
    ensures
        store.after_write_all(first, data).well_formed(),
{
    let count = store.chunks_written(first, data);
    put_chunks_keeps_length(store, first, data, count);
    put_chunks_keeps_geometry(store, first, data, count);
}

/// An append, whether it succeeds or fails, keeps the store well-formed, and
/// the next free block never moves back. The blocks that it returns lie
/// between the old and the new next free block.
pub proof fn push_keeps_well_formed(store: BlockStore, data: Seq<u8>)
    requires
        store.well_formed(),
    ensures
        store.after_push(data).well_formed(),
        store.after_push(data).blocks_count >= store.blocks_count,
        store.push_outcome(data) matches Ok(blocks) ==> forall|i: int|
            0 <= i < blocks.len() ==> store.blocks_count <= (#[trigger] blocks[i])
                < store.after_push(data).blocks_count,
{
    let first = store.blocks_count;
    let count = chunk_count(data.len() as int, store.block_size);
    let written = store.chunks_written(first, data);
    chunk_count_bounds(data.len() as int, store.block_size);
    put_chunks_keeps_length(store, first, data, written);
    put_chunks_keeps_geometry(store, first, data, written);
    if store.push_outcome(data) is Ok && count > 0 {
        written_chunks_and_others(store, first, data, count);
        assert(store.put_chunks(first, data, count).holds(first + count - 1));
        lemma_div_is_ordered_by_denominator(usize::MAX as int, 1, store.block_size);
    }
}

/// Appending data leaves every block as it was that is not among the blocks
/// that the append writes; those below the next free block never are.
pub proof fn push_keeps_other_blocks(store: BlockStore, data: Seq<u8>, index: int)
    requires
        store.block_size > 0,
        store.blocks_count >= 0,
        0 <= index,
        store.holds(index),
        !(store.blocks_count <= index < store.blocks_count + chunk_count(
            data.len() as int,
            store.block_size,
        )),
    ensures
        store.after_push(data).holds(index),
        store.after_push(data).block(index) == store.block(index),
{
    let first = store.blocks_count;
    let written = store.chunks_written(first, data);
    chunk_count_bounds(data.len() as int, store.block_size);
    written_chunks_and_others(store, first, data, written);
    assert(store.put_chunks(first, data, written).holds(index));
}

/// The readable prefix of a list of blocks ends where the first block stands
/// that the container does not hold whole.
pub proof fn readable_prefix_ends_at(store: BlockStore, blocks: Seq<u64>, end: int)
    requires
        0 <= end <= blocks.len(),
        forall|j: int| 0 <= j < end ==> store.holds(#[trigger] blocks[j] as int),
        end < blocks.len() ==> !store.holds(blocks[end] as int),
    ensures
        store.readable_prefix(blocks) == end,
    decreases blocks.len(),
{
    if end > 0 {
        readable_prefix_ends_at(store, blocks.drop_first(), end - 1);
    }
}

/// Two stores that hold the same bytes in blocks of the same size read alike.
pub proof fn reading_depends_on_bytes(one: BlockStore, other: BlockStore, blocks: Seq<u64>)
    requires
        one.bytes == other.bytes,
        one.block_size == other.block_size,
    ensures
        one.readable_prefix(blocks) == other.readable_prefix(blocks),
        one.gather(blocks) == other.gather(blocks),
        one.read_all(blocks) == other.read_all(blocks),
        one.read_all_outcome(blocks) == other.read_all_outcome(blocks),
{
    gathers_alike(one, other, blocks);
    prefixes_alike(one, other, blocks);
    gathers_alike(one, other, blocks.take(one.readable_prefix(blocks)));
}

/// Two stores that hold the same bytes in blocks of the same size have the
/// same payloads in their blocks.
proof fn gathers_alike(one: BlockStore, other: BlockStore, blocks: Seq<u64>)
    requires
        one.bytes == other.bytes,
        one.block_size == other.block_size,
    ensures
        one.gather(blocks) == other.gather(blocks),
    decreases blocks.len(),
{
    if blocks.len() > 0 {
        gathers_alike(one, other, blocks.drop_last());
    }
}

/// Two stores that hold the same bytes in blocks of the same size hold the
/// same blocks whole.
proof fn prefixes_alike(one: BlockStore, other: BlockStore, blocks: Seq<u64>)
    requires
        one.bytes == other.bytes,
        one.block_size == other.block_size,
    ensures
        one.readable_prefix(blocks) == other.readable_prefix(blocks),
    decreases blocks.len(),
{
    if blocks.len() > 0 {
        prefixes_alike(one, other, blocks.drop_first());
    }
}

/// The payloads of two lists of blocks, one after the other, are the payloads
/// of the joined list.
pub proof fn gather_of_joined(store: BlockStore, front: Seq<u64>, back: Seq<u64>)
    ensures
        store.gather(front + back) == store.gather(front) + store.gather(back),
    decreases back.len(),
{
    if back.len() > 0 {
        gather_of_joined(store, front, back.drop_last());
        assert((front + back).drop_last() =~= front + back.drop_last());
    }
}

/// Blocks that two stores hold alike have the same payloads in both.
pub proof fn gather_of_kept_blocks(before: BlockStore, after: BlockStore, blocks: Seq<u64>)
    requires
        forall|i: int|
            0 <= i < blocks.len() ==> before.block(#[trigger] blocks[i] as int) == after.block(
                blocks[i] as int,
            ),
    ensures
        before.gather(blocks) == after.gather(blocks),
    decreases blocks.len(),
{
    if blocks.len() > 0 {
        gather_of_kept_blocks(before, after, blocks.drop_last());
    }
}

/// The blocks that hold the chunks of a payload, read back up to the `k`-th,
/// yield the payload's first `k` chunks.
proof fn gather_of_written(store: BlockStore, first: int, data: Seq<u8>, k: int)
    requires
        store.block_size > 0,
        first >= 0,
        0 <= k <= chunk_count(data.len() as int, store.block_size),
        first + chunk_count(data.len() as int, store.block_size) <= u64::MAX,
        ends_clean(data, store.block_size),
        forall|index: int|
            first <= index < first + k ==> #[trigger] store.block(index) == padded(
                chunk(data, store.block_size, index - first),
                store.block_size,
            ),
    ensures
        store.gather(Seq::new(k as nat, |i: int| (first + i) as u64)) == data.subrange(
            0,
            if k * store.block_size <= data.len() {
                k * store.block_size
            } else {
                data.len() as int
            },
        ),
    decreases k,
{
    let blocks = Seq::new(k as nat, |i: int| (first + i) as u64);
    if k == 0 {
        assert(0 * store.block_size == 0) by (nonlinear_arith);
    } else {
        gather_of_written(store, first, data, k - 1);
        chunk_bounds(data, store.block_size, k - 1);
        assert(blocks.drop_last() =~= Seq::new((k - 1) as nat, |i: int| (first + i) as u64));
        trimmed_padded(chunk(data, store.block_size, k - 1), store.block_size);
        assert((k - 1) * store.block_size + store.block_size == k * store.block_size)
            by (nonlinear_arith);
    }
}

/// Data that was appended to the store is read back from the blocks that the
/// append returned, byte for byte, provided that none of its chunks ends in a
/// zero byte. The append returns one block for each block's worth of data,
/// counting a rest as one more.
pub proof fn pushed_data_reads_back(store: BlockStore, data: Seq<u8>)
    requires
        store.well_formed(),
        store.push_outcome(data) is Ok,
        ends_clean(data, store.block_size),
    ensures
        store.push_outcome(data)->Ok_0.len() == chunk_count(
            data.len() as int,
            store.block_size,
        ),
        store.after_push(data).read_all_outcome(store.push_outcome(data)->Ok_0) is Ok,
        store.after_push(data).read_all(store.push_outcome(data)->Ok_0) == data,
        store.after_push(data).gather(store.push_outcome(data)->Ok_0) == data,
        forall|j: int|
            0 <= j < store.push_outcome(data)->Ok_0.len() ==> store.after_push(data).holds(
                #[trigger] store.push_outcome(data)->Ok_0[j] as int,
            ),
{
    let first = store.blocks_count;
    let count = chunk_count(data.len() as int, store.block_size);
    let blocks = store.push_outcome(data)->Ok_0;
    let written = store.put_chunks(first, data, count);
    chunk_count_bounds(data.len() as int, store.block_size);
    lemma_div_is_ordered_by_denominator(usize::MAX as int, 1, store.block_size);
    written_chunks_and_others(store, first, data, count);
    put_chunks_keeps_geometry(store, first, data, count);
    reading_depends_on_bytes(store.after_push(data), written, blocks);
    if count > 0 {
        assert forall|index: int| first <= index < first + count implies #[trigger] written.block(
            index,
        ) == padded(chunk(data, store.block_size, index - first), store.block_size) by {
            assert(written.holds(index));
        }
        gather_of_written(written, first, data, count);
    }
    assert forall|j: int| 0 <= j < count implies written.holds(#[trigger] blocks[j] as int) by {}
    readable_prefix_ends_at(written, blocks, count);
    assert(blocks.take(count) =~= blocks);
}

/// The blocks that hold the chunks of a payload, read back up to the `k`-th,
/// yield no more bytes than those chunks hold, and fewer once a chunk that
/// ends in a zero byte is among them.
proof fn gather_of_unclean(store: BlockStore, first: int, data: Seq<u8>, k: int, unclean: int)
    requires
        store.block_size > 0,
        first >= 0,
        0 <= k <= chunk_count(data.len() as int, store.block_size),
        first + chunk_count(data.len() as int, store.block_size) <= u64::MAX,
        0 <= unclean < chunk_count(data.len() as int, store.block_size),
        chunk(data, store.block_size, unclean).last() == 0,
        forall|index: int|
            first <= index < first + k ==> #[trigger] store.block(index) == padded(
                chunk(data, store.block_size, index - first),
                store.block_size,
            ),
    ensures
        store.gather(Seq::new(k as nat, |i: int| (first + i) as u64)).len() + (if unclean < k {
            1int
        } else {
            0int
        }) <= (if k * store.block_size <= data.len() {
            k * store.block_size
        } else {
            data.len() as int
        }),
    decreases k,
{
    let blocks = Seq::new(k as nat, |i: int| (first + i) as u64);
    if k > 0 {
        let piece = chunk(data, store.block_size, k - 1);
        gather_of_unclean(store, first, data, k - 1, unclean);
        chunk_bounds(data, store.block_size, k - 1);
        assert(blocks.drop_last() =~= Seq::new((k - 1) as nat, |i: int| (first + i) as u64));
        trimmed_padded(piece, store.block_size);
        trimmed_is_prefix(piece);
        assert((k - 1) * store.block_size + store.block_size == k * store.block_size)
            by (nonlinear_arith);
        if unclean == k - 1 {
            trimmed_is_prefix(piece.drop_last());
        }
    }
}

/// Data of which a chunk ends in a zero byte is not read back whole after it
/// was appended: the blocks that the append returned yield fewer bytes.
pub proof fn unclean_data_reads_back_short(store: BlockStore, data: Seq<u8>)
    requires
        store.well_formed(),
        store.push_outcome(data) is Ok,
        !ends_clean(data, store.block_size),
    ensures
        store.after_push(data).read_all(store.push_outcome(data)->Ok_0).len() < data.len(),
{
    let first = store.blocks_count;
    let count = chunk_count(data.len() as int, store.block_size);
    let blocks = store.push_outcome(data)->Ok_0;
    let written = store.put_chunks(first, data, count);
    let unclean = choose|i: int|
        0 <= i < count && (#[trigger] chunk(data, store.block_size, i)).last() == 0;
    chunk_count_bounds(data.len() as int, store.block_size);
    lemma_div_is_ordered_by_denominator(usize::MAX as int, 1, store.block_size);
    written_chunks_and_others(store, first, data, count);
    put_chunks_keeps_geometry(store, first, data, count);
    reading_depends_on_bytes(store.after_push(data), written, blocks);
    assert forall|index: int| first <= index < first + count implies #[trigger] written.block(
        index,
    ) == padded(chunk(data, store.block_size, index - first), store.block_size) by {
        assert(written.holds(index));
    }
    gather_of_unclean(written, first, data, count, unclean);
    readable_prefix_ends_at(written, blocks, count);
    assert(blocks.take(count) =~= blocks);
}

} // verus!

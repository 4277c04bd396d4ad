//! The file allocator: files and directories by path, their content in the
//! blocks of a block store.
//!
//! Content is only ever appended: each write takes fresh blocks from the
//! store and adds them to the end of the file's list of blocks.

use vstd::prelude::*;
use crate::block_laws::{
    blocks_below_count_are_held, chunk_count_bounds, gather_of_joined, gather_of_kept_blocks,
    push_keeps_other_blocks, push_keeps_well_formed, pushed_data_reads_back,
    readable_prefix_ends_at,
};
use crate::blocks::{chunk_count, ends_clean, BlockStore};
use crate::error::FsError;
use crate::file_table::{path_names, FileTable, FtItem, MagiusDirectory, MagiusFile};
use crate::io::MagiusFsIo;
use crate::tree::{
    file_found_after_insert, insert_at, reinsert_changes_nothing, replaced_item_resolves, resolve,
    Node,
};

verus! {

/// How a write of `data` to the file at `path` ends. The data is appended to
/// the store first, so a failure of the store comes before a missing file.
pub open spec fn write_file_outcome(
    store: BlockStore,
    root: Map<Seq<char>, Node>,
    path: Seq<Seq<char>>,
    data: Seq<u8>,
) -> Result<(), FsError> {
    match store.push_outcome(data) {
        Err(e) => Err(e),
        Ok(_) => match resolve(root, path) {
            None => Err(FsError::NotFound),
            Some(Node::Dir(_)) => Err(FsError::IsDirectory),
            Some(Node::File(_)) => Ok(()),
        },
    }
}

/// The tree after a write of `data` to the file at `path`: the blocks written
/// are added to the end of the file's blocks, and a write that fails leaves
/// the tree as it was.
pub open spec fn root_after_write(
    store: BlockStore,
    root: Map<Seq<char>, Node>,
    path: Seq<Seq<char>>,
    data: Seq<u8>,
) -> Map<Seq<char>, Node> {
    match (store.push_outcome(data), resolve(root, path)) {
        (Ok(written), Some(Node::File(blocks))) => insert_at(
            root,
            path,
            Node::File(blocks + written),
        ),
        _ => root,
    }
}

/// How reading the whole file at `path` ends. Where `path` names no file,
/// nothing is read and nothing fails.
pub open spec fn read_file_outcome(
    store: BlockStore,
    root: Map<Seq<char>, Node>,
    path: Seq<Seq<char>>,
) -> Result<(), FsError> {
    match resolve(root, path) {
        Some(Node::File(blocks)) => store.read_all_outcome(blocks),
        _ => Ok(()),
    }
}

/// What reading the whole file at `path` yields: the payloads of its blocks,
/// in order, up to the first block that cannot be read.
pub open spec fn file_content(
    store: BlockStore,
    root: Map<Seq<char>, Node>,
    path: Seq<Seq<char>>,
) -> Seq<u8> {
    match resolve(root, path) {
        Some(Node::File(blocks)) => store.read_all(blocks),
        _ => Seq::empty(),
    }
}

/// Whether all of `blocks` lie below `bound`.
pub open spec fn all_below(blocks: Seq<u64>, bound: int) -> bool {
    forall|i: int| 0 <= i < blocks.len() ==> (#[trigger] blocks[i]) < bound
}

/// Whether `path` names no file with a block at or above `bound`.
pub open spec fn file_below(root: Map<Seq<char>, Node>, path: Seq<Seq<char>>, bound: int) -> bool {
    resolve(root, path) matches Some(Node::File(blocks)) ==> all_below(blocks, bound)
}

/// Whether an append of `data` leaves `blocks` alone: the store holds each of
/// them, and none is among the blocks that the append writes.
pub open spec fn kept_by_push(store: BlockStore, blocks: Seq<u64>, data: Seq<u8>) -> bool {
    forall|i: int|
        0 <= i < blocks.len() ==> store.holds(#[trigger] blocks[i] as int) && !(store.blocks_count
            <= blocks[i] < store.blocks_count + chunk_count(data.len() as int, store.block_size))
}

/// Whether a store and a tree fit together: the store is well-formed, and
/// every block of every file in the tree lies below the store's next free
/// block. Blocks are handed out from the next free block on and that block
/// never moves back, so in such a state no write touches a block that a file
/// lists.
pub open spec fn consistent(store: BlockStore, root: Map<Seq<char>, Node>) -> bool {
    &&& store.well_formed()
    &&& forall|path: Seq<Seq<char>>| #[trigger] file_below(root, path, store.blocks_count)
}

/// Files and directories by path over a block store and a file table.
pub struct FileAllocator {
    fs_io: MagiusFsIo,
    file_table: FileTable,
}

impl FileAllocator {
    /// The block store as contracts see it.
    pub closed spec fn store(&self) -> BlockStore {
        self.fs_io@
    }

    /// The root directory of the file table as contracts see it.
    pub closed spec fn root(&self) -> Map<Seq<char>, Node> {
        self.file_table@
    }

    /// An allocator over the given store and table.
    pub fn new(fs_io: MagiusFsIo, file_table: FileTable) -> (allocator: Self)
        ensures
            allocator.store() == fs_io@,
            allocator.root() == file_table@,
    {
        Self { fs_io, file_table }
    }

    /// Puts an empty file at `path`, if the directory that it lies in exists.
    pub fn create_file(&mut self, path: Vec<&str>)
        ensures
            final(self).root() == insert_at(
                old(self).root(),
                path_names(path@),
                Node::File(Seq::empty()),
            ),
            final(self).store() == old(self).store(),
            consistent(old(self).store(), old(self).root()) ==> consistent(
                final(self).store(),
                final(self).root(),
            ),
    {
        proof {
            if consistent(self.store(), self.root()) {
                create_keeps_consistent(
                    self.store(),
                    self.root(),
                    path_names(path@),
                    Node::File(Seq::empty()),
                );
            }
        }
        self.file_table.insert_in_path(path, FtItem::File(MagiusFile::default()));
    }

    /// Puts an empty directory at `path`, if the directory that it lies in
    /// exists.
    pub fn create_dir(&mut self, path: Vec<&str>)
        ensures
            final(self).root() == insert_at(
                old(self).root(),
                path_names(path@),
                Node::Dir(Map::empty()),
            ),
            final(self).store() == old(self).store(),
            consistent(old(self).store(), old(self).root()) ==> consistent(
                final(self).store(),
                final(self).root(),
            ),
    {
        proof {
            if consistent(self.store(), self.root()) {
                create_keeps_consistent(
                    self.store(),
                    self.root(),
                    path_names(path@),
                    Node::Dir(Map::empty()),
                );
            }
        }
        self.file_table.insert_in_path(path, FtItem::Dir(MagiusDirectory::default()));
    }

    /// Appends `data` to the file at `path`: takes as many fresh blocks from
    /// the store as the data fills and adds them to the end of the file's
    /// blocks. The blocks are taken before the path is looked up, so they stay
    /// taken where the path names no file.
    pub fn write_file_by_path(&mut self, path: Vec<&str>, data: &[u8]) -> (done: Result<
        (),
        FsError,
    >)
        ensures
            done == write_file_outcome(
                old(self).store(),
                old(self).root(),
                path_names(path@),
                data@,
            ),
            final(self).store() == old(self).store().after_push(data@),
            final(self).root() == root_after_write(
                old(self).store(),
                old(self).root(),
                path_names(path@),
                data@,
            ),
            consistent(old(self).store(), old(self).root()) ==> consistent(
                final(self).store(),
                final(self).root(),
            ),
    {
        proof {
            if consistent(self.store(), self.root()) {
                write_keeps_consistent(self.store(), self.root(), path_names(path@), data@);
            }
        }
        let mut written_blocks = match self.fs_io.push(data) {
            Ok(blocks) => blocks,
            Err(e) => {
                return Err(e);
            },
        };
        let ghost names = path_names(path@);
        let ghost root = old(self).root();
        match self.file_table.get_mut_by_path(path) {
            None => Err(FsError::NotFound),
            Some(FtItem::File(file)) => {
                file.blocks.append(&mut written_blocks);
                Ok(())
            },
            Some(FtItem::Dir(dir)) => {
                proof {
                    reinsert_changes_nothing(root, names, Node::Dir(dir@));
                }
                Err(FsError::IsDirectory)
            },
        }
    }

    /// Appends the content of the file at `path` to `buf`: the payloads of its
    /// blocks, in order. Where `path` names no file, nothing is read.
    pub fn read_entire_file_by_path(&self, path: Vec<&str>, buf: &mut Vec<u8>) -> (done: Result<
        (),
        FsError,
    >)
        ensures
            done == read_file_outcome(self.store(), self.root(), path_names(path@)),
            final(buf)@ == old(buf)@ + file_content(
                self.store(),
                self.root(),
                path_names(path@),
            ),
    {
        match self.get_file(path) {
            Some(FtItem::File(file)) => self.read_entire_file(file, buf),
            _ => Ok(()),
        }
    }

    /// The item that `path` names.
    pub fn get_file(&self, path: Vec<&str>) -> (found: Option<&FtItem>)
        ensures
            match found {
                Some(item) => resolve(self.root(), path_names(path@)) == Some(item@),
                None => resolve(self.root(), path_names(path@)) is None,
            },
    {
        self.file_table.get_by_path(path)
    }

    /// The item that `path` names, to be changed in place.
    pub fn get_file_mut(&mut self, path: Vec<&str>) -> (found: Option<&mut FtItem>)
        ensures
            match found {
                Some(item) => {
                    &&& resolve(old(self).root(), path_names(path@)) == Some((*item)@)
                    &&& final(self).root() == insert_at(
                        old(self).root(),
                        path_names(path@),
                        (*final(item))@,
                    )
                },
                None => {
                    &&& resolve(old(self).root(), path_names(path@)) is None
                    &&& final(self).root() == old(self).root()
                },
            },
            final(self).store() == old(self).store(),
    {
        self.file_table.get_mut_by_path(path)
    }

    /// Appends the content of `file` to `buf`: the payloads of its blocks, in
    /// order. Reading stops at the first block that the store does not hold
    /// whole; what was read before it stays in `buf`.
    pub fn read_entire_file(&self, file: &MagiusFile, buf: &mut Vec<u8>) -> (done: Result<
        (),
        FsError,
    >)
        ensures
            done == self.store().read_all_outcome(file@),
            final(buf)@ == old(buf)@ + self.store().read_all(file@),
    {
        let ghost store = self.store();
        let ghost blocks = file@;
        let n: usize = file.blocks.len();
        let mut i: usize = 0;
        while i < n
            invariant
                i <= n,
                n == blocks.len(),
                blocks == file.blocks@,
                store == self.fs_io@,
                forall|j: int| 0 <= j < i ==> store.holds(#[trigger] blocks[j] as int),
                buf@ == old(buf)@ + store.gather(blocks.take(i as int)),
            decreases n - i,
        {
            let mut read = match self.fs_io.read_block(file.blocks[i]) {
                Ok(read) => read,
                Err(e) => {
                    proof {
                        readable_prefix_ends_at(store, blocks, i as int);
                    }
                    return Err(e);
                },
            };
            proof {
                assert(blocks.take(i + 1).drop_last() =~= blocks.take(i as int));
            }
            buf.append(&mut read);
            i += 1;
        }
        proof {
            readable_prefix_ends_at(store, blocks, n as int);
        }
        Ok(())
    }

    /// Takes the allocator apart into its store and its table, to persist them.
    pub fn into_parts(self) -> (parts: (MagiusFsIo, FileTable))
        ensures
            parts.0@ == self.store(),
            parts.1@ == self.root(),
    {
        (self.fs_io, self.file_table)
    }
}

/// A well-formed store and the empty tree fit together.
pub proof fn empty_tree_is_consistent(store: BlockStore)
    requires
        store.well_formed(),
    ensures
        consistent(store, Map::empty()),
{
}

/// Putting an empty file or an empty directory into the tree keeps store and
/// tree fitting together.
pub proof fn create_keeps_consistent(
    store: BlockStore,
    root: Map<Seq<char>, Node>,
    path: Seq<Seq<char>>,
    item: Node,
)
    requires
        consistent(store, root),
        item == Node::File(Seq::empty()) || item == Node::Dir(Map::empty()),
    ensures
        consistent(store, insert_at(root, path, item)),
{
    let after = insert_at(root, path, item);
    assert forall|other: Seq<Seq<char>>| #[trigger]
        file_below(after, other, store.blocks_count) by {
        file_found_after_insert(root, path, item, other);
        assert(file_below(root, other, store.blocks_count));
    }
}

/// A write to a file, whether it succeeds or fails, keeps store and tree
/// fitting together.
pub proof fn write_keeps_consistent(
    store: BlockStore,
    root: Map<Seq<char>, Node>,
    path: Seq<Seq<char>>,
    data: Seq<u8>,
)
    requires
        consistent(store, root),
    ensures
        consistent(store.after_push(data), root_after_write(store, root, path, data)),
{
    let after = root_after_write(store, root, path, data);
    push_keeps_well_formed(store, data);
    assert forall|other: Seq<Seq<char>>| #[trigger]
        file_below(after, other, store.after_push(data).blocks_count) by {
        assert(file_below(root, other, store.blocks_count));
        if after != root {
            let written = store.push_outcome(data)->Ok_0;
            let held = resolve(root, path)->0->File_0;
            file_found_after_insert(root, path, Node::File(held + written), other);
        }
    }
}

/// Where store and tree fit together, no append touches a block that a file
/// of the tree lists.
pub proof fn consistent_files_are_kept(
    store: BlockStore,
    root: Map<Seq<char>, Node>,
    path: Seq<Seq<char>>,
    data: Seq<u8>,
)
    requires
        consistent(store, root),
    ensures
        resolve(root, path) matches Some(Node::File(blocks)) ==> kept_by_push(store, blocks, data),
{
    match resolve(root, path) {
        Some(Node::File(blocks)) => {
            assert(file_below(root, path, store.blocks_count));
            chunk_count_bounds(data.len() as int, store.block_size);
            assert forall|i: int| 0 <= i < blocks.len() implies store.holds(
                #[trigger] blocks[i] as int,
            ) by {
                blocks_below_count_are_held(store, blocks[i] as int);
            }
        },
        _ => {},
    }
}

/// Data that was written to a file is read back from it, byte for byte,
/// behind what the file held before, provided that none of the data's chunks
/// ends in a zero byte and that the write leaves alone the blocks that the
/// file lists so far. A file that was empty reads back as the data.
pub proof fn written_data_reads_back(
    store: BlockStore,
    root: Map<Seq<char>, Node>,
    path: Seq<Seq<char>>,
    data: Seq<u8>,
)
    requires
        store.well_formed(),
        ends_clean(data, store.block_size),
        write_file_outcome(store, root, path, data) is Ok,
        resolve(root, path) matches Some(Node::File(blocks)) && kept_by_push(store, blocks, data),
    ensures
        read_file_outcome(
            store.after_push(data),
            root_after_write(store, root, path, data),
            path,
        ) is Ok,
        file_content(store.after_push(data), root_after_write(store, root, path, data), path)
            == file_content(store, root, path) + data,
        resolve(root, path) == Some(Node::File(Seq::empty())) ==> file_content(
            store.after_push(data),
            root_after_write(store, root, path, data),
            path,
        ) == data,
{
    let held = resolve(root, path)->0->File_0;
    let written = store.push_outcome(data)->Ok_0;
    let joined = held + written;
    let after = store.after_push(data);
    replaced_item_resolves(root, path, Node::File(joined));
    pushed_data_reads_back(store, data);
    assert forall|i: int| 0 <= i < held.len() implies after.holds(#[trigger] held[i] as int)
        && store.block(held[i] as int) == after.block(held[i] as int) by {
        push_keeps_other_blocks(store, data, held[i] as int);
    }
    gather_of_kept_blocks(store, after, held);
    gather_of_joined(after, held, written);
    readable_prefix_ends_at(store, held, held.len() as int);
    assert(held.take(held.len() as int) =~= held);
    readable_prefix_ends_at(after, joined, joined.len() as int);
    assert(joined.take(joined.len() as int) =~= joined);
}

} // verus!

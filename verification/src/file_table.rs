//! The file table: a tree of directories and files that maps path components
//! to the regions holding each file's content.
//!
//! A directory keeps its entries in the order of their names and holds no name
//! twice, so two directories with the same entries are equal field by field.

use vstd::prelude::*;
use crate::error::FsError;
use crate::name::{
    ascending, name_before, name_order_is_strict_total, name_order_is_transitive, side_of, Side,
};
use crate::tree::{insert_at, resolve, Node};

verus! {

/// A file: the regions that hold its content, in the order of its bytes.
#[derive(Debug, PartialEq)]
pub struct MagiusFile {
    pub blocks: Vec<u64>,
}

/// An item of the tree.
#[derive(Debug, PartialEq)]
pub enum FtItem {
    Dir(MagiusDirectory),
    File(MagiusFile),
}

/// A directory: entries with distinct names, each a file or a directory.
#[derive(Debug, PartialEq)]
pub struct MagiusDirectory {
    names: Vec<String>,
    items: Vec<FtItem>,
}

/// The names that the components of a path stand for.
pub open spec fn path_names(path: Seq<&str>) -> Seq<Seq<char>> {
    Seq::new(path.len(), |i: int| path[i]@)
}

/// Whether the entry at position `i` carries the name `name`.
spec fn named(names: Seq<String>, name: Seq<char>, i: int) -> bool {
    0 <= i < names.len() && names[i]@ == name
}

impl MagiusFile {
    /// The file's regions.
    pub open spec fn view(&self) -> Seq<u64> {
        self.blocks@
    }
}

impl Default for MagiusFile {
    /// A file without content.
    fn default() -> (file: Self)
        ensures
            file@ == Seq::<u64>::empty(),
    {
        MagiusFile { blocks: Vec::new() }
    }
}

impl Default for MagiusDirectory {
    /// A directory without entries.
    fn default() -> (dir: Self)
        ensures
            dir@ == Map::<Seq<char>, Node>::empty(),
    {
        MagiusDirectory { names: Vec::new(), items: Vec::new() }
    }
}

impl FtItem {
    /// The item as contracts see it.
    pub open spec fn view(&self) -> Node
        decreases self,
    {
        match self {
            FtItem::Dir(dir) => Node::Dir(dir.view()),
            FtItem::File(file) => Node::File(file.view()),
        }
    }
}

impl MagiusDirectory {
    /// The entries are as many names as items, and the names ascend.
    #[verifier::type_invariant]
    spec fn well_formed(&self) -> bool {
        &&& self.names@.len() == self.items@.len()
        &&& forall|i: int, j: int|
            0 <= i < j < self.names@.len() ==> name_before(
                #[trigger] self.names@[i]@,
                #[trigger] self.names@[j]@,
            )
    }

    /// The directory as contracts see it: the map from each entry's name to
    /// its item.
    pub closed spec fn view(&self) -> Map<Seq<char>, Node>
        decreases self,
    {
        Map::new(
            |name: Seq<char>| exists|i: int| named(self.names@, name, i),
            |name: Seq<char>|
                {
                    let i = choose|i: int| named(self.names@, name, i);
                    if 0 <= i < self.items@.len() {
                        self.items@[i].view()
                    } else {
                        Node::File(Seq::empty())
                    }
                },
        )
    }

    /// The names of the entries, in the order in which the directory keeps
    /// them.
    pub closed spec fn names(&self) -> Seq<Seq<char>> {
        Seq::new(self.names@.len(), |i: int| self.names@[i]@)
    }

    /// In a well-formed directory the entry at each position is what the view
    /// maps its name to, and the view holds no other names.
    proof fn view_by_position(&self)
        requires
            self.well_formed(),
        ensures
            forall|i: int|
                #![trigger self.names@[i]]
                0 <= i < self.names@.len() ==> self@.contains_key(self.names@[i]@)
                    && self@[self.names@[i]@] == self.items@[i]@,
            forall|name: Seq<char>| #[trigger]
                self@.contains_key(name) ==> exists|i: int| named(self.names@, name, i),
    {
        assert forall|i: int|
            #![trigger self.names@[i]]
            0 <= i < self.names@.len() implies self@.contains_key(self.names@[i]@)
            && self@[self.names@[i]@] == self.items@[i]@ by {
            let name = self.names@[i]@;
            assert(named(self.names@, name, i));
            name_order_is_strict_total(name, name);
        }
    }

    /// Finds the position of the entry named `name`, or else the position at
    /// which an entry of that name belongs.
    fn find(&self, name: &str) -> (at: Result<usize, usize>)
        ensures
            match at {
                Ok(i) => named(self.names@, name@, i as int),
                Err(i) => {
                    &&& i <= self.names@.len()
                    &&& forall|j: int|
                        0 <= j < i ==> name_before(#[trigger] self.names@[j]@, name@)
                    &&& forall|j: int|
                        i <= j < self.names@.len() ==> name_before(
                            name@,
                            #[trigger] self.names@[j]@,
                        )
                },
            },
    {
        proof {
            use_type_invariant(self);
        }
        let mut low: usize = 0;
        let mut high: usize = self.names.len();
        while low < high
            invariant
                low <= high <= self.names@.len(),
                self.well_formed(),
                forall|j: int| 0 <= j < low ==> name_before(#[trigger] self.names@[j]@, name@),
                forall|j: int|
                    high <= j < self.names@.len() ==> name_before(
                        name@,
                        #[trigger] self.names@[j]@,
                    ),
            decreases high - low,
        {
            let mid: usize = low + (high - low) / 2;
            match side_of(self.names[mid].as_str(), name) {
                Side::Same => {
                    return Ok(mid);
                },
                Side::Before => {
                    assert forall|j: int| 0 <= j < mid + 1 implies name_before(
                        #[trigger] self.names@[j]@,
                        name@,
                    ) by {
                        if j < mid {
                            name_order_is_transitive(
                                self.names@[j]@,
                                self.names@[mid as int]@,
                                name@,
                            );
                        }
                    }
                    low = mid + 1;
                },
                Side::After => {
                    assert forall|j: int| mid <= j < self.names@.len() implies name_before(
                        name@,
                        #[trigger] self.names@[j]@,
                    ) by {
                        if j > mid {
                            name_order_is_transitive(
                                name@,
                                self.names@[mid as int]@,
                                self.names@[j]@,
                            );
                        }
                    }
                    high = mid;
                },
            }
        }
        Err(low)
    }

    /// What `find` reports as missing is no key of the view.
    proof fn missing_is_no_key(&self, name: Seq<char>, at: int)
        requires
            self.well_formed(),
            forall|j: int| 0 <= j < at ==> name_before(#[trigger] self.names@[j]@, name),
            forall|j: int|
                at <= j < self.names@.len() ==> name_before(name, #[trigger] self.names@[j]@),
        ensures
            !self@.contains_key(name),
    {
        name_order_is_strict_total(name, name);
    }

    /// The item of the entry named `name`.
    pub fn get(&self, name: &str) -> (found: Option<&FtItem>)
        ensures
            match found {
                Some(item) => self@.contains_key(name@) && self@[name@] == item@,
                None => !self@.contains_key(name@),
            },
    {
        proof {
            use_type_invariant(self);
            self.view_by_position();
        }
        match self.find(name) {
            Ok(i) => Some(&self.items[i]),
            Err(i) => {
                proof {
                    self.missing_is_no_key(name@, i as int);
                }
                None
            },
        }
    }

    /// The item of the entry named `name`, to be changed in place. The
    /// directory is then what it was with that entry's item replaced by what
    /// the caller leaves behind the reference.
    pub fn get_mut(&mut self, name: &str) -> (found: Option<&mut FtItem>)
        ensures
            match found {
                Some(item) => {
                    &&& old(self)@.contains_key(name@)
                    &&& old(self)@[name@] == (*item)@
                    &&& final(self)@ == old(self)@.insert(name@, (*final(item))@)
                },
                None => !old(self)@.contains_key(name@) && final(self)@ == old(self)@,
            },
    {
        proof {
            use_type_invariant(&*self);
            self.view_by_position();
        }
        match self.find(name) {
            Ok(i) => {
                let item = &mut self.items[i];
                proof {
                    let after = after_borrow(*self);
                    after.replaced_at(*old(self), i as int);
                }
                Some(item)
            },
            Err(i) => {
                proof {
                    self.missing_is_no_key(name@, i as int);
                }
                None
            },
        }
    }

    /// Puts `item` under the name `name`, in place of the entry of that name
    /// if there is one.
    pub fn insert(&mut self, name: &str, item: FtItem)
        ensures
            final(self)@ == old(self)@.insert(name@, item@),
    {
        proof {
            use_type_invariant(&*self);
        }
        match self.find(name) {
            Ok(i) => {
                self.items[i] = item;
                proof {
                    self.replaced_at(*old(self), i as int);
                }
            },
            Err(i) => {
                let mut taken = MagiusDirectory::default();
                std::mem::swap(self, &mut taken);
                let MagiusDirectory { mut names, mut items } = taken;
                names.insert(i, name.to_owned());
                items.insert(i, item);
                proof {
                    let grown = MagiusDirectory { names, items };
                    grown.inserted_at(*old(self), i as int);
                }
                *self = MagiusDirectory { names, items };
            },
        }
    }

    /// The number of entries. The names of the entries ascend, and they are
    /// the names that the directory maps.
    pub fn len(&self) -> (count: usize)
        ensures
            count == self.names().len(),
            ascending(self.names()),
            forall|name: Seq<char>| self@.contains_key(name) <==> self.names().contains(name),
    {
        proof {
            use_type_invariant(self);
            self.view_by_position();
            assert forall|name: Seq<char>| self@.contains_key(name) <==> self.names().contains(
                name,
            ) by {
                if self@.contains_key(name) {
                    let i = choose|i: int| named(self.names@, name, i);
                    assert(self.names()[i] == name);
                }
            }
        }
        self.names.len()
    }

    /// The entry at position `i` in the order of the names: its name and its
    /// item. There is none at or past `len`.
    pub fn entry(&self, i: usize) -> (found: Option<(&str, &FtItem)>)
        ensures
            match found {
                Some((name, item)) => {
                    &&& i < self.names().len()
                    &&& name@ == self.names()[i as int]
                    &&& self@.contains_key(name@)
                    &&& self@[name@] == item@
                },
                None => i >= self.names().len(),
            },
    {
        proof {
            use_type_invariant(self);
            self.view_by_position();
        }
        if i < self.names.len() {
            Some((self.names[i].as_str(), &self.items[i]))
        } else {
            None
        }
    }

    /// The item that `path` names below this directory: every component but
    /// the last has to name a directory. The empty path names nothing.
    pub fn get_by_path(&self, path: Vec<&str>) -> (found: Option<&FtItem>)
        ensures
            match found {
                Some(item) => resolve(self@, path_names(path@)) == Some(item@),
                None => resolve(self@, path_names(path@)) is None,
            },
    {
        let n: usize = path.len();
        if n == 0 {
            return None;
        }
        let ghost names = path_names(path@);
        let mut dir: &MagiusDirectory = self;
        let mut i: usize = 0;
        proof {
            assert(names.skip(0) =~= names);
        }
        while i + 1 < n
            invariant
                i < n,
                n == path@.len(),
                names == path_names(path@),
                resolve(self@, names) == resolve(dir@, names.skip(i as int)),
            decreases n - i,
        {
            proof {
                assert(names.skip(i as int).drop_first() =~= names.skip(i + 1));
            }
            match dir.get(path[i]) {
                Some(FtItem::Dir(sub)) => {
                    dir = sub;
                },
                _ => {
                    return None;
                },
            }
            i += 1;
        }
        dir.get(path[i])
    }

    /// The item that `path` names below this directory, to be changed in
    /// place. The directory is then what it was with the item at `path`
    /// replaced by what the caller leaves behind the reference.
    pub fn get_mut_by_path(&mut self, path: Vec<&str>) -> (found: Option<&mut FtItem>)
        ensures
            match found {
                Some(item) => {
                    &&& resolve(old(self)@, path_names(path@)) == Some((*item)@)
                    &&& final(self)@ == insert_at(
                        old(self)@,
                        path_names(path@),
                        (*final(item))@,
                    )
                },
                None => resolve(old(self)@, path_names(path@)) is None && final(self)@ == old(self)@,
            },
    {
        if path.len() == 0 {
            return None;
        }
        proof {
            assert(path_names(path@).skip(0) =~= path_names(path@));
        }
        self.get_mut_from(&path, 0)
    }

    /// `get_mut_by_path` for the components of `path` from position `from` on.
    fn get_mut_from<'a>(&'a mut self, path: &Vec<&str>, from: usize) -> (found: Option<
        &'a mut FtItem,
    >)
        requires
            from < path@.len(),
        ensures
            match found {
                Some(item) => {
                    &&& resolve(old(self)@, path_names(path@).skip(from as int)) == Some(
                        (*item)@,
                    )
                    &&& final(self)@ == insert_at(
                        old(self)@,
                        path_names(path@).skip(from as int),
                        (*final(item))@,
                    )
                },
                None => resolve(old(self)@, path_names(path@).skip(from as int)) is None
                    && final(self)@ == old(self)@,
            },
        decreases path@.len() - from,
    {
        let ghost rest = path_names(path@).skip(from as int);
        proof {
            assert(rest.drop_first() =~= path_names(path@).skip(from + 1));
        }
        let n: usize = path.len();
        if from + 1 == n {
            return self.get_mut(path[from]);
        }
        match self.get_mut(path[from]) {
            Some(FtItem::Dir(sub)) => sub.get_mut_from(path, from + 1),
            _ => None,
        }
    }

    /// Puts `item` at `path` below this directory. Every component but the
    /// last has to name a directory that exists: no directory is made on the
    /// way, and where one is missing nothing is changed.
    pub fn insert_in_path(&mut self, path: Vec<&str>, item: FtItem)
        ensures
            final(self)@ == insert_at(old(self)@, path_names(path@), item@),
    {
        if path.len() == 0 {
            return ;
        }
        proof {
            assert(path_names(path@).skip(0) =~= path_names(path@));
        }
        self.insert_from(&path, 0, item);
    }

    /// `insert_in_path` for the components of `path` from position `from` on.
    fn insert_from(&mut self, path: &Vec<&str>, from: usize, item: FtItem)
        requires
            from < path@.len(),
        ensures
            final(self)@ == insert_at(
                old(self)@,
                path_names(path@).skip(from as int),
                item@,
            ),
        decreases path@.len() - from,
    {
        let ghost rest = path_names(path@).skip(from as int);
        proof {
            assert(rest.drop_first() =~= path_names(path@).skip(from + 1));
        }
        let n: usize = path.len();
        if from + 1 == n {
            self.insert(path[from], item);
            return ;
        }
        match self.get_mut(path[from]) {
            Some(FtItem::Dir(sub)) => {
                sub.insert_from(path, from + 1, item);
            },
            _ => {},
        }
    }

    /// A directory that differs from a well-formed one in one more entry, at
    /// the position that keeps the names ascending, maps the new name to the
    /// new item and is otherwise the same.
    proof fn inserted_at(&self, before: Self, i: int)
        requires
            before.well_formed(),
            0 <= i <= before.names@.len(),
            self.names@ == before.names@.insert(i, self.names@[i]),
            self.items@ == before.items@.insert(i, self.items@[i]),
            forall|j: int|
                0 <= j < i ==> name_before(#[trigger] before.names@[j]@, self.names@[i]@),
            forall|j: int|
                i <= j < before.names@.len() ==> name_before(
                    self.names@[i]@,
                    #[trigger] before.names@[j]@,
                ),
        ensures
            self.well_formed(),
            self@ == before@.insert(self.names@[i]@, self.items@[i]@),
    {
        let name = self.names@[i]@;
        self.view_by_position();
        before.view_by_position();
        before.missing_is_no_key(name, i);
        assert forall|k: Seq<char>| before@.contains_key(k) implies self@.contains_key(k) by {
            let at = choose|at: int| named(before.names@, k, at);
            assert(named(self.names@, k, if at < i { at } else { at + 1 }));
        }
    }

    /// A directory that differs from a well-formed one in the item at one
    /// position maps that position's name to the new item and is otherwise
    /// the same.
    proof fn replaced_at(&self, before: Self, i: int)
        requires
            before.well_formed(),
            0 <= i < before.names@.len(),
            self.names == before.names,
            self.items@ == before.items@.update(i, self.items@[i]),
        ensures
            self.well_formed(),
            self@ == before@.insert(before.names@[i]@, self.items@[i]@),
    {
        self.view_by_position();
        before.view_by_position();
    }
}

/// The tree that opening a persisted table yields: the decoded tree where
/// bytes were read and could be decoded, else the empty tree.
pub open spec fn opened(bytes_read: usize, decoded: Option<Map<Seq<char>, Node>>) -> Map<
    Seq<char>,
    Node,
> {
    match decoded {
        Some(root) if bytes_read > 0 => root,
        _ => Map::empty(),
    }
}

/// Opening a table from the tree that was persisted, read back with at least
/// one byte, gives a table in which every path names what it named before.
pub proof fn reopened_table_resolves_alike(
    root: Map<Seq<char>, Node>,
    bytes_read: usize,
    path: Seq<Seq<char>>,
)
    requires
        bytes_read > 0,
    ensures
        opened(bytes_read, Some(root)) == root,
        resolve(opened(bytes_read, Some(root)), path) == resolve(root, path),
{
}

/// The file table of one session: the root directory of the tree.
///
/// It is opened from what was read of its persisted form, changed in memory,
/// and handed back as a whole by `close` to be persisted again.
pub struct FileTable {
    root_dir: MagiusDirectory,
}

impl FileTable {
    /// The root directory as contracts see it.
    pub closed spec fn view(&self) -> Map<Seq<char>, Node> {
        self.root_dir@
    }

    /// Decides what the persisted table holds, given the number of bytes that
    /// were read of it and the tree that was decoded from them, if any.
    pub fn read_root_dir_file(bytes_read: usize, decoded: Option<MagiusDirectory>) -> (root: Result<
        MagiusDirectory,
        FsError,
    >)
        ensures
            match root {
                Ok(dir) => bytes_read > 0 && decoded == Some(dir),
                Err(e) => if bytes_read == 0 {
                    e == FsError::EmptyTable
                } else {
                    e == FsError::CorruptTable && decoded is None
                },
            },
    {
        if bytes_read == 0 {
            return Err(FsError::EmptyTable);
        }
        match decoded {
            Some(dir) => Ok(dir),
            None => Err(FsError::CorruptTable),
        }
    }

    /// Opens the table: with the persisted tree where there is one, and with
    /// an empty root where nothing was read or nothing could be decoded.
    pub fn new(bytes_read: usize, decoded: Option<MagiusDirectory>) -> (table: Self)
        ensures
            table@ == opened(
                bytes_read,
                match decoded {
                    Some(dir) => Some(dir@),
                    None => None,
                },
            ),
    {
        match Self::read_root_dir_file(bytes_read, decoded) {
            Ok(root_dir) => FileTable { root_dir },
            Err(_) => FileTable { root_dir: MagiusDirectory::default() },
        }
    }

    /// Puts `item` at `path`; see `MagiusDirectory::insert_in_path`.
    pub fn insert_in_path(&mut self, path: Vec<&str>, item: FtItem)
        ensures
            final(self)@ == insert_at(old(self)@, path_names(path@), item@),
    {
        self.root_dir.insert_in_path(path, item);
    }

    /// The item that `path` names; see `MagiusDirectory::get_by_path`.
    pub fn get_by_path(&self, path: Vec<&str>) -> (found: Option<&FtItem>)
        ensures
            match found {
                Some(item) => resolve(self@, path_names(path@)) == Some(item@),
                None => resolve(self@, path_names(path@)) is None,
            },
    {
        self.root_dir.get_by_path(path)
    }

    /// The item that `path` names, to be changed in place; see
    /// `MagiusDirectory::get_mut_by_path`.
    pub fn get_mut_by_path(&mut self, path: Vec<&str>) -> (found: Option<&mut FtItem>)
        ensures
            match found {
                Some(item) => {
                    &&& resolve(old(self)@, path_names(path@)) == Some((*item)@)
                    &&& final(self)@ == insert_at(
                        old(self)@,
                        path_names(path@),
                        (*final(item))@,
                    )
                },
                None => resolve(old(self)@, path_names(path@)) is None && final(self)@ == old(self)@,
            },
    {
        self.root_dir.get_mut_by_path(path)
    }

    /// The root directory.
    pub fn root(&self) -> (dir: &MagiusDirectory)
        ensures
            dir@ == self@,
    {
        &self.root_dir
    }

    /// Ends the session and hands back the whole tree, to be persisted.
    pub fn close(self) -> (dir: MagiusDirectory)
        ensures
            dir@ == self@,
    {
        self.root_dir
    }
}

} // verus!

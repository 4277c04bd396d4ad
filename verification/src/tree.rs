//! The directory tree as contracts see it, and how a path is resolved in it.
//!
//! A path is a list of component names. Resolving it walks the tree from the
//! root, one component at a time, and every component but the last has to name
//! a directory: nothing is found behind a missing entry or behind a file.

use vstd::prelude::*;

verus! {

/// An item of the tree: a directory, which maps names to items, or a file,
/// which lists the regions that hold its content in the order of its bytes.
pub enum Node {
    Dir(Map<Seq<char>, Node>),
    File(Seq<u64>),
}

/// The item that `path` names below the directory `dir`, if there is one.
/// The empty path names nothing.
pub open spec fn resolve(dir: Map<Seq<char>, Node>, path: Seq<Seq<char>>) -> Option<Node>
    decreases path.len(),
{
    if path.len() == 0 || !dir.contains_key(path[0]) {
        None
    } else if path.len() == 1 {
        Some(dir[path[0]])
    } else {
        match dir[path[0]] {
            Node::Dir(sub) => resolve(sub, path.drop_first()),
            Node::File(_) => None,
        }
    }
}

/// The directory `dir` after `item` was put at `path`. The last component
/// names the entry that is put or replaced; the components before it have to
/// lead through directories that exist, else the tree stays as it is.
pub open spec fn insert_at(dir: Map<Seq<char>, Node>, path: Seq<Seq<char>>, item: Node) -> Map<
    Seq<char>,
    Node,
>
    decreases path.len(),
{
    if path.len() == 0 {
        dir
    } else if path.len() == 1 {
        dir.insert(path[0], item)
    } else if dir.contains_key(path[0]) {
        match dir[path[0]] {
            Node::Dir(sub) => dir.insert(
                path[0],
                Node::Dir(insert_at(sub, path.drop_first(), item)),
            ),
            Node::File(_) => dir,
        }
    } else {
        dir
    }
}

/// Whether the components of `path` before the last lead through directories
/// that exist, so that an entry can be put at `path`.
pub open spec fn has_parent(dir: Map<Seq<char>, Node>, path: Seq<Seq<char>>) -> bool {
    path.len() == 1 || (path.len() > 1 && resolve(dir, path.drop_last()) matches Some(
        Node::Dir(_),
    ))
}

/// Resolving a path of several components resolves all of them but the last,
/// and then looks the last one up in the directory that was found. Behind a
/// file and behind a missing entry nothing is found.
pub proof fn resolve_descends(dir: Map<Seq<char>, Node>, path: Seq<Seq<char>>)
    requires
        path.len() > 1,
    ensures
        resolve(dir, path) == match resolve(dir, path.drop_last()) {
            Some(Node::Dir(sub)) => if sub.contains_key(path.last()) {
                Some(sub[path.last()])
            } else {
                None
            },
            _ => None,
        },
    decreases path.len(),
{
    let parent = path.drop_last();
    let rest = path.drop_first();
    assert(rest.last() == path.last());
    if path.len() > 2 && dir.contains_key(path[0]) {
        match dir[path[0]] {
            Node::Dir(sub) => {
                assert(parent.drop_first() =~= rest.drop_last());
                resolve_descends(sub, rest);
            },
            Node::File(_) => {},
        }
    }
}

/// An item that was put at a path whose parent exists is found there.
pub proof fn inserted_item_resolves(dir: Map<Seq<char>, Node>, path: Seq<Seq<char>>, item: Node)
    requires
        has_parent(dir, path),
    ensures
        resolve(insert_at(dir, path, item), path) == Some(item),
    decreases path.len(),
{
    if path.len() > 1 {
        parent_of_rest(dir, path);
        inserted_item_resolves(dir[path[0]]->Dir_0, path.drop_first(), item);
    }
}

/// An item that replaces the one found at a path is found there in its place.
pub proof fn replaced_item_resolves(dir: Map<Seq<char>, Node>, path: Seq<Seq<char>>, item: Node)
    requires
        resolve(dir, path) is Some,
    ensures
        resolve(insert_at(dir, path, item), path) == Some(item),
    decreases path.len(),
{
    if path.len() > 1 {
        match dir[path[0]] {
            Node::Dir(sub) => {
                replaced_item_resolves(sub, path.drop_first(), item);
            },
            Node::File(_) => {},
        }
    }
}

/// Putting at a path the item that is found there changes nothing.
pub proof fn reinsert_changes_nothing(dir: Map<Seq<char>, Node>, path: Seq<Seq<char>>, item: Node)
    requires
        resolve(dir, path) == Some(item),
    ensures
        insert_at(dir, path, item) == dir,
    decreases path.len(),
{
    if path.len() > 1 {
        match dir[path[0]] {
            Node::Dir(sub) => {
                reinsert_changes_nothing(sub, path.drop_first(), item);
            },
            Node::File(_) => {},
        }
    }
}

/// Putting an item at a path whose parent is missing, or is a file, changes
/// nothing: the tree stays as it was and the path still names nothing.
pub proof fn insert_without_parent_changes_nothing(
    dir: Map<Seq<char>, Node>,
    path: Seq<Seq<char>>,
    item: Node,
)
    requires
        !has_parent(dir, path),
    ensures
        insert_at(dir, path, item) == dir,
        resolve(dir, path) is None,
    decreases path.len(),
{
    if path.len() > 1 && dir.contains_key(path[0]) {
        match dir[path[0]] {
            Node::Dir(sub) => {
                let rest = path.drop_first();
                if rest.len() > 1 {
                    assert(path.drop_last().drop_first() =~= rest.drop_last());
                }
                insert_without_parent_changes_nothing(sub, rest, item);
            },
            Node::File(_) => {},
        }
    }
}

/// Putting an item at a path leaves every other path untouched, unless one of
/// the two leads through the other.
pub proof fn insert_keeps_other_paths(
    dir: Map<Seq<char>, Node>,
    path: Seq<Seq<char>>,
    item: Node,
    other: Seq<Seq<char>>,
)
    requires
        !path.is_prefix_of(other),
        !other.is_prefix_of(path),
    ensures
        resolve(insert_at(dir, path, item), other) == resolve(dir, other),
    decreases path.len(),
{
    if path.len() > 1 && other.len() > 1 && path[0] == other[0] && dir.contains_key(path[0]) {
        match dir[path[0]] {
            Node::Dir(sub) => {
                if other.drop_first().is_prefix_of(path.drop_first()) {
                    prefix_behind_same_first(other, path);
                }
                if path.drop_first().is_prefix_of(other.drop_first()) {
                    prefix_behind_same_first(path, other);
                }
                insert_keeps_other_paths(sub, path.drop_first(), item, other.drop_first());
            },
            Node::File(_) => {},
        }
    }
}

/// A file that is found after an item was put at a path was there before, or
/// is the item that was put, or lies within the directory that was put.
pub proof fn file_found_after_insert(
    dir: Map<Seq<char>, Node>,
    path: Seq<Seq<char>>,
    item: Node,
    other: Seq<Seq<char>>,
)
    ensures
        resolve(insert_at(dir, path, item), other) matches Some(Node::File(blocks)) ==> {
            ||| resolve(dir, other) == Some(Node::File(blocks))
            ||| other == path && item == Node::File(blocks)
            ||| item is Dir && path.is_prefix_of(other) && resolve(
                item->Dir_0,
                other.skip(path.len() as int),
            ) == Some(Node::File(blocks))
        },
    decreases path.len(),
{
    if path.len() > 1 && other.len() > 1 && path[0] == other[0] && dir.contains_key(path[0]) {
        match dir[path[0]] {
            Node::Dir(sub) => {
                let rest = path.drop_first();
                let other_rest = other.drop_first();
                file_found_after_insert(sub, rest, item, other_rest);
                if rest.is_prefix_of(other_rest) {
                    prefix_behind_same_first(path, other);
                    assert(other_rest.skip(rest.len() as int) =~= other.skip(path.len() as int));
                }
            },
            Node::File(_) => {},
        }
    }
}

/// A path leads through another if both start alike and its rest leads
/// through the rest of the other.
proof fn prefix_behind_same_first(short: Seq<Seq<char>>, long: Seq<Seq<char>>)
    requires
        short.len() > 0,
        long.len() > 0,
        short[0] == long[0],
        short.drop_first().is_prefix_of(long.drop_first()),
    ensures
        short.is_prefix_of(long),
{
    assert forall|i: int| 0 <= i < short.len() implies short[i] == long[i] by {
        if i > 0 {
            assert(short.drop_first()[i - 1] == long.drop_first()[i - 1]);
        }
    }
}

/// If the parent of a path of several components exists, its first component
/// names a directory, and the rest of the path has its parent in there.
proof fn parent_of_rest(dir: Map<Seq<char>, Node>, path: Seq<Seq<char>>)
    requires
        path.len() > 1,
        has_parent(dir, path),
    ensures
        dir.contains_key(path[0]),
        dir[path[0]] is Dir,
        has_parent(dir[path[0]]->Dir_0, path.drop_first()),
{
    if path.len() > 2 {
        assert(path.drop_last().drop_first() =~= path.drop_first().drop_last());
    }
}

} // verus!

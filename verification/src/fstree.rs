//! An in-memory model of a directory tree: what the engine observes of the
//! filesystem. A directory whose listing fails is recorded as unreadable;
//! its children are then unobservable.
use vstd::prelude::*;
use crate::strutil::str_eq;

verus! {

/// One node of the tree: a plain file with its modification time, or a
/// directory with its modification time, its entries and whether listing
/// it succeeds.
pub enum FsNode {
    File { mtime: u64 },
    Dir { mtime: u64, readable: bool, entries: Vec<FsEntry> },
}

/// A named child of a directory.
pub struct FsEntry {
    pub name: String,
    pub node: FsNode,
}

impl FsNode {
    /// The node's modification time.
    pub open spec fn mtime_spec(self) -> u64 {
        match self {
            FsNode::File { mtime } => mtime,
            FsNode::Dir { mtime, .. } => mtime,
        }
    }

    /// The node's modification time.
    pub fn mtime(&self) -> (r: u64)
        ensures
            r == self.mtime_spec(),
    {
        match self {
            FsNode::File { mtime } => *mtime,
            FsNode::Dir { mtime, .. } => *mtime,
        }
    }
}

/// The first entry named `name`, if any.
pub open spec fn find_child(entries: Seq<FsEntry>, name: Seq<char>) -> Option<FsNode>
    decreases entries.len(),
{
    if entries.len() == 0 {
        None
    } else if entries[0].name@ == name {
        Some(entries[0].node)
    } else {
        find_child(entries.drop_first(), name)
    }
}

/// The observable child of `n` named `name`: nothing unless `n` is a
/// readable directory holding such an entry.
pub open spec fn child_of(n: FsNode, name: Seq<char>) -> Option<FsNode> {
    match n {
        FsNode::Dir { readable, entries, .. } => if readable {
            find_child(entries@, name)
        } else {
            None
        },
        _ => None,
    }
}

proof fn lemma_find_child_prefix(entries: Seq<FsEntry>, i: int, name: Seq<char>)
    requires
        0 <= i <= entries.len(),
        forall|j: int| 0 <= j < i ==> (#[trigger] entries[j]).name@ != name,
    ensures
        find_child(entries, name) == find_child(entries.skip(i), name),
    decreases i,
{
    if i > 0 {
        assert(entries.drop_first() =~= entries.skip(1));
        lemma_find_child_prefix(entries.skip(1), i - 1, name);
        assert(entries.skip(1).skip(i - 1) =~= entries.skip(i));
    } else {
        assert(entries.skip(0) =~= entries);
    }
}

/// Looks up the observable child of `n` named `name`.
#[verifier::loop_isolation(false)]
pub fn get_child<'a>(n: &'a FsNode, name: &str) -> (r: Option<&'a FsNode>)
    ensures
        match r {
            Some(c) => child_of(*n, name@) == Some(*c),
            None => child_of(*n, name@) is None,
        },
{
    match n {
        FsNode::File { .. } => None,
        FsNode::Dir { readable, entries, .. } => {
            if !*readable {
                return None;
            }
            let mut i: usize = 0;
            while i < entries.len()
                invariant
                    i <= entries.len(),
                    forall|j: int| 0 <= j < i ==> (#[trigger] entries@[j]).name@ != name@,
                decreases entries.len() - i,
            {
                if str_eq(entries[i].name.as_str(), name) {
                    proof {
                        lemma_find_child_prefix(entries@, i as int, name@);
                        assert(entries@.skip(i as int)[0] == entries@[i as int]);
                        assert(entries@.skip(i as int).len() > 0);
                        assert(find_child(entries@.skip(i as int), name@) == Some(
                            entries@[i as int].node,
                        ));
                        assert(find_child(entries@, name@) == Some(entries@[i as int].node));
                    }
                    return Some(&entries[i].node);
                }
                i = i + 1;
            }
            proof {
                lemma_find_child_prefix(entries@, entries@.len() as int, name@);
            }
            None
        },
    }
}

/// How many files the engine can reach in `n`: files inside unreadable
/// directories are unobservable and are not counted.
pub open spec fn file_count(n: FsNode) -> nat
    decreases n,
{
    match n {
        FsNode::File { .. } => 1,
        FsNode::Dir { readable, entries, .. } => if readable {
            file_count_entries(entries@)
        } else {
            0
        },
    }
}

pub open spec fn file_count_entries(es: Seq<FsEntry>) -> nat
    decreases es,
{
    if es.len() == 0 {
        0
    } else {
        file_count(es[0].node) + file_count_entries(es.drop_first())
    }
}

/// How many unreadable directories the engine meets when it walks `n`.
pub open spec fn unreadable_count(n: FsNode) -> nat
    decreases n,
{
    match n {
        FsNode::File { .. } => 0,
        FsNode::Dir { readable, entries, .. } => if readable {
            unreadable_count_entries(entries@)
        } else {
            1
        },
    }
}

pub open spec fn unreadable_count_entries(es: Seq<FsEntry>) -> nat
    decreases es,
{
    if es.len() == 0 {
        0
    } else {
        unreadable_count(es[0].node) + unreadable_count_entries(es.drop_first())
    }
}

/// Every directory in `n` can be listed.
pub open spec fn all_readable(n: FsNode) -> bool
    decreases n,
{
    match n {
        FsNode::File { .. } => true,
        FsNode::Dir { readable, entries, .. } => readable && all_readable_entries(entries@),
    }
}

pub open spec fn all_readable_entries(es: Seq<FsEntry>) -> bool
    decreases es,
{
    es.len() == 0 || (all_readable(es[0].node) && all_readable_entries(es.drop_first()))
}

/// A well-formed tree names each child of a directory once.
pub open spec fn wf_tree(n: FsNode) -> bool
    decreases n,
{
    match n {
        FsNode::File { .. } => true,
        FsNode::Dir { entries, .. } => {
            &&& (forall|i: int, j: int|
                0 <= i < j < entries@.len() ==> (#[trigger] entries@[i]).name@ != (
                #[trigger] entries@[j]).name@)
            &&& wf_entries(entries@)
        },
    }
}

pub open spec fn wf_entries(es: Seq<FsEntry>) -> bool
    decreases es,
{
    es.len() == 0 || (wf_tree(es[0].node) && wf_entries(es.drop_first()))
}

} // verus!

//! Pattern-driven incremental backup engine.
//!
//! The library discovers files by matching hierarchical wildcard patterns
//! against a directory tree, derives destination paths from capture-based
//! templates, and plans an incremental copy that skips up-to-date files.
use vstd::prelude::*;

pub mod backup;
pub mod copyeng;
pub mod destpath;
pub mod drive;
pub mod fstree;
pub mod globwalk;
pub mod matcher;
pub mod pattern;
pub mod settings;
pub mod strutil;

pub use backup::backup;
pub use copyeng::{rcopy, CopyAction, CopyError, Tally};
pub use destpath::{path_from_matches, ExpandError};
pub use drive::{build_initial_dest, get_current_drive, get_drive, get_drive_by_label, Mount};
pub use fstree::{FsEntry, FsNode};
pub use globwalk::{glob, GlobItem, GlobMatch, WalkError};
pub use pattern::{decompose_pattern, split_seps, PatternError, Segment};
pub use settings::{filter_pass, AppConfig, DestDrive, Match, Settings, SrcFile};

verus! {

/// Number of occurrences of the character `c` in `s`.
pub open spec fn count_spec(s: Seq<char>, c: char) -> nat
    decreases s.len(),
{
    if s.len() == 0 {
        0
    } else {
        count_spec(s.drop_last(), c) + if s.last() == c { 1nat } else { 0nat }
    }
}

/// Counts how many times the character `c` occurs in `s`.
pub fn count(s: &str, c: char) -> (n: usize)
    ensures
        n == count_spec(s@, c),
{
    let len = s.unicode_len();
    let mut n: usize = 0;
    let mut i: usize = 0;
    while i < len
        invariant
            len == s@.len(),
            i <= len,
            n <= i,
            n == count_spec(s@.subrange(0, i as int), c),
        decreases len - i,
    {
        let ch = s.get_char(i);
        proof {
            assert(s@.subrange(0, i + 1).drop_last() =~= s@.subrange(0, i as int));
            assert(s@.subrange(0, i + 1).last() == s@[i as int]);
        }
        if ch == c {
            n = n + 1;
        }
        i = i + 1;
    }
    proof {
        assert(s@.subrange(0, len as int) =~= s@);
    }
    n
}

} // verus!

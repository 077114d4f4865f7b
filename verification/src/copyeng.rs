//! The incremental copy engine: given one resolved source and destination,
//! it walks the source subtree, plans a copy for every file whose
//! destination is missing or older, skips files already up to date, and
//! counts successes, errors, copies and skips. Under dry run it makes the
//! same decisions and counts the same, but plans no mutation.
use vstd::prelude::*;
use crate::fstree::{
    child_of, file_count, file_count_entries, FsEntry, FsNode, unreadable_count,
    unreadable_count_entries,
};
use crate::strutil::{clone_string_vec, join_path, push_string};

verus! {

/// The four counters of a run.
pub struct Tally {
    pub successes: u32,
    pub errors: u32,
    pub copied: u32,
    pub skipped: u32,
}

/// One planned file copy; the parents of `dest` are created as needed when
/// the plan is carried out.
pub struct CopyAction {
    pub src: Vec<String>,
    pub dest: Vec<String>,
}

/// The mathematical form of a planned copy.
pub struct ActionModel {
    pub src: Seq<Seq<char>>,
    pub dest: Seq<Seq<char>>,
}

impl DeepView for CopyAction {
    type V = ActionModel;

    open spec fn deep_view(&self) -> ActionModel {
        ActionModel { src: self.src.deep_view(), dest: self.dest.deep_view() }
    }
}

/// A source dir entry's counterpart below the destination node, if the
/// destination holds one.
pub open spec fn dest_child(dest: Option<FsNode>, name: Seq<char>) -> Option<FsNode> {
    match dest {
        Some(d) => child_of(d, name),
        None => None,
    }
}

/// What one copy adds to the four counters.
pub struct Delta {
    pub successes: nat,
    pub errors: nat,
    pub copied: nat,
    pub skipped: nat,
}

pub open spec fn delta_add(a: Delta, b: Delta) -> Delta {
    Delta {
        successes: a.successes + b.successes,
        errors: a.errors + b.errors,
        copied: a.copied + b.copied,
        skipped: a.skipped + b.skipped,
    }
}

pub open spec fn delta_zero() -> Delta {
    Delta { successes: 0, errors: 0, copied: 0, skipped: 0 }
}

/// The counters one copy run adds: a file is one success — a skip when the
/// destination exists and is not older, a copy otherwise; a readable
/// directory adds what its entries add; an unlistable directory is one
/// error. The counters do not depend on dry run.
pub open spec fn copy_delta(src: FsNode, dest: Option<FsNode>) -> Delta
    decreases src, 0nat,
{
    match src {
        FsNode::File { mtime } => match dest {
            Some(d) => if d.mtime_spec() >= mtime {
                Delta { successes: 1, errors: 0, copied: 0, skipped: 1 }
            } else {
                Delta { successes: 1, errors: 0, copied: 1, skipped: 0 }
            },
            None => Delta { successes: 1, errors: 0, copied: 1, skipped: 0 },
        },
        FsNode::Dir { readable, entries, .. } => if readable {
            copy_delta_entries(entries@, 0, dest)
        } else {
            Delta { successes: 0, errors: 1, copied: 0, skipped: 0 }
        },
    }
}

pub open spec fn copy_delta_entries(es: Seq<FsEntry>, i: int, dest: Option<FsNode>) -> Delta
    decreases es, es.len() - i,
{
    if i < 0 || i >= es.len() {
        delta_zero()
    } else {
        delta_add(
            copy_delta(es[i].node, dest_child(dest, es[i].name@)),
            copy_delta_entries(es, i + 1, dest),
        )
    }
}

/// The copies a real run performs, in source order.
pub open spec fn copy_actions(
    src: FsNode,
    sp: Seq<Seq<char>>,
    dest: Option<FsNode>,
    dp: Seq<Seq<char>>,
) -> Seq<ActionModel>
    decreases src, 0nat,
{
    match src {
        FsNode::File { mtime } => match dest {
            Some(d) => if d.mtime_spec() >= mtime {
                Seq::empty()
            } else {
                seq![ActionModel { src: sp, dest: dp }]
            },
            None => seq![ActionModel { src: sp, dest: dp }],
        },
        FsNode::Dir { readable, entries, .. } => if readable {
            copy_actions_entries(entries@, 0, sp, dest, dp)
        } else {
            Seq::empty()
        },
    }
}

pub open spec fn copy_actions_entries(
    es: Seq<FsEntry>,
    i: int,
    sp: Seq<Seq<char>>,
    dest: Option<FsNode>,
    dp: Seq<Seq<char>>,
) -> Seq<ActionModel>
    decreases es, es.len() - i,
{
    if i < 0 || i >= es.len() {
        Seq::empty()
    } else {
        copy_actions(
            es[i].node,
            sp.push(es[i].name@),
            dest_child(dest, es[i].name@),
            dp.push(es[i].name@),
        ) + copy_actions_entries(es, i + 1, sp, dest, dp)
    }
}

/// A source subtree that could not be listed.
#[derive(Debug)]
pub struct CopyError {
    pub path: Vec<String>,
}

pub open spec fn opt_node(d: Option<&FsNode>) -> Option<FsNode> {
    match d {
        Some(n) => Some(*n),
        None => None,
    }
}

/// Copies the source subtree at `src_path` to `dest_path`, given the
/// destination node that stands there now. Fails only when `src` itself is
/// an unlistable directory; every deeper failure is counted, reported in
/// one line, and walked past. Counters change by exactly the copy delta;
/// the planned copies are appended unless `dryrun` is set, in which case
/// nothing is planned and the counters change all the same.
#[verifier::loop_isolation(false)]
#[verifier::rlimit(60)]
pub fn rcopy(
    src: &FsNode,
    src_path: &Vec<String>,
    dest: Option<&FsNode>,
    dest_path: &Vec<String>,
    dryrun: bool,
    ret: &mut Tally,
    actions: &mut Vec<CopyAction>,
    reports: &mut Vec<String>,
) -> (r: Result<(), CopyError>)
    requires
        old(ret).successes + copy_delta(*src, opt_node(dest)).successes <= u32::MAX,
        old(ret).errors + copy_delta(*src, opt_node(dest)).errors <= u32::MAX,
        old(ret).copied + copy_delta(*src, opt_node(dest)).copied <= u32::MAX,
        old(ret).skipped + copy_delta(*src, opt_node(dest)).skipped <= u32::MAX,
    ensures
        match r {
            Ok(_) => {
                &&& !(src is Dir && !src->Dir_readable)
                &&& final(ret).successes == old(ret).successes + copy_delta(
                    *src,
                    opt_node(dest),
                ).successes
                &&& final(ret).errors == old(ret).errors + copy_delta(*src, opt_node(dest)).errors
                &&& final(ret).copied == old(ret).copied + copy_delta(*src, opt_node(dest)).copied
                &&& final(ret).skipped == old(ret).skipped + copy_delta(
                    *src,
                    opt_node(dest),
                ).skipped
                &&& (dryrun ==> final(actions).deep_view() == old(actions).deep_view())
                &&& (!dryrun ==> final(actions).deep_view() == old(actions).deep_view()
                    + copy_actions(
                    *src,
                    src_path.deep_view(),
                    opt_node(dest),
                    dest_path.deep_view(),
                ))
                &&& final(reports)@.len() == old(reports)@.len() + copy_delta(
                    *src,
                    opt_node(dest),
                ).errors
            },
            Err(e) => {
                &&& src is Dir && !src->Dir_readable
                &&& *final(ret) == *old(ret)
                &&& final(actions).deep_view() == old(actions).deep_view()
                &&& *final(reports) == *old(reports)
                &&& e.path.deep_view() == src_path.deep_view()
            },
        },
    decreases *src,
{
    let ghost dv = opt_node(dest);
    match src {
        FsNode::File { mtime } => {
            let up_to_date = match dest {
                Some(d) => d.mtime() >= *mtime,
                None => false,
            };
            if up_to_date {
                ret.successes = ret.successes + 1;
                ret.skipped = ret.skipped + 1;
            } else {
                if !dryrun {
                    let ghost prev = actions.deep_view();
                    actions.push(
                        CopyAction {
                            src: clone_string_vec(src_path),
                            dest: clone_string_vec(dest_path),
                        },
                    );
                    proof {
                        assert(actions.deep_view() =~= prev.push(
                            ActionModel {
                                src: src_path.deep_view(),
                                dest: dest_path.deep_view(),
                            },
                        ));
                        assert(actions.deep_view() =~= old(actions).deep_view() + copy_actions(
                            *src,
                            src_path.deep_view(),
                            dv,
                            dest_path.deep_view(),
                        ));
                    }
                }
                ret.successes = ret.successes + 1;
                ret.copied = ret.copied + 1;
            }
            Ok(())
        },
        FsNode::Dir { readable, entries, .. } => {
            if !*readable {
                return Err(CopyError { path: clone_string_vec(src_path) });
            }
            let ghost es = entries@;
            let ghost sp = src_path.deep_view();
            let ghost dp = dest_path.deep_view();
            let mut i: usize = 0;
            while i < entries.len()
                invariant
                    i <= entries.len(),
                    ret.successes == old(ret).successes + copy_delta_entries(es, 0, dv).successes
                        - copy_delta_entries(es, i as int, dv).successes,
                    ret.errors == old(ret).errors + copy_delta_entries(es, 0, dv).errors
                        - copy_delta_entries(es, i as int, dv).errors,
                    ret.copied == old(ret).copied + copy_delta_entries(es, 0, dv).copied
                        - copy_delta_entries(es, i as int, dv).copied,
                    ret.skipped == old(ret).skipped + copy_delta_entries(es, 0, dv).skipped
                        - copy_delta_entries(es, i as int, dv).skipped,
                    dryrun ==> actions.deep_view() == old(actions).deep_view(),
                    !dryrun ==> old(actions).deep_view() + copy_actions_entries(es, 0, sp, dv, dp)
                        == actions.deep_view() + copy_actions_entries(es, i as int, sp, dv, dp),
                    reports@.len() == old(reports)@.len() + ret.errors - old(ret).errors,
                decreases entries.len() - i,
            {
                proof {
                    lemma_delta_entries_bounds(es, i as int, dv);
                    assert(decreases_to!(*src => *entries));
                    assert(decreases_to!(*entries => es));
                    assert(decreases_to!(es => es[i as int]));
                }
                let name = &entries[i].name;
                let child_dest = match dest {
                    Some(d) => crate::fstree::get_child(d, name.as_str()),
                    None => None,
                };
                proof {
                    assert(opt_node(child_dest) == dest_child(dv, name@));
                }
                let child_src_path = push_string(src_path, name.clone());
                let child_dest_path = push_string(dest_path, name.clone());
                let ghost prev_actions = actions.deep_view();
                let sub = rcopy(
                    &entries[i].node,
                    &child_src_path,
                    child_dest,
                    &child_dest_path,
                    dryrun,
                    ret,
                    actions,
                    reports,
                );
                let ghost child_delta = copy_delta(
                    es[i as int].node,
                    dest_child(dv, es[i as int].name@),
                );
                let ghost child_acts = copy_actions(
                    es[i as int].node,
                    sp.push(es[i as int].name@),
                    dest_child(dv, es[i as int].name@),
                    dp.push(es[i as int].name@),
                );
                proof {
                    assert(copy_delta_entries(es, i as int, dv) == delta_add(
                        child_delta,
                        copy_delta_entries(es, i as int + 1, dv),
                    ));
                    assert(copy_actions_entries(es, i as int, sp, dv, dp) == child_acts
                        + copy_actions_entries(es, i as int + 1, sp, dv, dp));
                }
                match sub {
                    Ok(_) => {
                    },
                    Err(_) => {
                        proof {
                            assert(child_delta == (Delta {
                                successes: 0,
                                errors: 1,
                                copied: 0,
                                skipped: 0,
                            }));
                            assert(child_acts =~= Seq::<ActionModel>::empty());
                        }
                        reports.push(join_path(&child_src_path).concat(": cannot be listed"));
                        ret.errors = ret.errors + 1;
                    },
                }
                proof {
                    if !dryrun {
                        assert(old(actions).deep_view() + copy_actions_entries(
                            es,
                            0,
                            sp,
                            dv,
                            dp,
                        ) =~= actions.deep_view() + copy_actions_entries(
                            es,
                            i as int + 1,
                            sp,
                            dv,
                            dp,
                        ));
                    }
                }
                i = i + 1;
            }
            Ok(())
        },
    }
}

/// Each suffix of the entry deltas is bounded by the whole, so the running
/// counters never pass the final ones.
proof fn lemma_delta_entries_bounds(es: Seq<FsEntry>, i: int, dest: Option<FsNode>)
    requires
        0 <= i <= es.len(),
    ensures
        copy_delta_entries(es, i, dest).successes <= copy_delta_entries(es, 0, dest).successes,
        copy_delta_entries(es, i, dest).errors <= copy_delta_entries(es, 0, dest).errors,
        copy_delta_entries(es, i, dest).copied <= copy_delta_entries(es, 0, dest).copied,
        copy_delta_entries(es, i, dest).skipped <= copy_delta_entries(es, 0, dest).skipped,
    decreases i,
{
    if i > 0 {
        lemma_delta_entries_bounds(es, i - 1, dest);
    }
}

/// Successes split exactly into copies and skips; errors count exactly the
/// unlistable directories, and each reachable file is exactly one success:
/// errors and successes never double-count.
pub proof fn lemma_tally_consistent(src: FsNode, dest: Option<FsNode>)
    ensures
        copy_delta(src, dest).successes == copy_delta(src, dest).copied + copy_delta(
            src,
            dest,
        ).skipped,
        copy_delta(src, dest).successes == file_count(src),
        copy_delta(src, dest).errors == unreadable_count(src),
    decreases src, 0nat,
{
    match src {
        FsNode::File { .. } => {
        },
        FsNode::Dir { readable, entries, .. } => {
            if readable {
                lemma_tally_consistent_entries(entries@, 0, dest);
                assert(entries@.skip(0) =~= entries@);
            }
        },
    }
}

proof fn lemma_tally_consistent_entries(es: Seq<FsEntry>, i: int, dest: Option<FsNode>)
    requires
        0 <= i <= es.len(),
    ensures
        copy_delta_entries(es, i, dest).successes == copy_delta_entries(es, i, dest).copied
            + copy_delta_entries(es, i, dest).skipped,
        copy_delta_entries(es, i, dest).successes == file_count_entries(es.skip(i)),
        copy_delta_entries(es, i, dest).errors == unreadable_count_entries(es.skip(i)),
    decreases es, es.len() - i,
{
    if i < es.len() {
        lemma_tally_consistent(es[i].node, dest_child(dest, es[i].name@));
        lemma_tally_consistent_entries(es, i + 1, dest);
        assert(es.skip(i)[0] == es[i]);
        assert(es.skip(i).drop_first() =~= es.skip(i + 1));
    } else {
        assert(es.skip(i).len() == 0);
    }
}

/// The destination already holds every reachable source file, not older
/// than its source.
pub open spec fn destination_current(src: FsNode, dest: Option<FsNode>) -> bool
    decreases src, 0nat,
{
    match src {
        FsNode::File { mtime } => match dest {
            Some(d) => d.mtime_spec() >= mtime,
            None => false,
        },
        FsNode::Dir { readable, entries, .. } => if readable {
            current_entries(entries@, 0, dest)
        } else {
            true
        },
    }
}

pub open spec fn current_entries(es: Seq<FsEntry>, i: int, dest: Option<FsNode>) -> bool
    decreases es, es.len() - i,
{
    if i < 0 || i >= es.len() {
        true
    } else {
        destination_current(es[i].node, dest_child(dest, es[i].name@)) && current_entries(
            es,
            i + 1,
            dest,
        )
    }
}

/// A second run over an unchanged source, once the destination is current,
/// copies nothing: every reachable file is skipped and only the unlistable
/// directories count as errors.
pub proof fn lemma_second_run(src: FsNode, dest: Option<FsNode>)
    requires
        destination_current(src, dest),
    ensures
        copy_delta(src, dest) == (Delta {
            successes: file_count(src),
            errors: unreadable_count(src),
            copied: 0,
            skipped: file_count(src),
        }),
    decreases src, 0nat,
{
    lemma_tally_consistent(src, dest);
    match src {
        FsNode::File { .. } => {
        },
        FsNode::Dir { readable, entries, .. } => {
            if readable {
                lemma_second_run_entries(entries@, 0, dest);
                assert(entries@.skip(0) =~= entries@);
            }
        },
    }
}

proof fn lemma_second_run_entries(es: Seq<FsEntry>, i: int, dest: Option<FsNode>)
    requires
        0 <= i <= es.len(),
        current_entries(es, i, dest),
    ensures
        copy_delta_entries(es, i, dest).copied == 0,
    decreases es, es.len() - i,
{
    if i < es.len() {
        lemma_second_run(es[i].node, dest_child(dest, es[i].name@));
        lemma_second_run_entries(es, i + 1, dest);
    }
}

/// A destination that mirrors a fully readable, well-formed source — the
/// source itself — is current: copying a tree over an identical tree only
/// skips.
pub proof fn lemma_identical_dest_current(src: FsNode)
    requires
        crate::fstree::wf_tree(src),
        crate::fstree::all_readable(src),
    ensures
        destination_current(src, Some(src)),
    decreases src, 0nat,
{
    match src {
        FsNode::File { .. } => {
        },
        FsNode::Dir { readable, entries, .. } => {
            lemma_identical_current_entries(src, entries@, 0);
        },
    }
}

proof fn lemma_identical_current_entries(src: FsNode, es: Seq<FsEntry>, i: int)
    requires
        crate::fstree::wf_tree(src),
        crate::fstree::all_readable(src),
        src is Dir,
        es == src->Dir_entries@,
        0 <= i <= es.len(),
    ensures
        current_entries(es, i, Some(src)),
    decreases es, es.len() - i,
{
    if i < es.len() {
        lemma_wf_entry(es, i);
        lemma_find_child_unique(es, i);
        assert(child_of(src, es[i].name@) == Some(es[i].node));
        lemma_identical_dest_current(es[i].node);
        lemma_identical_current_entries(src, es, i + 1);
    }
}

/// In a well-formed entry list every entry's own tree is well formed and
/// readable when the whole is.
proof fn lemma_wf_entry(es: Seq<FsEntry>, i: int)
    requires
        crate::fstree::wf_entries(es) || crate::fstree::all_readable_entries(es),
    ensures
        0 <= i < es.len() && crate::fstree::wf_entries(es) ==> crate::fstree::wf_tree(es[i].node),
        0 <= i < es.len() && crate::fstree::all_readable_entries(es)
            ==> crate::fstree::all_readable(es[i].node),
    decreases i,
{
    if 0 < i < es.len() {
        assert(es.drop_first()[i - 1] == es[i]);
        lemma_wf_entry(es.drop_first(), i - 1);
    }
}

/// With unique names, the lookup of an entry's name finds that entry.
proof fn lemma_find_child_unique(es: Seq<FsEntry>, i: int)
    requires
        0 <= i < es.len(),
        forall|a: int, b: int|
            0 <= a < b < es.len() ==> (#[trigger] es[a]).name@ != (#[trigger] es[b]).name@,
    ensures
        crate::fstree::find_child(es, es[i].name@) == Some(es[i].node),
    decreases i,
{
    if i > 0 {
        assert(es[0].name@ != es[i].name@);
        lemma_find_child_unique(es.drop_first(), i - 1);
        assert(es.drop_first()[i - 1] == es[i]);
    }
}

} // verus!

//! The orchestrator: for each configured rule it decomposes the pattern,
//! walks the tree, expands each match's destination and drives the copy
//! engine, folding every non-fatal failure into the error counter and
//! carrying on.
use vstd::prelude::*;
use crate::copyeng::{
    copy_actions, copy_delta, delta_add, delta_zero, rcopy, ActionModel, CopyAction, Delta,
    Tally,
};
use crate::destpath::{expand_spec, path_from_matches};
use crate::fstree::{child_of, FsNode};
use crate::globwalk::{glob, glob_spec, GlobItem, GlobItemModel};
use crate::pattern::{decompose_pattern, decompose_spec, split_seps, split_seps_spec};
use crate::settings::{Settings, SrcFile};
use crate::strutil::{concat_strings, join_path};

verus! {

/// The node standing at `path[i ..]` below `n`, if every step exists and
/// can be observed.
pub open spec fn lookup_spec(n: FsNode, path: Seq<Seq<char>>, i: int) -> Option<FsNode>
    decreases path.len() - i,
{
    if i < 0 || i >= path.len() {
        Some(n)
    } else {
        match child_of(n, path[i]) {
            Some(c) => lookup_spec(c, path, i + 1),
            None => None,
        }
    }
}

/// Walks `path` down from `n`.
pub fn lookup<'a>(n: &'a FsNode, path: &Vec<String>, start: usize) -> (r: Option<&'a FsNode>)
    requires
        start <= path@.len(),
    ensures
        match r {
            Some(c) => lookup_spec(*n, path.deep_view(), start as int) == Some(*c),
            None => lookup_spec(*n, path.deep_view(), start as int) is None,
        },
    decreases path@.len() - start,
{
    if start == path.len() {
        return Some(n);
    }
    match crate::fstree::get_child(n, path[start].as_str()) {
        Some(c) => lookup(c, path, start + 1),
        None => None,
    }
}

/// One error and nothing else: how every non-fatal failure counts.
pub open spec fn one_error() -> Delta {
    Delta { successes: 0, errors: 1, copied: 0, skipped: 0 }
}

/// What one walk element adds to the run: a failed branch is one error; a
/// match whose template does not expand, or whose path cannot be found
/// again, is one error; otherwise the copy engine's delta and planned
/// copies for that source and destination.
pub open spec fn item_effect(
    it: GlobItemModel,
    root: FsNode,
    to_parts: Seq<Seq<char>>,
    dest_base: Seq<Seq<char>>,
) -> (Delta, Seq<ActionModel>) {
    match it {
        GlobItemModel::Failed(_) => (one_error(), Seq::empty()),
        GlobItemModel::Found(m) => match expand_spec(to_parts, m.captures) {
            Err(_) => (one_error(), Seq::empty()),
            Ok(rel) => {
                let dp = dest_base + rel;
                match lookup_spec(root, m.path, 0) {
                    None => (one_error(), Seq::empty()),
                    Some(srcn) => (
                        copy_delta(srcn, lookup_spec(root, dp, 0)),
                        copy_actions(srcn, m.path, lookup_spec(root, dp, 0), dp),
                    ),
                }
            },
        },
    }
}

pub open spec fn items_effect(
    items: Seq<GlobItemModel>,
    i: int,
    root: FsNode,
    to_parts: Seq<Seq<char>>,
    dest_base: Seq<Seq<char>>,
) -> (Delta, Seq<ActionModel>)
    decreases items.len() - i,
{
    if i < 0 || i >= items.len() {
        (delta_zero(), Seq::empty())
    } else {
        let h = item_effect(items[i], root, to_parts, dest_base);
        let t = items_effect(items, i + 1, root, to_parts, dest_base);
        (delta_add(h.0, t.0), h.1 + t.1)
    }
}

/// What one rule adds: a pattern that does not decompose, or a walk whose
/// own directory cannot be listed, is one error; otherwise what the walk's
/// elements add.
pub open spec fn rule_effect(root: FsNode, rule: SrcFile, dest_base: Seq<Seq<char>>) -> (
    Delta,
    Seq<ActionModel>,
) {
    match decompose_spec(rule.from@) {
        Err(_) => (one_error(), Seq::empty()),
        Ok(segs) => match glob_spec(
            root,
            segs,
            rule.filters.deep_view(),
            Seq::empty(),
            Seq::empty(),
        ) {
            Err(_) => (one_error(), Seq::empty()),
            Ok(items) => items_effect(items, 0, root, split_seps_spec(rule.to@), dest_base),
        },
    }
}

pub open spec fn rules_effect(
    files: Seq<SrcFile>,
    i: int,
    root: FsNode,
    dest_base: Seq<Seq<char>>,
) -> (Delta, Seq<ActionModel>)
    decreases files.len() - i,
{
    if i < 0 || i >= files.len() {
        (delta_zero(), Seq::empty())
    } else {
        let h = rule_effect(root, files[i], dest_base);
        let t = rules_effect(files, i + 1, root, dest_base);
        (delta_add(h.0, t.0), h.1 + t.1)
    }
}

/// The whole run over the configured rules, in order.
pub open spec fn backup_spec(settings: Settings, root: FsNode, dest_base: Seq<Seq<char>>) -> (
    Delta,
    Seq<ActionModel>,
) {
    rules_effect(settings.files@, 0, root, dest_base)
}

proof fn lemma_items_bounds(
    items: Seq<GlobItemModel>,
    i: int,
    root: FsNode,
    to_parts: Seq<Seq<char>>,
    dest_base: Seq<Seq<char>>,
)
    requires
        0 <= i <= items.len(),
    ensures
        items_effect(items, i, root, to_parts, dest_base).0.successes <= items_effect(
            items,
            0,
            root,
            to_parts,
            dest_base,
        ).0.successes,
        items_effect(items, i, root, to_parts, dest_base).0.errors <= items_effect(
            items,
            0,
            root,
            to_parts,
            dest_base,
        ).0.errors,
        items_effect(items, i, root, to_parts, dest_base).0.copied <= items_effect(
            items,
            0,
            root,
            to_parts,
            dest_base,
        ).0.copied,
        items_effect(items, i, root, to_parts, dest_base).0.skipped <= items_effect(
            items,
            0,
            root,
            to_parts,
            dest_base,
        ).0.skipped,
    decreases i,
{
    if i > 0 {
        lemma_items_bounds(items, i - 1, root, to_parts, dest_base);
    }
}

proof fn lemma_rules_bounds(files: Seq<SrcFile>, i: int, root: FsNode, dest_base: Seq<Seq<char>>)
    requires
        0 <= i <= files.len(),
    ensures
        rules_effect(files, i, root, dest_base).0.successes <= rules_effect(
            files,
            0,
            root,
            dest_base,
        ).0.successes,
        rules_effect(files, i, root, dest_base).0.errors <= rules_effect(
            files,
            0,
            root,
            dest_base,
        ).0.errors,
        rules_effect(files, i, root, dest_base).0.copied <= rules_effect(
            files,
            0,
            root,
            dest_base,
        ).0.copied,
        rules_effect(files, i, root, dest_base).0.skipped <= rules_effect(
            files,
            0,
            root,
            dest_base,
        ).0.skipped,
    decreases i,
{
    if i > 0 {
        lemma_rules_bounds(files, i - 1, root, dest_base);
    }
}

/// Carries out one walk element: counts the error it stands for, or runs
/// the copy engine on the matched source.
#[verifier::rlimit(80)]
fn run_item(
    root: &FsNode,
    item: &GlobItem,
    to_parts: &Vec<String>,
    dest_base: &Vec<String>,
    dryrun: bool,
    ret: &mut Tally,
    actions: &mut Vec<CopyAction>,
    reports: &mut Vec<String>,
) -> (nothing: ())
    requires
        old(ret).successes + item_effect(
            item.deep_view(),
            *root,
            to_parts.deep_view(),
            dest_base.deep_view(),
        ).0.successes <= u32::MAX,
        old(ret).errors + item_effect(
            item.deep_view(),
            *root,
            to_parts.deep_view(),
            dest_base.deep_view(),
        ).0.errors <= u32::MAX,
        old(ret).copied + item_effect(
            item.deep_view(),
            *root,
            to_parts.deep_view(),
            dest_base.deep_view(),
        ).0.copied <= u32::MAX,
        old(ret).skipped + item_effect(
            item.deep_view(),
            *root,
            to_parts.deep_view(),
            dest_base.deep_view(),
        ).0.skipped <= u32::MAX,
    ensures
        ({
            let eff = item_effect(
                item.deep_view(),
                *root,
                to_parts.deep_view(),
                dest_base.deep_view(),
            );
            &&& final(ret).successes == old(ret).successes + eff.0.successes
            &&& final(ret).errors == old(ret).errors + eff.0.errors
            &&& final(ret).copied == old(ret).copied + eff.0.copied
            &&& final(ret).skipped == old(ret).skipped + eff.0.skipped
            &&& (dryrun ==> final(actions).deep_view() == old(actions).deep_view())
            &&& (!dryrun ==> final(actions).deep_view() == old(actions).deep_view() + eff.1)
            &&& final(reports)@.len() == old(reports)@.len() + eff.0.errors
        }),
{
    let ghost eff = item_effect(
        item.deep_view(),
        *root,
        to_parts.deep_view(),
        dest_base.deep_view(),
    );
    match item {
        GlobItem::Failed(w) => {
            reports.push(join_path(&w.path).concat(": cannot be listed"));
            ret.errors = ret.errors + 1;
            proof {
                assert(eff.1 =~= Seq::<ActionModel>::empty());
                assert(actions.deep_view() =~= actions.deep_view() + eff.1);
            }
        },
        GlobItem::Found(m) => {
            match path_from_matches(to_parts, &m.matches) {
                Err(_) => {
                    reports.push(
                        join_path(&m.path).concat(": the destination template does not expand"),
                    );
                    ret.errors = ret.errors + 1;
                    proof {
                        assert(eff.1 =~= Seq::<ActionModel>::empty());
                        assert(actions.deep_view() =~= actions.deep_view() + eff.1);
                    }
                },
                Ok(rel) => {
                    let dp = concat_strings(dest_base, &rel);
                    match lookup(root, &m.path, 0) {
                        None => {
                            reports.push(join_path(&m.path).concat(": not found in the tree"));
                            ret.errors = ret.errors + 1;
                            proof {
                                assert(eff.1 =~= Seq::<ActionModel>::empty());
                                assert(actions.deep_view() =~= actions.deep_view() + eff.1);
                            }
                        },
                        Some(srcn) => {
                            let destn = lookup(root, &dp, 0);
                            let ghost dvn = crate::copyeng::opt_node(destn);
                            proof {
                                assert(dvn == lookup_spec(*root, dp.deep_view(), 0));
                            }
                            let sub = rcopy(
                                srcn,
                                &m.path,
                                destn,
                                &dp,
                                dryrun,
                                ret,
                                actions,
                                reports,
                            );
                            match sub {
                                Ok(_) => {
                                },
                                Err(_) => {
                                    proof {
                                        assert(eff.0 == one_error());
                                        assert(eff.1 =~= Seq::<ActionModel>::empty());
                                        assert(actions.deep_view() =~= actions.deep_view()
                                            + eff.1);
                                    }
                                    reports.push(
                                        join_path(&m.path).concat(": cannot be listed"),
                                    );
                                    ret.errors = ret.errors + 1;
                                },
                            }
                        },
                    }
                },
            }
        },
    }
}

/// Carries out one rule: the decomposition, the walk, and every element
/// the walk yields.
#[verifier::loop_isolation(false)]
#[verifier::rlimit(80)]
fn run_rule(
    root: &FsNode,
    rule: &SrcFile,
    dest_base: &Vec<String>,
    dryrun: bool,
    ret: &mut Tally,
    actions: &mut Vec<CopyAction>,
    reports: &mut Vec<String>,
) -> (nothing: ())
    requires
        old(ret).successes + rule_effect(*root, *rule, dest_base.deep_view()).0.successes
            <= u32::MAX,
        old(ret).errors + rule_effect(*root, *rule, dest_base.deep_view()).0.errors <= u32::MAX,
        old(ret).copied + rule_effect(*root, *rule, dest_base.deep_view()).0.copied <= u32::MAX,
        old(ret).skipped + rule_effect(*root, *rule, dest_base.deep_view()).0.skipped <= u32::MAX,
    ensures
        ({
            let eff = rule_effect(*root, *rule, dest_base.deep_view());
            &&& final(ret).successes == old(ret).successes + eff.0.successes
            &&& final(ret).errors == old(ret).errors + eff.0.errors
            &&& final(ret).copied == old(ret).copied + eff.0.copied
            &&& final(ret).skipped == old(ret).skipped + eff.0.skipped
            &&& (dryrun ==> final(actions).deep_view() == old(actions).deep_view())
            &&& (!dryrun ==> final(actions).deep_view() == old(actions).deep_view() + eff.1)
            &&& final(reports)@.len() == old(reports)@.len() + eff.0.errors
        }),
{
    let ghost eff = rule_effect(*root, *rule, dest_base.deep_view());
    match decompose_pattern(rule.from.as_str()) {
        Err(_) => {
            reports.push(rule.from.clone().concat(": the source pattern is invalid"));
            ret.errors = ret.errors + 1;
            proof {
                assert(eff.1 =~= Seq::<ActionModel>::empty());
                assert(actions.deep_view() =~= actions.deep_view() + eff.1);
            }
        },
        Ok(segs) => {
            let empty_path: Vec<String> = Vec::new();
            let empty_caps: Vec<String> = Vec::new();
            proof {
                assert(segs.deep_view().skip(0) =~= segs.deep_view());
                assert(rule.filters.deep_view().skip(0) =~= rule.filters.deep_view());
                assert(empty_path.deep_view() =~= Seq::<Seq<char>>::empty());
                assert(empty_caps.deep_view() =~= Seq::<Seq<char>>::empty());
            }
            match glob(root, &segs, 0, &rule.filters, 0, &empty_path, &empty_caps) {
                Err(w) => {
                    reports.push(join_path(&w.path).concat(": cannot be listed"));
                    ret.errors = ret.errors + 1;
                    proof {
                        assert(eff.1 =~= Seq::<ActionModel>::empty());
                        assert(actions.deep_view() =~= actions.deep_view() + eff.1);
                    }
                },
                Ok(items) => {
                    let to_parts = split_seps(rule.to.as_str());
                    let ghost iv = items.deep_view();
                    let ghost tp = to_parts.deep_view();
                    let ghost db = dest_base.deep_view();
                    let mut j: usize = 0;
                    while j < items.len()
                        invariant
                            j <= items@.len(),
                            ret.successes == old(ret).successes + items_effect(
                                iv,
                                0,
                                *root,
                                tp,
                                db,
                            ).0.successes - items_effect(iv, j as int, *root, tp, db).0.successes,
                            ret.errors == old(ret).errors + items_effect(
                                iv,
                                0,
                                *root,
                                tp,
                                db,
                            ).0.errors - items_effect(iv, j as int, *root, tp, db).0.errors,
                            ret.copied == old(ret).copied + items_effect(
                                iv,
                                0,
                                *root,
                                tp,
                                db,
                            ).0.copied - items_effect(iv, j as int, *root, tp, db).0.copied,
                            ret.skipped == old(ret).skipped + items_effect(
                                iv,
                                0,
                                *root,
                                tp,
                                db,
                            ).0.skipped - items_effect(iv, j as int, *root, tp, db).0.skipped,
                            dryrun ==> actions.deep_view() == old(actions).deep_view(),
                            !dryrun ==> old(actions).deep_view() + items_effect(
                                iv,
                                0,
                                *root,
                                tp,
                                db,
                            ).1 == actions.deep_view() + items_effect(iv, j as int, *root, tp, db).1,
                            reports@.len() == old(reports)@.len() + ret.errors - old(ret).errors,
                        decreases items@.len() - j,
                    {
                        proof {
                            lemma_items_bounds(iv, j as int, *root, tp, db);
                            assert(items_effect(iv, j as int, *root, tp, db).0 == delta_add(
                                item_effect(iv[j as int], *root, tp, db).0,
                                items_effect(iv, j as int + 1, *root, tp, db).0,
                            ));
                            assert(items_effect(iv, j as int, *root, tp, db).1 == item_effect(
                                iv[j as int],
                                *root,
                                tp,
                                db,
                            ).1 + items_effect(iv, j as int + 1, *root, tp, db).1);
                        }
                        run_item(
                            root,
                            &items[j],
                            &to_parts,
                            dest_base,
                            dryrun,
                            ret,
                            actions,
                            reports,
                        );
                        proof {
                            if !dryrun {
                                assert(old(actions).deep_view() + items_effect(
                                    iv,
                                    0,
                                    *root,
                                    tp,
                                    db,
                                ).1 =~= actions.deep_view() + items_effect(
                                    iv,
                                    j as int + 1,
                                    *root,
                                    tp,
                                    db,
                                ).1);
                            }
                        }
                        j = j + 1;
                    }
                },
            }
        },
    }
}

/// Runs every configured rule against the tree below `root`, copying into
/// `dest_base`, and returns the run's four counters, the planned copies,
/// and one textual report per counted error; under dry run the counters
/// and reports are the same and nothing is planned. No failure past this
/// point is fatal: every one is counted and the run carries on.
#[verifier::loop_isolation(false)]
#[verifier::rlimit(80)]
pub fn backup(settings: &Settings, root: &FsNode, dest_base: &Vec<String>) -> (r: (
    Tally,
    Vec<CopyAction>,
    Vec<String>,
))
    requires
        backup_spec(*settings, *root, dest_base.deep_view()).0.successes <= u32::MAX,
        backup_spec(*settings, *root, dest_base.deep_view()).0.errors <= u32::MAX,
        backup_spec(*settings, *root, dest_base.deep_view()).0.copied <= u32::MAX,
        backup_spec(*settings, *root, dest_base.deep_view()).0.skipped <= u32::MAX,
    ensures
        ({
            let eff = backup_spec(*settings, *root, dest_base.deep_view());
            &&& r.0.successes == eff.0.successes
            &&& r.0.errors == eff.0.errors
            &&& r.0.copied == eff.0.copied
            &&& r.0.skipped == eff.0.skipped
            &&& (settings.config.dryrun ==> r.1.deep_view() == Seq::<ActionModel>::empty())
            &&& (!settings.config.dryrun ==> r.1.deep_view() == eff.1)
            &&& r.2@.len() == eff.0.errors
        }),
{
    let mut ret = Tally { successes: 0, errors: 0, copied: 0, skipped: 0 };
    let mut actions: Vec<CopyAction> = Vec::new();
    let mut reports: Vec<String> = Vec::new();
    let dryrun = settings.config.dryrun;
    let ghost fv = settings.files@;
    let ghost db = dest_base.deep_view();
    proof {
        assert(actions.deep_view() =~= Seq::<ActionModel>::empty());
    }
    let mut i: usize = 0;
    while i < settings.files.len()
        invariant
            i <= fv.len(),
            ret.successes == rules_effect(fv, 0, *root, db).0.successes - rules_effect(
                fv,
                i as int,
                *root,
                db,
            ).0.successes,
            ret.errors == rules_effect(fv, 0, *root, db).0.errors - rules_effect(
                fv,
                i as int,
                *root,
                db,
            ).0.errors,
            ret.copied == rules_effect(fv, 0, *root, db).0.copied - rules_effect(
                fv,
                i as int,
                *root,
                db,
            ).0.copied,
            ret.skipped == rules_effect(fv, 0, *root, db).0.skipped - rules_effect(
                fv,
                i as int,
                *root,
                db,
            ).0.skipped,
            dryrun ==> actions.deep_view() == Seq::<ActionModel>::empty(),
            !dryrun ==> rules_effect(fv, 0, *root, db).1 == actions.deep_view() + rules_effect(
                fv,
                i as int,
                *root,
                db,
            ).1,
            reports@.len() == ret.errors,
        decreases fv.len() - i,
    {
        proof {
            lemma_rules_bounds(fv, i as int, *root, db);
            assert(rules_effect(fv, i as int, *root, db).0 == delta_add(
                rule_effect(*root, fv[i as int], db).0,
                rules_effect(fv, i as int + 1, *root, db).0,
            ));
            assert(rules_effect(fv, i as int, *root, db).1 == rule_effect(
                *root,
                fv[i as int],
                db,
            ).1 + rules_effect(fv, i as int + 1, *root, db).1);
        }
        run_rule(
            root,
            &settings.files[i],
            dest_base,
            dryrun,
            &mut ret,
            &mut actions,
            &mut reports,
        );
        proof {
            if !dryrun {
                assert(rules_effect(fv, 0, *root, db).1 =~= actions.deep_view() + rules_effect(
                    fv,
                    i as int + 1,
                    *root,
                    db,
                ).1);
            }
        }
        i = i + 1;
    }
    (ret, actions, reports)
}

proof fn lemma_items_consistent(
    items: Seq<GlobItemModel>,
    i: int,
    root: FsNode,
    to_parts: Seq<Seq<char>>,
    dest_base: Seq<Seq<char>>,
)
    requires
        0 <= i <= items.len(),
    ensures
        items_effect(items, i, root, to_parts, dest_base).0.successes == items_effect(
            items,
            i,
            root,
            to_parts,
            dest_base,
        ).0.copied + items_effect(items, i, root, to_parts, dest_base).0.skipped,
    decreases items.len() - i,
{
    if i < items.len() {
        match items[i] {
            GlobItemModel::Failed(_) => {
            },
            GlobItemModel::Found(m) => {
                match expand_spec(to_parts, m.captures) {
                    Err(_) => {
                    },
                    Ok(rel) => {
                        match lookup_spec(root, m.path, 0) {
                            None => {
                            },
                            Some(srcn) => {
                                crate::copyeng::lemma_tally_consistent(
                                    srcn,
                                    lookup_spec(root, dest_base + rel, 0),
                                );
                            },
                        }
                    },
                }
            },
        }
        lemma_items_consistent(items, i + 1, root, to_parts, dest_base);
    }
}

proof fn lemma_rule_consistent(root: FsNode, rule: SrcFile, dest_base: Seq<Seq<char>>)
    ensures
        rule_effect(root, rule, dest_base).0.successes == rule_effect(
            root,
            rule,
            dest_base,
        ).0.copied + rule_effect(root, rule, dest_base).0.skipped,
{
    match decompose_spec(rule.from@) {
        Err(_) => {
        },
        Ok(segs) => {
            match glob_spec(root, segs, rule.filters.deep_view(), Seq::empty(), Seq::empty()) {
                Err(_) => {
                },
                Ok(items) => {
                    lemma_items_consistent(
                        items,
                        0,
                        root,
                        split_seps_spec(rule.to@),
                        dest_base,
                    );
                },
            }
        },
    }
}

proof fn lemma_rules_consistent(
    files: Seq<SrcFile>,
    i: int,
    root: FsNode,
    dest_base: Seq<Seq<char>>,
)
    requires
        0 <= i <= files.len(),
    ensures
        rules_effect(files, i, root, dest_base).0.successes == rules_effect(
            files,
            i,
            root,
            dest_base,
        ).0.copied + rules_effect(files, i, root, dest_base).0.skipped,
    decreases files.len() - i,
{
    if i < files.len() {
        lemma_rule_consistent(root, files[i], dest_base);
        lemma_rules_consistent(files, i + 1, root, dest_base);
    }
}

/// Over the whole run, whatever the rules and the tree, the successes are
/// exactly the copies plus the skips; errors are counted apart and never
/// against a success.
pub proof fn lemma_run_tally_consistent(
    settings: Settings,
    root: FsNode,
    dest_base: Seq<Seq<char>>,
)
    ensures
        backup_spec(settings, root, dest_base).0.successes == backup_spec(
            settings,
            root,
            dest_base,
        ).0.copied + backup_spec(settings, root, dest_base).0.skipped,
{
    lemma_rules_consistent(settings.files@, 0, root, dest_base);
}

} // verus!

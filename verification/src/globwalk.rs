//! The pattern walk: recursive descent of pattern segments over the
//! directory tree, consuming filters as wildcards resolve, yielding every
//! match with its captures, and a discrete error element for every branch
//! whose directory cannot be listed.
use vstd::prelude::*;
use crate::fstree::{child_of, find_child, FsEntry, FsNode};
use crate::matcher::{greedy_caps, wildcard_captures};
use crate::pattern::{split_char, split_char_spec, SegModel, Segment};
use crate::pattern::group_filter_spec;
use crate::settings::{filter_pass, filter_passes, FilterModel, Match};
use crate::strutil::{
    clone_string_vec, concat_strings, lower_of, lowercase, push_string,
};

verus! {

/// One completed walk: the matched absolute path and the captures bound by
/// the wildcards along it, in traversal order. Captures are taken from the
/// case-normalized entry names, since matching is case-insensitive.
pub struct GlobMatch {
    pub path: Vec<String>,
    pub matches: Vec<String>,
}

/// A branch whose directory could not be listed.
#[derive(Debug)]
pub struct WalkError {
    pub path: Vec<String>,
}

/// One element of the walk's outcome: a match, or a localized failure.
pub enum GlobItem {
    Found(GlobMatch),
    Failed(WalkError),
}

/// The mathematical form of a match.
pub struct MatchModel {
    pub path: Seq<Seq<char>>,
    pub captures: Seq<Seq<char>>,
}

/// The mathematical form of one walk element.
pub enum GlobItemModel {
    Found(MatchModel),
    Failed(Seq<Seq<char>>),
}

impl DeepView for GlobMatch {
    type V = MatchModel;

    open spec fn deep_view(&self) -> MatchModel {
        MatchModel { path: self.path.deep_view(), captures: self.matches.deep_view() }
    }
}

impl DeepView for GlobItem {
    type V = GlobItemModel;

    open spec fn deep_view(&self) -> GlobItemModel {
        match self {
            GlobItem::Found(m) => GlobItemModel::Found(m.deep_view()),
            GlobItem::Failed(w) => GlobItemModel::Failed(w.path.deep_view()),
        }
    }
}

/// How many brace groups are left among the segments.
pub open spec fn num_groups(parts: Seq<SegModel>) -> nat
    decreases parts.len(),
{
    if parts.len() == 0 {
        0
    } else {
        (if parts[0] is Group {
            1nat
        } else {
            0nat
        }) + num_groups(parts.drop_first())
    }
}

/// The filter queue after `k` filters were consumed: one per star resolved.
pub open spec fn skip_filters(filters: Seq<FilterModel>, k: int) -> Seq<FilterModel> {
    if k <= filters.len() {
        filters.skip(k)
    } else {
        Seq::empty()
    }
}

/// The literal pieces of a wildcard segment: its text split at every star,
/// each piece case-normalized.
pub open spec fn seg_pieces(w: Seq<char>) -> Seq<Seq<char>> {
    split_char_spec(w, '*').map(|i: int, p: Seq<char>| lower_of(p))
}

/// Every capture passes its filter, in order; a capture beyond the end of
/// the queue passes by default.
pub open spec fn all_pass(filters: Seq<FilterModel>, cs: Seq<Seq<char>>) -> bool {
    forall|j: int|
        0 <= j < cs.len() ==> (j >= filters.len() || filter_passes(filters[j], #[trigger] cs[j]))
}

proof fn lemma_find_height(es: Seq<FsEntry>, name: Seq<char>, c: FsNode)
    requires
        find_child(es, name) == Some(c),
    ensures
        decreases_to!(es => c),
    decreases es.len(),
{
    if es[0].name@ == name {
        assert(c == es[0].node);
        assert(decreases_to!(es => es[0]));
        assert(decreases_to!(es[0] => es[0].node));
    } else {
        lemma_find_height(es.drop_first(), name, c);
        assert(decreases_to!(es => es.drop_first()));
    }
}

/// The observable child of a node stands below it in the tree order.
pub proof fn lemma_child_height(n: FsNode, name: Seq<char>, c: FsNode)
    requires
        child_of(n, name) == Some(c),
    ensures
        decreases_to!(n => c),
{
    match n {
        FsNode::Dir { readable, entries, .. } => {
            lemma_find_height(entries@, name, c);
            assert(decreases_to!(n => entries));
            assert(decreases_to!(entries => entries@));
        },
        _ => {
            assert(false);
        },
    }
}

/// Replacing a group by its star leaves the later groups untouched.
pub proof fn lemma_num_groups_unfold(parts: Seq<SegModel>)
    requires
        parts.len() > 0,
    ensures
        num_groups(parts) == (if parts[0] is Group {
            1nat
        } else {
            0nat
        }) + num_groups(parts.drop_first()),
        forall|w: Seq<char>|
            num_groups(seq![SegModel::Wildcard(w)] + parts.drop_first()) == num_groups(
                parts.drop_first(),
            ),
{
    assert forall|w: Seq<char>|
        num_groups(seq![SegModel::Wildcard(w)] + parts.drop_first()) == num_groups(
            parts.drop_first(),
        ) by {
        let p2 = seq![SegModel::Wildcard(w)] + parts.drop_first();
        assert(p2.drop_first() =~= parts.drop_first());
    }
}

/// The walk, one segment at a time. Prefixes and the root keep the current
/// node; a literal descends silently or dies silently; a wildcard lists the
/// directory, or reports it unlistable; a group becomes a star with its
/// filter put at the front of the queue. With no segments left, the walk
/// has found one match.
pub open spec fn glob_spec(
    node: FsNode,
    parts: Seq<SegModel>,
    filters: Seq<FilterModel>,
    path: Seq<Seq<char>>,
    caps: Seq<Seq<char>>,
) -> Result<Seq<GlobItemModel>, Seq<Seq<char>>>
    decreases node, num_groups(parts), parts.len(), 0nat,
    via glob_spec_dec
{
    if parts.len() == 0 {
        Ok(seq![GlobItemModel::Found(MatchModel { path, captures: caps })])
    } else {
        match parts[0] {
            SegModel::Prefix(_) => glob_spec(node, parts.drop_first(), filters, path, caps),
            SegModel::RootDir => glob_spec(node, parts.drop_first(), filters, path, caps),
            SegModel::Literal(name) => match child_of(node, name) {
                Some(c) => glob_spec(c, parts.drop_first(), filters, path.push(name), caps),
                None => Ok(Seq::empty()),
            },
            SegModel::Wildcard(w) => match node {
                FsNode::Dir { readable, entries, .. } => if readable {
                    Ok(
                        wild_entries(
                            entries@,
                            0,
                            seg_pieces(w),
                            parts.drop_first(),
                            filters,
                            path,
                            caps,
                        ),
                    )
                } else {
                    Err(path)
                },
                _ => Err(path),
            },
            SegModel::Group(body) => glob_spec(
                node,
                seq![SegModel::Wildcard("*"@)] + parts.drop_first(),
                seq![group_filter_spec(body)] + filters,
                path,
                caps,
            ),
        }
    }
}

#[via_fn]
proof fn glob_spec_dec(
    node: FsNode,
    parts: Seq<SegModel>,
    filters: Seq<FilterModel>,
    path: Seq<Seq<char>>,
    caps: Seq<Seq<char>>,
) {
    if parts.len() > 0 {
        lemma_num_groups_unfold(parts);
        match parts[0] {
            SegModel::Literal(name) => {
                match child_of(node, name) {
                    Some(c) => {
                        lemma_child_height(node, name, c);
                    },
                    None => {
                    },
                }
            },
            _ => {
            },
        }
    }
}

/// The elements contributed by the entries of the current directory from
/// index `i` on, in directory order.
pub open spec fn wild_entries(
    es: Seq<FsEntry>,
    i: int,
    pieces: Seq<Seq<char>>,
    rest: Seq<SegModel>,
    filters: Seq<FilterModel>,
    path: Seq<Seq<char>>,
    caps: Seq<Seq<char>>,
) -> Seq<GlobItemModel>
    decreases es, num_groups(rest), rest.len(), es.len() - i,
{
    if i < 0 || i >= es.len() {
        Seq::empty()
    } else {
        wild_one(es[i], pieces, rest, filters, path, caps) + wild_entries(
            es,
            i + 1,
            pieces,
            rest,
            filters,
            path,
            caps,
        )
    }
}

/// What one directory entry contributes. A plain file cannot be descended
/// into when segments remain; an entry whose case-normalized name does not
/// decompose over the pieces is excluded; a surviving entry's captures each
/// face one filter from the queue, and on passing, the walk goes on below
/// the entry with the queue advanced by the number of stars.
pub open spec fn wild_one(
    e: FsEntry,
    pieces: Seq<Seq<char>>,
    rest: Seq<SegModel>,
    filters: Seq<FilterModel>,
    path: Seq<Seq<char>>,
    caps: Seq<Seq<char>>,
) -> Seq<GlobItemModel>
    decreases e, num_groups(rest), rest.len(), 0nat,
{
    if e.node is File && rest.len() > 0 {
        Seq::empty()
    } else {
        match greedy_caps(pieces, lower_of(e.name@)) {
            None => Seq::empty(),
            Some(cs) => if all_pass(filters, cs) {
                match glob_spec(
                    e.node,
                    rest,
                    skip_filters(filters, cs.len() as int),
                    path.push(e.name@),
                    caps + cs,
                ) {
                    Ok(items) => items,
                    Err(p) => seq![GlobItemModel::Failed(p)],
                }
            } else {
                Seq::empty()
            },
        }
    }
}

fn clone_segment(sg: &Segment) -> (r: Segment)
    ensures
        r.deep_view() == sg.deep_view(),
{
    match sg {
        Segment::Prefix(s) => Segment::Prefix(s.clone()),
        Segment::RootDir => Segment::RootDir,
        Segment::Literal(s) => Segment::Literal(s.clone()),
        Segment::Wildcard(s) => Segment::Wildcard(s.clone()),
        Segment::Group(s) => Segment::Group(s.clone()),
    }
}

/// What one entry of the listed directory contributes to the walk:
/// the elements of the walk below it, or one failure element.
#[verifier::loop_isolation(false)]
#[verifier::rlimit(60)]
fn glob_wild_entry(
    e: &FsEntry,
    pieces: &Vec<String>,
    parts: &Vec<Segment>,
    prest: usize,
    filters: &Vec<Match>,
    fstart: usize,
    path: &Vec<String>,
    caps: &Vec<String>,
) -> (out: Vec<GlobItem>)
    requires
        prest <= parts@.len(),
        fstart <= filters@.len(),
        pieces@.len() >= 1,
    ensures
        out.deep_view() == wild_one(
            *e,
            pieces.deep_view(),
            parts.deep_view().skip(prest as int),
            filters.deep_view().skip(fstart as int),
            path.deep_view(),
            caps.deep_view(),
        ),
    decreases *e, num_groups(parts.deep_view().skip(prest as int)), parts@.len() - prest, 1nat,
{
    let ghost rest = parts.deep_view().skip(prest as int);
    let ghost fq = filters.deep_view().skip(fstart as int);
    let is_file = matches!(&e.node, FsNode::File { .. });
    if is_file && prest < parts.len() {
        let out: Vec<GlobItem> = Vec::new();
        proof {
            assert(out.deep_view() =~= Seq::<GlobItemModel>::empty());
            assert(rest.len() > 0);
        }
        return out;
    }
    let lowname = lowercase(e.name.as_str());
    match wildcard_captures(pieces, lowname.as_str()) {
        None => {
            let out: Vec<GlobItem> = Vec::new();
            proof {
                assert(out.deep_view() =~= Seq::<GlobItemModel>::empty());
                assert(greedy_caps(pieces.deep_view(), lower_of(e.name@)) is None);
            }
            out
        },
        Some(cs) => {
            let ghost csv = cs.deep_view();
            proof {
                assert(greedy_caps(pieces.deep_view(), lower_of(e.name@)) == Some(csv));
            }
            let k = cs.len();
            let mut j: usize = 0;
            let mut pass = true;
            while j < k
                invariant
                    j <= k,
                    k == csv.len(),
                    fstart <= filters@.len(),
                    pass ==> forall|jj: int|
                        0 <= jj < j ==> (jj >= fq.len() || filter_passes(
                            fq[jj],
                            #[trigger] csv[jj],
                        )),
                    !pass ==> !all_pass(fq, csv),
                decreases k - j,
            {
                if j < filters.len() - fstart {
                    if !filter_pass(&filters[fstart + j], cs[j].as_str()) {
                        proof {
                            assert(fq[j as int] == filters.deep_view()[fstart + j]);
                            assert(!filter_passes(fq[j as int], csv[j as int]));
                            assert(!all_pass(fq, csv));
                        }
                        pass = false;
                    }
                }
                j = j + 1;
            }
            if !pass {
                let out: Vec<GlobItem> = Vec::new();
                proof {
                    assert(out.deep_view() =~= Seq::<GlobItemModel>::empty());
                }
                return out;
            }
            proof {
                assert(all_pass(fq, csv));
            }
            let new_fstart = if k <= filters.len() - fstart {
                fstart + k
            } else {
                filters.len()
            };
            proof {
                if fstart + k <= filters@.len() {
                    assert(filters.deep_view().skip(new_fstart as int) =~= skip_filters(
                        fq,
                        k as int,
                    ));
                } else {
                    assert(filters.deep_view().skip(new_fstart as int) =~= Seq::<
                        FilterModel,
                    >::empty());
                    assert(skip_filters(fq, k as int) =~= Seq::<FilterModel>::empty());
                }
            }
            let new_path = push_string(path, e.name.clone());
            let new_caps = concat_strings(caps, &cs);
            let sub = glob(&e.node, parts, prest, filters, new_fstart, &new_path, &new_caps);
            match sub {
                Ok(items) => {
                    proof {
                        assert(items.deep_view() == wild_one(
                            *e,
                            pieces.deep_view(),
                            rest,
                            fq,
                            path.deep_view(),
                            caps.deep_view(),
                        ));
                    }
                    items
                },
                Err(w) => {
                    let mut out: Vec<GlobItem> = Vec::new();
                    let ghost wp = w.path.deep_view();
                    out.push(GlobItem::Failed(w));
                    proof {
                        assert(out.deep_view() =~= seq![GlobItemModel::Failed(wp)]);
                    }
                    out
                },
            }
        },
    }
}

/// Walks the pattern segments from `pstart` against the tree below `node`,
/// with the filter queue from `fstart`, the path walked so far and the
/// captures bound so far, and yields every match and every localized
/// listing failure; fails as a whole only when the directory the wildcard
/// itself must list cannot be listed.
#[verifier::loop_isolation(false)]
#[verifier::rlimit(60)]
pub fn glob(
    node: &FsNode,
    parts: &Vec<Segment>,
    pstart: usize,
    filters: &Vec<Match>,
    fstart: usize,
    path: &Vec<String>,
    caps: &Vec<String>,
) -> (r: Result<Vec<GlobItem>, WalkError>)
    requires
        pstart <= parts@.len(),
        fstart <= filters@.len(),
    ensures
        match r {
            Ok(v) => glob_spec(
                *node,
                parts.deep_view().skip(pstart as int),
                filters.deep_view().skip(fstart as int),
                path.deep_view(),
                caps.deep_view(),
            ) == Ok::<Seq<GlobItemModel>, Seq<Seq<char>>>(v.deep_view()),
            Err(w) => glob_spec(
                *node,
                parts.deep_view().skip(pstart as int),
                filters.deep_view().skip(fstart as int),
                path.deep_view(),
                caps.deep_view(),
            ) == Err::<Seq<GlobItemModel>, Seq<Seq<char>>>(w.path.deep_view()),
        },
    decreases *node, num_groups(parts.deep_view().skip(pstart as int)), parts@.len() - pstart,
        0nat,
{
    let ghost pv = parts.deep_view().skip(pstart as int);
    let ghost fq = filters.deep_view().skip(fstart as int);
    if pstart == parts.len() {
        let m = GlobMatch { path: clone_string_vec(path), matches: clone_string_vec(caps) };
        let mut out: Vec<GlobItem> = Vec::new();
        let ghost mv = m.deep_view();
        out.push(GlobItem::Found(m));
        proof {
            assert(pv.len() == 0);
            assert(out.deep_view() =~= seq![GlobItemModel::Found(mv)]);
        }
        return Ok(out);
    }
    proof {
        assert(pv.len() > 0);
        assert(pv[0] == parts.deep_view()[pstart as int]);
        assert(pv.drop_first() =~= parts.deep_view().skip(pstart as int + 1));
        lemma_num_groups_unfold(pv);
    }
    match &parts[pstart] {
        Segment::Prefix(_) => glob(node, parts, pstart + 1, filters, fstart, path, caps),
        Segment::RootDir => glob(node, parts, pstart + 1, filters, fstart, path, caps),
        Segment::Literal(name) => {
            match crate::fstree::get_child(node, name.as_str()) {
                Some(c) => {
                    proof {
                        lemma_child_height(*node, name@, *c);
                    }
                    let new_path = push_string(path, name.clone());
                    glob(c, parts, pstart + 1, filters, fstart, &new_path, caps)
                },
                None => {
                    let out: Vec<GlobItem> = Vec::new();
                    proof {
                        assert(out.deep_view() =~= Seq::<GlobItemModel>::empty());
                    }
                    Ok(out)
                },
            }
        },
        Segment::Wildcard(w) => {
            let raw = split_char(w.as_str(), '*');
            let mut pieces: Vec<String> = Vec::new();
            let mut pi: usize = 0;
            proof {
                assert(pieces.deep_view() =~= seg_pieces(w@).take(0));
            }
            while pi < raw.len()
                invariant
                    pi <= raw@.len(),
                    pieces.deep_view() =~= seg_pieces(w@).take(pi as int),
                decreases raw@.len() - pi,
            {
                let ghost prevp = pieces.deep_view();
                pieces.push(lowercase(raw[pi].as_str()));
                proof {
                    assert(pieces.deep_view() =~= prevp.push(lower_of(raw.deep_view()[pi as int])));
                    assert(seg_pieces(w@)[pi as int] == lower_of(raw.deep_view()[pi as int]));
                }
                pi = pi + 1;
            }
            proof {
                assert(pieces.deep_view() =~= seg_pieces(w@));
                assert(pieces@.len() >= 1);
            }
            match node {
                FsNode::Dir { readable, entries, .. } => {
                    if !*readable {
                        return Err(WalkError { path: clone_string_vec(path) });
                    }
                    let ghost es = entries@;
                    let mut out: Vec<GlobItem> = Vec::new();
                    let mut i: usize = 0;
                    proof {
                        assert(out.deep_view() =~= Seq::<GlobItemModel>::empty());
                    }
                    while i < entries.len()
                        invariant
                            i <= entries.len(),
                            pstart < parts@.len(),
                            fstart <= filters@.len(),
                            pieces@.len() >= 1,
                            es == entries@,
                            wild_entries(
                                es,
                                0,
                                pieces.deep_view(),
                                pv.drop_first(),
                                fq,
                                path.deep_view(),
                                caps.deep_view(),
                            ) == out.deep_view() + wild_entries(
                                es,
                                i as int,
                                pieces.deep_view(),
                                pv.drop_first(),
                                fq,
                                path.deep_view(),
                                caps.deep_view(),
                            ),
                        decreases entries.len() - i,
                    {
                        proof {
                            assert(decreases_to!(*node => *entries));
                            assert(decreases_to!(*entries => es));
                            assert(decreases_to!(es => es[i as int]));
                            assert(decreases_to!(*node => es[i as int]));
                        }
                        let ghost prev = out.deep_view();
                        let mut here = glob_wild_entry(
                            &entries[i],
                            &pieces,
                            parts,
                            pstart + 1,
                            filters,
                            fstart,
                            path,
                            caps,
                        );
                        let ghost herev = here.deep_view();
                        out.append(&mut here);
                        proof {
                            assert(out.deep_view() =~= prev + herev);
                            assert(wild_entries(
                                es,
                                i as int,
                                pieces.deep_view(),
                                pv.drop_first(),
                                fq,
                                path.deep_view(),
                                caps.deep_view(),
                            ) == herev + wild_entries(
                                es,
                                i as int + 1,
                                pieces.deep_view(),
                                pv.drop_first(),
                                fq,
                                path.deep_view(),
                                caps.deep_view(),
                            ));
                        }
                        i = i + 1;
                    }
                    proof {
                        assert(wild_entries(
                            es,
                            es.len() as int,
                            pieces.deep_view(),
                            pv.drop_first(),
                            fq,
                            path.deep_view(),
                            caps.deep_view(),
                        ) =~= Seq::<GlobItemModel>::empty());
                        assert(out.deep_view() =~= wild_entries(
                            es,
                            0,
                            pieces.deep_view(),
                            pv.drop_first(),
                            fq,
                            path.deep_view(),
                            caps.deep_view(),
                        ));
                    }
                    Ok(out)
                },
                FsNode::File { .. } => Err(WalkError { path: clone_string_vec(path) }),
            }
        },
        Segment::Group(body) => {
            let mut new_parts: Vec<Segment> = Vec::new();
            new_parts.push(Segment::Wildcard(String::from_str("*")));
            let mut j: usize = pstart + 1;
            while j < parts.len()
                invariant
                    pstart + 1 <= j <= parts@.len(),
                    new_parts.deep_view() =~= seq![SegModel::Wildcard("*"@)]
                        + parts.deep_view().subrange(pstart as int + 1, j as int),
                decreases parts@.len() - j,
            {
                let ghost prevp = new_parts.deep_view();
                new_parts.push(clone_segment(&parts[j]));
                proof {
                    assert(new_parts.deep_view() =~= prevp.push(
                        parts.deep_view()[j as int],
                    ));
                }
                j = j + 1;
            }
            let mut new_filters: Vec<Match> = Vec::new();
            new_filters.push(crate::pattern::parse_group(body.as_str()));
            let mut j: usize = fstart;
            while j < filters.len()
                invariant
                    fstart <= j <= filters@.len(),
                    new_filters.deep_view() =~= seq![group_filter_spec(body@)]
                        + filters.deep_view().subrange(fstart as int, j as int),
                decreases filters@.len() - j,
            {
                let ghost prevf = new_filters.deep_view();
                new_filters.push(crate::settings::clone_match(&filters[j]));
                proof {
                    assert(new_filters.deep_view() =~= prevf.push(
                        filters.deep_view()[j as int],
                    ));
                }
                j = j + 1;
            }
            proof {
                assert(new_parts.deep_view().skip(0) =~= new_parts.deep_view());
                assert(new_filters.deep_view().skip(0) =~= new_filters.deep_view());
                assert(parts.deep_view().subrange(
                    pstart as int + 1,
                    parts.deep_view().len() as int,
                ) =~= pv.drop_first());
                assert(filters.deep_view().subrange(
                    fstart as int,
                    filters.deep_view().len() as int,
                ) =~= fq);
                assert(new_parts.deep_view() =~= seq![SegModel::Wildcard("*"@)]
                    + pv.drop_first());
                assert(new_filters.deep_view() =~= seq![group_filter_spec(body@)] + fq);
            }
            glob(node, &new_parts, 0, &new_filters, 0, path, caps)
        },
    }
}

/// One wildcard consumes one filter per star, for every path it resolves:
/// an entry's captures number the stars of the segment, and the walk below
/// the entry sees the queue advanced by exactly that number — however many
/// entries matched, since every entry of the directory is judged against
/// the same snapshot of the queue.
pub proof fn lemma_wildcard_consumes_stars(
    w: Seq<char>,
    name: Seq<char>,
    cs: Seq<Seq<char>>,
    filters: Seq<FilterModel>,
)
    requires
        greedy_caps(seg_pieces(w), name) == Some(cs),
    ensures
        cs.len() == crate::count_spec(w, '*'),
        crate::count_spec(w, '*') <= filters.len() ==> skip_filters(filters, cs.len() as int)
            == filters.skip(crate::count_spec(w, '*') as int),
{
    crate::matcher::lemma_greedy_is_decomposition(seg_pieces(w), name, cs);
    crate::pattern::lemma_split_char_len(w, '*');
    assert(seg_pieces(w).len() == split_char_spec(w, '*').len());
}

/// A brace group is exactly a single-star wildcard judged against the
/// filter the group describes, put at the front of the queue.
pub proof fn lemma_group_is_star_with_filter(
    node: FsNode,
    body: Seq<char>,
    rest: Seq<SegModel>,
    filters: Seq<FilterModel>,
    path: Seq<Seq<char>>,
    caps: Seq<Seq<char>>,
)
    ensures
        glob_spec(node, seq![SegModel::Group(body)] + rest, filters, path, caps) == glob_spec(
            node,
            seq![SegModel::Wildcard("*"@)] + rest,
            seq![group_filter_spec(body)] + filters,
            path,
            caps,
        ),
{
    let parts = seq![SegModel::Group(body)] + rest;
    assert(parts[0] == SegModel::Group(body));
    assert(parts.drop_first() =~= rest);
}

/// The walk's elements at a listed directory are the concatenation of what
/// each entry contributes on its own: what one entry yields depends on that
/// entry alone, so a failure below one of them leaves its siblings'
/// matches standing.
pub proof fn lemma_entries_contribute_independently(
    es: Seq<FsEntry>,
    i: int,
    pieces: Seq<Seq<char>>,
    rest: Seq<SegModel>,
    filters: Seq<FilterModel>,
    path: Seq<Seq<char>>,
    caps: Seq<Seq<char>>,
)
    requires
        0 <= i < es.len(),
    ensures
        wild_entries(es, i, pieces, rest, filters, path, caps) == wild_one(
            es[i],
            pieces,
            rest,
            filters,
            path,
            caps,
        ) + wild_entries(es, i + 1, pieces, rest, filters, path, caps),
{
}

/// An entry that survives the match and its filters, but whose directory
/// the next wildcard cannot list, contributes exactly one failure element,
/// naming that branch.
pub proof fn lemma_unlistable_branch_is_one_error(
    e: FsEntry,
    pieces: Seq<Seq<char>>,
    rest: Seq<SegModel>,
    filters: Seq<FilterModel>,
    path: Seq<Seq<char>>,
    caps: Seq<Seq<char>>,
    cs: Seq<Seq<char>>,
)
    requires
        greedy_caps(pieces, lower_of(e.name@)) == Some(cs),
        all_pass(filters, cs),
        rest.len() > 0,
        rest[0] is Wildcard,
        e.node is Dir,
        !e.node->Dir_readable,
    ensures
        wild_one(e, pieces, rest, filters, path, caps) == seq![
            GlobItemModel::Failed(path.push(e.name@)),
        ],
{
    assert(glob_spec(
        e.node,
        rest,
        skip_filters(filters, cs.len() as int),
        path.push(e.name@),
        caps + cs,
    ) == Err::<Seq<GlobItemModel>, Seq<Seq<char>>>(path.push(e.name@)));
}

/// How many captures the remaining segments will bind on any completed
/// walk: one per star of each wildcard, one per brace group.
pub open spec fn stars_total(parts: Seq<SegModel>) -> nat
    decreases parts.len(),
{
    if parts.len() == 0 {
        0
    } else {
        (match parts[0] {
            SegModel::Wildcard(w) => crate::count_spec(w, '*'),
            SegModel::Group(_) => 1nat,
            _ => 0nat,
        }) + stars_total(parts.drop_first())
    }
}

/// Every match the walk yields carries one capture per star traversed: the
/// captures bound so far plus exactly the stars of the remaining segments.
pub proof fn lemma_match_capture_count(
    node: FsNode,
    parts: Seq<SegModel>,
    filters: Seq<FilterModel>,
    path: Seq<Seq<char>>,
    caps: Seq<Seq<char>>,
)
    ensures
        match glob_spec(node, parts, filters, path, caps) {
            Ok(items) => forall|j: int|
                0 <= j < items.len() ==> ((#[trigger] items[j]) matches GlobItemModel::Found(m)
                    ==> m.captures.len() == caps.len() + stars_total(parts)),
            Err(_) => true,
        },
    decreases node, num_groups(parts), parts.len(), 0nat,
{
    if parts.len() == 0 {
    } else {
        lemma_num_groups_unfold(parts);
        match parts[0] {
            SegModel::Prefix(_) => {
                lemma_match_capture_count(node, parts.drop_first(), filters, path, caps);
            },
            SegModel::RootDir => {
                lemma_match_capture_count(node, parts.drop_first(), filters, path, caps);
            },
            SegModel::Literal(name) => {
                match child_of(node, name) {
                    Some(c) => {
                        lemma_child_height(node, name, c);
                        lemma_match_capture_count(
                            c,
                            parts.drop_first(),
                            filters,
                            path.push(name),
                            caps,
                        );
                    },
                    None => {
                    },
                }
            },
            SegModel::Wildcard(w) => {
                match node {
                    FsNode::Dir { readable, entries, .. } => {
                        if readable {
                            crate::pattern::lemma_split_char_len(w, '*');
                            lemma_entries_capture_count(
                                entries@,
                                0,
                                seg_pieces(w),
                                parts.drop_first(),
                                filters,
                                path,
                                caps,
                            );
                        }
                    },
                    _ => {
                    },
                }
            },
            SegModel::Group(body) => {
                let p2 = seq![SegModel::Wildcard("*"@)] + parts.drop_first();
                lemma_match_capture_count(
                    node,
                    p2,
                    seq![group_filter_spec(body)] + filters,
                    path,
                    caps,
                );
                reveal_strlit("*");
                assert("*"@ =~= seq!['*']);
                assert(seq!['*'].drop_last() =~= Seq::<char>::empty());
                assert(crate::count_spec(Seq::<char>::empty(), '*') == 0);
                assert(seq!['*'].last() == '*');
                assert(crate::count_spec(seq!['*'], '*') == 1);
                assert(crate::count_spec("*"@, '*') == 1);
                assert(p2.drop_first() =~= parts.drop_first());
                assert(stars_total(p2) == 1 + stars_total(parts.drop_first()));
            },
        }
    }
}

proof fn lemma_entries_capture_count(
    es: Seq<FsEntry>,
    i: int,
    pieces: Seq<Seq<char>>,
    rest: Seq<SegModel>,
    filters: Seq<FilterModel>,
    path: Seq<Seq<char>>,
    caps: Seq<Seq<char>>,
)
    requires
        pieces.len() >= 1,
    ensures
        forall|j: int|
            0 <= j < wild_entries(es, i, pieces, rest, filters, path, caps).len() ==> ((
            #[trigger] wild_entries(es, i, pieces, rest, filters, path, caps)[j])
                matches GlobItemModel::Found(m) ==> m.captures.len() == caps.len() + (pieces.len()
                - 1) + stars_total(rest)),
    decreases es, num_groups(rest), rest.len(), es.len() - i,
{
    if 0 <= i < es.len() {
        lemma_one_capture_count(es[i], pieces, rest, filters, path, caps);
        lemma_entries_capture_count(es, i + 1, pieces, rest, filters, path, caps);
        assert forall|j: int|
            0 <= j < wild_entries(es, i, pieces, rest, filters, path, caps).len() implies ((
        #[trigger] wild_entries(es, i, pieces, rest, filters, path, caps)[j])
            matches GlobItemModel::Found(m) ==> m.captures.len() == caps.len() + (pieces.len() - 1)
            + stars_total(rest)) by {
            let here = wild_one(es[i], pieces, rest, filters, path, caps);
            let there = wild_entries(es, i + 1, pieces, rest, filters, path, caps);
            if j < here.len() {
                assert(wild_entries(es, i, pieces, rest, filters, path, caps)[j] == here[j]);
            } else {
                assert(wild_entries(es, i, pieces, rest, filters, path, caps)[j] == there[j
                    - here.len()]);
            }
        }
    }
}

proof fn lemma_one_capture_count(
    e: FsEntry,
    pieces: Seq<Seq<char>>,
    rest: Seq<SegModel>,
    filters: Seq<FilterModel>,
    path: Seq<Seq<char>>,
    caps: Seq<Seq<char>>,
)
    requires
        pieces.len() >= 1,
    ensures
        forall|j: int|
            0 <= j < wild_one(e, pieces, rest, filters, path, caps).len() ==> ((#[trigger] wild_one(
                e,
                pieces,
                rest,
                filters,
                path,
                caps,
            )[j]) matches GlobItemModel::Found(m) ==> m.captures.len() == caps.len() + (
            pieces.len() - 1) + stars_total(rest)),
    decreases e, num_groups(rest), rest.len(), 0nat,
{
    if e.node is File && rest.len() > 0 {
    } else {
        match greedy_caps(pieces, lower_of(e.name@)) {
            None => {
            },
            Some(cs) => {
                if all_pass(filters, cs) {
                    crate::matcher::lemma_greedy_is_decomposition(
                        pieces,
                        lower_of(e.name@),
                        cs,
                    );
                    lemma_match_capture_count(
                        e.node,
                        rest,
                        skip_filters(filters, cs.len() as int),
                        path.push(e.name@),
                        caps + cs,
                    );
                }
            },
        }
    }
}

} // verus!

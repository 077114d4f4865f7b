//! Decomposing configured path strings into pattern segments, and parsing
//! brace filter groups.
use vstd::prelude::*;
use crate::settings::{FilterModel, Match};
use crate::strutil::{contains_char, str_eq, substring_string, trim_chars, trim_spec};
use crate::count_spec;

verus! {

/// The parts of `s` between occurrences of the character `c`, in order,
/// kept verbatim; splitting on no occurrence gives the one whole string.
pub open spec fn split_char_spec(s: Seq<char>, c: char) -> Seq<Seq<char>>
    decreases s.len(),
{
    if s.len() == 0 {
        seq![Seq::<char>::empty()]
    } else if s.last() == c {
        split_char_spec(s.drop_last(), c).push(Seq::<char>::empty())
    } else {
        let p = split_char_spec(s.drop_last(), c);
        p.update(p.len() - 1, p.last().push(s.last()))
    }
}

pub proof fn lemma_split_char_len(s: Seq<char>, c: char)
    ensures
        split_char_spec(s, c).len() == count_spec(s, c) + 1,
    decreases s.len(),
{
    if s.len() > 0 {
        lemma_split_char_len(s.drop_last(), c);
    }
}

/// Splits `s` at every occurrence of `c`.
#[verifier::loop_isolation(false)]
pub fn split_char(s: &str, c: char) -> (r: Vec<String>)
    ensures
        r.deep_view() == split_char_spec(s@, c),
        r@.len() == count_spec(s@, c) + 1,
{
    let len = s.unicode_len();
    let mut done: Vec<String> = Vec::new();
    let mut start: usize = 0;
    let mut i: usize = 0;
    proof {
        assert(s@.take(0) =~= Seq::<char>::empty());
        assert(split_char_spec(s@.take(0), c) =~= done.deep_view().push(s@.subrange(0, 0)));
    }
    while i < len
        invariant
            start <= i <= len,
            split_char_spec(s@.take(i as int), c) == done.deep_view().push(
                s@.subrange(start as int, i as int),
            ),
        decreases len - i,
    {
        let ghost prev = done.deep_view();
        let ghost part = s@.subrange(start as int, i as int);
        let ch = s.get_char(i);
        proof {
            assert(s@.take(i as int + 1).drop_last() =~= s@.take(i as int));
            assert(s@.take(i as int + 1).last() == s@[i as int]);
        }
        if ch == c {
            done.push(substring_string(s, start, i));
            start = i + 1;
            proof {
                assert(done.deep_view() =~= prev.push(part));
                assert(s@.subrange(i as int + 1, i as int + 1) =~= Seq::<char>::empty());
                assert(split_char_spec(s@.take(i as int + 1), c) =~= done.deep_view().push(
                    s@.subrange(i as int + 1, i as int + 1),
                ));
            }
        } else {
            proof {
                let p = split_char_spec(s@.take(i as int), c);
                assert(p.update(p.len() - 1, p.last().push(s@[i as int])) =~= prev.push(
                    part.push(s@[i as int]),
                ));
                assert(part.push(s@[i as int]) =~= s@.subrange(start as int, i as int + 1));
            }
        }
        i = i + 1;
    }
    let ghost prev = done.deep_view();
    done.push(substring_string(s, start, len));
    proof {
        assert(s@.take(len as int) =~= s@);
        assert(done.deep_view() =~= prev.push(s@.subrange(start as int, len as int)));
        lemma_split_char_len(s@, c);
    }
    done
}

/// The characters that separate path components.
pub open spec fn is_sep(c: char) -> bool {
    c == '/' || c == '\\'
}

/// The parts of `s` between path separators, in order, kept verbatim.
pub open spec fn split_seps_spec(s: Seq<char>) -> Seq<Seq<char>>
    decreases s.len(),
{
    if s.len() == 0 {
        seq![Seq::<char>::empty()]
    } else if is_sep(s.last()) {
        split_seps_spec(s.drop_last()).push(Seq::<char>::empty())
    } else {
        let p = split_seps_spec(s.drop_last());
        p.update(p.len() - 1, p.last().push(s.last()))
    }
}

pub proof fn lemma_split_seps_nonempty(s: Seq<char>)
    ensures
        split_seps_spec(s).len() >= 1,
    decreases s.len(),
{
    if s.len() > 0 {
        lemma_split_seps_nonempty(s.drop_last());
    }
}

/// Splits `s` at every path separator.
#[verifier::loop_isolation(false)]
pub fn split_seps(s: &str) -> (r: Vec<String>)
    ensures
        r.deep_view() == split_seps_spec(s@),
        r@.len() >= 1,
{
    let len = s.unicode_len();
    let mut done: Vec<String> = Vec::new();
    let mut start: usize = 0;
    let mut i: usize = 0;
    proof {
        assert(s@.take(0) =~= Seq::<char>::empty());
        assert(split_seps_spec(s@.take(0)) =~= done.deep_view().push(s@.subrange(0, 0)));
    }
    while i < len
        invariant
            start <= i <= len,
            split_seps_spec(s@.take(i as int)) == done.deep_view().push(
                s@.subrange(start as int, i as int),
            ),
        decreases len - i,
    {
        let ghost prev = done.deep_view();
        let ghost part = s@.subrange(start as int, i as int);
        let ch = s.get_char(i);
        proof {
            assert(s@.take(i as int + 1).drop_last() =~= s@.take(i as int));
            assert(s@.take(i as int + 1).last() == s@[i as int]);
        }
        if ch == '/' || ch == '\\' {
            done.push(substring_string(s, start, i));
            start = i + 1;
            proof {
                assert(done.deep_view() =~= prev.push(part));
                assert(s@.subrange(i as int + 1, i as int + 1) =~= Seq::<char>::empty());
                assert(split_seps_spec(s@.take(i as int + 1)) =~= done.deep_view().push(
                    s@.subrange(i as int + 1, i as int + 1),
                ));
            }
        } else {
            proof {
                let p = split_seps_spec(s@.take(i as int));
                assert(p.update(p.len() - 1, p.last().push(s@[i as int])) =~= prev.push(
                    part.push(s@[i as int]),
                ));
                assert(part.push(s@[i as int]) =~= s@.subrange(start as int, i as int + 1));
            }
        }
        i = i + 1;
    }
    let ghost prev = done.deep_view();
    done.push(substring_string(s, start, len));
    proof {
        assert(s@.take(len as int) =~= s@);
        assert(done.deep_view() =~= prev.push(s@.subrange(start as int, len as int)));
        lemma_split_seps_nonempty(s@);
    }
    done
}

/// One element of a decomposed source path.
pub enum Segment {
    /// A volume name such as a drive letter, ending in a colon.
    Prefix(String),
    /// The root of the tree.
    RootDir,
    /// A plain name, descended into without listing the directory.
    Literal(String),
    /// A name holding one or more stars, matched against every entry.
    Wildcard(String),
    /// A brace group `{a,b,-c}`: sugar for a single star constrained by the
    /// filter the group describes.
    Group(String),
}

/// The mathematical form of a segment.
pub enum SegModel {
    Prefix(Seq<char>),
    RootDir,
    Literal(Seq<char>),
    Wildcard(Seq<char>),
    Group(Seq<char>),
}

impl DeepView for Segment {
    type V = SegModel;

    open spec fn deep_view(&self) -> SegModel {
        match self {
            Segment::Prefix(s) => SegModel::Prefix(s@),
            Segment::RootDir => SegModel::RootDir,
            Segment::Literal(s) => SegModel::Literal(s@),
            Segment::Wildcard(s) => SegModel::Wildcard(s@),
            Segment::Group(s) => SegModel::Group(s@),
        }
    }
}

/// A part that cannot be walked: the current or parent directory.
pub open spec fn invalid_part(p: Seq<char>) -> bool {
    p == "."@ || p == ".."@
}

/// What one split part stands for. An empty part is the root when it is
/// first (the string began with a separator) and is dropped elsewhere
/// (doubled separators). A first part ending in a colon is a volume prefix.
pub open spec fn classify_spec(p: Seq<char>, first: bool) -> Option<SegModel> {
    if p.len() == 0 {
        if first {
            Some(SegModel::RootDir)
        } else {
            None
        }
    } else if p.contains('*') {
        Some(SegModel::Wildcard(p))
    } else if p.len() >= 2 && p[0] == '{' && p.last() == '}' {
        Some(SegModel::Group(p.subrange(1, p.len() - 1)))
    } else if first && p.last() == ':' {
        Some(SegModel::Prefix(p))
    } else {
        Some(SegModel::Literal(p))
    }
}

/// The segments of every part after the first.
pub open spec fn decompose_rest(parts: Seq<Seq<char>>) -> Seq<SegModel>
    decreases parts.len(),
{
    if parts.len() == 0 {
        Seq::empty()
    } else {
        let rest = decompose_rest(parts.drop_last());
        match classify_spec(parts.last(), false) {
            Some(sm) => rest.push(sm),
            None => rest,
        }
    }
}

/// A source or destination path that cannot be walked.
#[derive(Debug, PartialEq, Eq, Structural)]
pub enum PatternError {
    /// The path names the current or the parent directory.
    InvalidComponent,
}

/// The segments of the whole decomposed path string, or an error when a
/// part names the current or parent directory.
pub open spec fn decompose_spec(s: Seq<char>) -> Result<Seq<SegModel>, PatternError> {
    let parts = split_seps_spec(s);
    if exists|i: int| 0 <= i < parts.len() && invalid_part(#[trigger] parts[i]) {
        Err(PatternError::InvalidComponent)
    } else {
        let head: Seq<SegModel> = match classify_spec(parts[0], true) {
            Some(sm) => seq![sm],
            None => Seq::empty(),
        };
        Ok(head + decompose_rest(parts.drop_first()))
    }
}

fn classify(p: &String, first: bool) -> (r: Option<Segment>)
    ensures
        match r {
            Some(sg) => classify_spec(p@, first) == Some(sg.deep_view()),
            None => classify_spec(p@, first) is None,
        },
{
    let len = p.as_str().unicode_len();
    if len == 0 {
        if first {
            Some(Segment::RootDir)
        } else {
            None
        }
    } else if contains_char(p.as_str(), '*') {
        Some(Segment::Wildcard(p.clone()))
    } else if len >= 2 && p.as_str().get_char(0) == '{' && p.as_str().get_char(len - 1) == '}' {
        Some(Segment::Group(substring_string(p.as_str(), 1, len - 1)))
    } else if first && p.as_str().get_char(len - 1) == ':' {
        Some(Segment::Prefix(p.clone()))
    } else {
        Some(Segment::Literal(p.clone()))
    }
}

/// Decomposes a configured path string into its pattern segments.
#[verifier::loop_isolation(false)]
pub fn decompose_pattern(s: &str) -> (r: Result<Vec<Segment>, PatternError>)
    ensures
        match r {
            Ok(v) => decompose_spec(s@) == Ok::<Seq<SegModel>, PatternError>(v.deep_view()),
            Err(e) => decompose_spec(s@) == Err::<Seq<SegModel>, PatternError>(e),
        },
{
    let parts = split_seps(s);
    let ghost pv = parts.deep_view();
    let mut i: usize = 0;
    while i < parts.len()
        invariant
            i <= parts.len(),
            forall|j: int| 0 <= j < i ==> !invalid_part(#[trigger] pv[j]),
        decreases parts.len() - i,
    {
        if str_eq(parts[i].as_str(), ".") || str_eq(parts[i].as_str(), "..") {
            proof {
                assert(invalid_part(pv[i as int]));
            }
            return Err(PatternError::InvalidComponent);
        }
        i = i + 1;
    }
    let mut segs: Vec<Segment> = Vec::new();
    let ghost head = match classify_spec(pv[0], true) {
        Some(sm) => seq![sm],
        None => Seq::<SegModel>::empty(),
    };
    match classify(&parts[0], true) {
        Some(sg) => {
            segs.push(sg);
        },
        None => {
        },
    }
    proof {
        assert(segs.deep_view() =~= head);
    }
    let mut i: usize = 1;
    while i < parts.len()
        invariant
            1 <= i <= parts.len(),
            segs.deep_view() == head + decompose_rest(pv.take(i as int).drop_first()),
        decreases parts.len() - i,
    {
        let ghost prev = segs.deep_view();
        match classify(&parts[i], false) {
            Some(sg) => {
                segs.push(sg);
                proof {
                    assert(segs.deep_view() =~= prev.push(sg.deep_view()));
                }
            },
            None => {
            },
        }
        proof {
            assert(pv.take(i as int + 1).drop_first().drop_last() =~= pv.take(
                i as int,
            ).drop_first());
            assert(pv.take(i as int + 1).drop_first().last() == pv[i as int]);
            assert(pv.take(i as int + 1).drop_first().len() == i as int);
        }
        i = i + 1;
    }
    proof {
        assert(pv.take(pv.len() as int) =~= pv);
    }
    Ok(segs)
}

/// The entries of a brace group that begin with a dash once trimmed, the
/// dash dropped: the names the group shuts out.
pub open spec fn group_excludes(items: Seq<Seq<char>>) -> Seq<Seq<char>>
    decreases items.len(),
{
    if items.len() == 0 {
        Seq::empty()
    } else {
        let rest = group_excludes(items.drop_last());
        let it = trim_spec(items.last());
        if it.len() > 0 && it[0] == '-' {
            rest.push(it.drop_first())
        } else {
            rest
        }
    }
}

/// The trimmed entries of a brace group without a dash: the only names the
/// group lets through.
pub open spec fn group_onlys(items: Seq<Seq<char>>) -> Seq<Seq<char>>
    decreases items.len(),
{
    if items.len() == 0 {
        Seq::empty()
    } else {
        let rest = group_onlys(items.drop_last());
        let it = trim_spec(items.last());
        if it.len() > 0 && it[0] == '-' {
            rest
        } else {
            rest.push(it)
        }
    }
}

/// The filter a brace group body stands for.
pub open spec fn group_filter_spec(body: Seq<char>) -> FilterModel {
    let items = split_char_spec(body, ',');
    FilterModel { exclude: group_excludes(items), only: group_onlys(items) }
}

/// Parses the body of a brace group `{a,b,-c}` into the filter it stands
/// for: each entry is trimmed of surrounding white space; dashed entries
/// shut names out, the others are the only names let through.
#[verifier::loop_isolation(false)]
pub fn parse_group(body: &str) -> (r: Match)
    ensures
        r.deep_view() == group_filter_spec(body@),
{
    let items = split_char(body, ',');
    let ghost iv = items.deep_view();
    let mut exclude: Vec<String> = Vec::new();
    let mut only: Vec<String> = Vec::new();
    let mut i: usize = 0;
    while i < items.len()
        invariant
            i <= items.len(),
            exclude.deep_view() == group_excludes(iv.take(i as int)),
            only.deep_view() == group_onlys(iv.take(i as int)),
        decreases items.len() - i,
    {
        let ghost pe = exclude.deep_view();
        let ghost po = only.deep_view();
        let t = trim_chars(items[i].as_str());
        let tlen = t.as_str().unicode_len();
        proof {
            assert(iv.take(i as int + 1).drop_last() =~= iv.take(i as int));
            assert(iv.take(i as int + 1).last() == iv[i as int]);
            assert(t@ == trim_spec(iv[i as int]));
        }
        if tlen > 0 && t.as_str().get_char(0) == '-' {
            exclude.push(substring_string(t.as_str(), 1, tlen));
            proof {
                assert(trim_spec(iv[i as int]).drop_first() =~= t@.subrange(1, tlen as int));
                assert(exclude.deep_view() =~= pe.push(trim_spec(iv[i as int]).drop_first()));
            }
        } else {
            only.push(t);
            proof {
                assert(only.deep_view() =~= po.push(trim_spec(iv[i as int])));
            }
        }
        i = i + 1;
    }
    proof {
        assert(iv.take(iv.len() as int) =~= iv);
    }
    Match { exclude, only }
}

} // verus!

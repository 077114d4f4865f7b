//! Matching one wildcard segment against one entry name.
//!
//! A segment with `k` stars splits into `k + 1` literal pieces. A name
//! matches when it can be written as the pieces in order with one captured
//! substring in place of each star. The matcher returns the greedy
//! decomposition: among all decompositions, the one whose captures are
//! lexicographically greatest by length, first capture first.
use vstd::prelude::*;
use crate::strutil::{starts_with_at, str_eq, substring_string, prepend_string};

verus! {

/// `name` is exactly the pieces in order, with `caps[j]` standing where the
/// `j`-th star stood: `pieces[0] + caps[0] + pieces[1] + ... + pieces[k]`.
pub open spec fn is_decomposition(
    pieces: Seq<Seq<char>>,
    caps: Seq<Seq<char>>,
    name: Seq<char>,
) -> bool
    decreases pieces.len(),
{
    if pieces.len() == 0 {
        false
    } else if pieces.len() == 1 {
        caps.len() == 0 && name == pieces[0]
    } else {
        let p0 = pieces[0].len() as int;
        let c0 = caps[0].len() as int;
        &&& caps.len() == pieces.len() - 1
        &&& p0 + c0 <= name.len()
        &&& name.take(p0) == pieces[0]
        &&& name.subrange(p0, p0 + c0) == caps[0]
        &&& is_decomposition(pieces.drop_first(), caps.drop_first(), name.skip(p0 + c0))
    }
}

/// Capture lists ordered by length, first capture first: the order in which
/// a greedy left-to-right matcher prefers decompositions.
pub open spec fn caps_le(a: Seq<Seq<char>>, b: Seq<Seq<char>>) -> bool
    decreases a.len(),
{
    &&& a.len() == b.len()
    &&& (a.len() == 0 || a[0].len() < b[0].len() || (a[0] == b[0] && caps_le(
        a.drop_first(),
        b.drop_first(),
    )))
}

/// The pattern still to be matched from piece `i` on, with a star in front:
/// an empty piece followed by the remaining pieces.
pub open spec fn tail_pattern(pieces: Seq<Seq<char>>, i: int) -> Seq<Seq<char>> {
    seq![Seq::<char>::empty()] + pieces.skip(i)
}

/// The greedy decomposition of `name` over `pieces`: the decomposition that
/// dominates every other, if one exists.
pub open spec fn greedy_caps(pieces: Seq<Seq<char>>, name: Seq<char>) -> Option<Seq<Seq<char>>> {
    if exists|caps: Seq<Seq<char>>|
        is_decomposition(pieces, caps, name) && (forall|o: Seq<Seq<char>>|
            is_decomposition(pieces, o, name) ==> caps_le(o, caps)) {
        Some(
            choose|caps: Seq<Seq<char>>|
                is_decomposition(pieces, caps, name) && (forall|o: Seq<Seq<char>>|
                    is_decomposition(pieces, o, name) ==> caps_le(o, caps)),
        )
    } else {
        None
    }
}

/// A greedy decomposition is a decomposition, with one capture per star.
pub proof fn lemma_greedy_is_decomposition(pieces: Seq<Seq<char>>, name: Seq<char>, cs: Seq<Seq<char>>)
    requires
        greedy_caps(pieces, name) == Some(cs),
    ensures
        is_decomposition(pieces, cs, name),
        cs.len() == pieces.len() - 1,
{
    assert(is_decomposition(pieces, cs, name));
    if pieces.len() == 1 {
        assert(cs.len() == 0);
    }
}

proof fn lemma_caps_le_antisym(a: Seq<Seq<char>>, b: Seq<Seq<char>>)
    requires
        caps_le(a, b),
        caps_le(b, a),
    ensures
        a == b,
    decreases a.len(),
{
    if a.len() > 0 {
        assert(a[0] == b[0]);
        lemma_caps_le_antisym(a.drop_first(), b.drop_first());
        assert forall|j: int| 0 <= j < a.len() implies a[j] == b[j] by {
            if j > 0 {
                assert(a.drop_first()[j - 1] == b.drop_first()[j - 1]);
            }
        }
        assert(a =~= b);
    } else {
        assert(a =~= b);
    }
}

/// When the matcher has found a decomposition that dominates every other,
/// it is the greedy one.
proof fn lemma_greedy_some(pieces: Seq<Seq<char>>, name: Seq<char>, caps: Seq<Seq<char>>)
    requires
        is_decomposition(pieces, caps, name),
        forall|o: Seq<Seq<char>>| is_decomposition(pieces, o, name) ==> caps_le(o, caps),
    ensures
        greedy_caps(pieces, name) == Some(caps),
{
    let m = choose|m: Seq<Seq<char>>|
        is_decomposition(pieces, m, name) && (forall|o: Seq<Seq<char>>|
            is_decomposition(pieces, o, name) ==> caps_le(o, m));
    assert(is_decomposition(pieces, m, name) && (forall|o: Seq<Seq<char>>|
        is_decomposition(pieces, o, name) ==> caps_le(o, m)));
    lemma_caps_le_antisym(m, caps);
}

proof fn lemma_greedy_none(pieces: Seq<Seq<char>>, name: Seq<char>)
    requires
        forall|o: Seq<Seq<char>>| !is_decomposition(pieces, o, name),
    ensures
        greedy_caps(pieces, name) is None,
{
}

/// Anchoring a piece: a pattern that starts with the literal piece `p`
/// matches `rem` exactly when `p` is a prefix of `rem` and the star-led rest
/// matches what follows the prefix.
proof fn lemma_shift(p: Seq<char>, q: Seq<Seq<char>>, caps: Seq<Seq<char>>, rem: Seq<char>)
    requires
        q.len() >= 1,
    ensures
        is_decomposition(seq![p] + q, caps, rem) <==> {
            &&& p.len() <= rem.len()
            &&& rem.take(p.len() as int) == p
            &&& is_decomposition(
                seq![Seq::<char>::empty()] + q,
                caps,
                rem.skip(p.len() as int),
            )
        },
{
    let pl = p.len() as int;
    let lhs_pieces = seq![p] + q;
    let rhs_pieces = seq![Seq::<char>::empty()] + q;
    assert(lhs_pieces.len() == q.len() + 1);
    assert(rhs_pieces.len() == q.len() + 1);
    assert(lhs_pieces[0] == p);
    assert(rhs_pieces[0] == Seq::<char>::empty());
    assert(lhs_pieces.drop_first() =~= q);
    assert(rhs_pieces.drop_first() =~= q);
    if is_decomposition(lhs_pieces, caps, rem) {
        let c0 = caps[0].len() as int;
        let rem2 = rem.skip(pl);
        assert(rem2.take(0) =~= Seq::<char>::empty());
        assert(rem2.subrange(0, c0) =~= rem.subrange(pl, pl + c0));
        assert(rem2.skip(c0) =~= rem.skip(pl + c0));
        assert(is_decomposition(rhs_pieces, caps, rem2));
    }
    if {
        &&& p.len() <= rem.len()
        &&& rem.take(pl) == p
        &&& is_decomposition(rhs_pieces, caps, rem.skip(pl))
    } {
        let c0 = caps[0].len() as int;
        let rem2 = rem.skip(pl);
        assert(rem2.subrange(0, c0) =~= rem.subrange(pl, pl + c0));
        assert(rem2.skip(c0) =~= rem.skip(pl + c0));
        assert(is_decomposition(lhs_pieces, caps, rem));
    }
}

/// Any decomposition of a star-led pattern fits in the name: the first
/// capture and the first literal piece lie inside it.
proof fn lemma_head_bound(q: Seq<Seq<char>>, caps: Seq<Seq<char>>, rem: Seq<char>)
    requires
        q.len() >= 1,
        is_decomposition(seq![Seq::<char>::empty()] + q, caps, rem),
    ensures
        caps.len() == q.len(),
        caps[0].len() + q[0].len() <= rem.len(),
{
    let pieces = seq![Seq::<char>::empty()] + q;
    assert(pieces.drop_first() =~= q);
    let c0 = caps[0].len() as int;
    assert(is_decomposition(q, caps.drop_first(), rem.skip(c0)));
    if q.len() == 1 {
        assert(rem.skip(c0) == q[0]);
    } else {
        assert(q[0].len() + caps.drop_first()[0].len() <= rem.skip(c0).len());
    }
}

/// Matches pieces `i ..` of the pattern, star first, against the characters
/// of `name` from `pos` on, and returns the greedy captures.
fn match_from(pieces: &Vec<String>, i: usize, name: &str, pos: usize) -> (r: Option<Vec<String>>)
    requires
        1 <= i < pieces@.len(),
        pos <= name@.len(),
    ensures
        match r {
            Some(caps) => {
                &&& is_decomposition(
                    tail_pattern(pieces.deep_view(), i as int),
                    caps.deep_view(),
                    name@.skip(pos as int),
                )
                &&& forall|o: Seq<Seq<char>>|
                    is_decomposition(
                        tail_pattern(pieces.deep_view(), i as int),
                        o,
                        name@.skip(pos as int),
                    ) ==> caps_le(o, caps.deep_view())
            },
            None => forall|o: Seq<Seq<char>>|
                !is_decomposition(
                    tail_pattern(pieces.deep_view(), i as int),
                    o,
                    name@.skip(pos as int),
                ),
        },
    decreases pieces@.len() - i,
{
    let ghost pat = tail_pattern(pieces.deep_view(), i as int);
    let ghost q = pieces.deep_view().skip(i as int);
    let ghost rem = name@.skip(pos as int);
    proof {
        assert(q.len() >= 1);
        assert(q[0] == pieces.deep_view()[i as int]);
    }
    let name_len = name.unicode_len();
    let lp = pieces[i].as_str().unicode_len();
    let l_rem = name_len - pos;
    let ghost pi = pieces.deep_view()[i as int];

    if i == pieces.len() - 1 {
        // The last piece: it is anchored at the end, so the capture length
        // is forced.
        if lp > l_rem {
            proof {
                assert forall|o: Seq<Seq<char>>| !is_decomposition(pat, o, rem) by {
                    if is_decomposition(pat, o, rem) {
                        lemma_head_bound(q, o, rem);
                    }
                }
            }
            return None;
        }
        let cl = l_rem - lp;
        if starts_with_at(name, pieces[i].as_str(), pos + cl) {
            let cap = substring_string(name, pos, pos + cl);
            let mut caps: Vec<String> = Vec::new();
            caps.push(cap);
            proof {
                assert(q =~= seq![pi]);
                assert(pat.len() == 2);
                assert(pat[0] =~= Seq::<char>::empty());
                assert(rem.len() == l_rem);
                assert(rem.subrange(0, cl as int) =~= name@.subrange(pos as int, pos + cl as int));
                assert(caps.deep_view() =~= seq![name@.subrange(pos as int, pos + cl as int)]);
                assert(rem.take(0) =~= Seq::<char>::empty());
                assert(pat.drop_first() =~= seq![pi]);
                assert(caps.deep_view().drop_first() =~= Seq::<Seq<char>>::empty());
                assert(rem.skip(cl as int) =~= name@.subrange(pos + cl, pos + cl + lp));
                assert(rem.skip(cl as int) == pi);
                assert(is_decomposition(seq![pi], Seq::<Seq<char>>::empty(), rem.skip(cl as int)));
                assert(is_decomposition(pat, caps.deep_view(), rem));
                assert forall|o: Seq<Seq<char>>|
                    is_decomposition(pat, o, rem) implies caps_le(o, caps.deep_view()) by {
                    assert(o.len() == 1);
                    let c0 = o[0].len() as int;
                    assert(pat.drop_first() =~= seq![pi]);
                    assert(is_decomposition(seq![pi], o.drop_first(), rem.skip(c0)));
                    assert(rem.skip(c0) == pi);
                    assert(c0 == cl);
                    assert(o[0] == rem.subrange(0, c0));
                    assert(o[0] == caps.deep_view()[0]);
                    assert(o.drop_first() =~= Seq::<Seq<char>>::empty());
                    assert(caps.deep_view().drop_first() =~= Seq::<Seq<char>>::empty());
                    assert(caps_le(o.drop_first(), caps.deep_view().drop_first()));
                }
            }
            return Some(caps);
        } else {
            proof {
                assert forall|o: Seq<Seq<char>>| !is_decomposition(pat, o, rem) by {
                    if is_decomposition(pat, o, rem) {
                        lemma_head_bound(q, o, rem);
                        let c0 = o[0].len() as int;
                        assert(pat.drop_first() =~= seq![pi]);
                        assert(is_decomposition(seq![pi], o.drop_first(), rem.skip(c0)));
                        assert(rem.skip(c0) == pi);
                        assert(c0 == cl);
                        assert(rem.skip(cl as int) =~= name@.subrange(pos + cl, pos + cl + lp));
                    }
                }
            }
            return None;
        }
    }
    // A middle piece: try capture lengths from the longest down.
    let ghost qq = pieces.deep_view().skip(i as int + 1);
    proof {
        assert(pi == pieces@[i as int]@);
        assert(q.drop_first() =~= qq);
        assert(q[0] == pi);
        assert(pat[0] =~= Seq::<char>::empty());
        assert(pat.drop_first() =~= q);
        assert(rem.len() == l_rem);
    }
    if lp > l_rem {
        proof {
            assert forall|o: Seq<Seq<char>>| !is_decomposition(pat, o, rem) by {
                if is_decomposition(pat, o, rem) {
                    lemma_head_bound(q, o, rem);
                }
            }
        }
        return None;
    }
    let max_l = l_rem - lp;
    let mut l = max_l;
    proof {
        assert forall|o: Seq<Seq<char>>|
            is_decomposition(pat, o, rem) implies (#[trigger] o[0]).len() <= l by {
            lemma_head_bound(q, o, rem);
        }
    }
    loop
        invariant_except_break
            l <= max_l,
            forall|o: Seq<Seq<char>>|
                is_decomposition(pat, o, rem) ==> (#[trigger] o[0]).len() <= l,
        invariant
            1 <= i,
            i + 1 < pieces@.len() <= usize::MAX,
            pos <= name@.len(),
            name_len == name@.len(),
            pi == pieces.deep_view()[i as int],
            pi == pieces@[i as int]@,
            lp == pi.len(),
            l_rem == name_len - pos,
            lp <= l_rem,
            max_l == l_rem - lp,
            pat == tail_pattern(pieces.deep_view(), i as int),
            q == pieces.deep_view().skip(i as int),
            qq == pieces.deep_view().skip(i as int + 1),
            rem == name@.skip(pos as int),
            rem.len() == l_rem,
            pat[0] == Seq::<char>::empty(),
            pat.drop_first() == q,
            q.len() >= 1,
            q[0] == pi,
            q.drop_first() == qq,
        ensures
            forall|o: Seq<Seq<char>>| !is_decomposition(pat, o, rem),
        decreases l,
    {
        if starts_with_at(name, pieces[i].as_str(), pos + l) {
            let pos2 = pos + l + lp;
            let ghost rem2 = name@.skip(pos2 as int);
            proof {
                assert(rem.skip(l as int).take(lp as int) =~= name@.subrange(
                    pos + l,
                    pos + l + lp,
                ));
                assert(rem.skip(l as int).skip(lp as int) =~= rem2);
            }
            let sub = match_from(pieces, i + 1, name, pos2);
            match sub {
                Some(caps2) => {
                    let cap = substring_string(name, pos, pos + l);
                    let result = prepend_string(cap, &caps2);
                    proof {
                        let rv = result.deep_view();
                        let cv = caps2.deep_view();
                        assert(rem.subrange(0, l as int) =~= name@.subrange(
                            pos as int,
                            pos + l as int,
                        ));
                        assert(rv =~= seq![name@.subrange(pos as int, pos + l as int)] + cv);
                        assert(tail_pattern(pieces.deep_view(), i as int + 1) == seq![
                            Seq::<char>::empty(),
                        ] + qq);
                        // The sub-match together with the anchored piece gives
                        // a decomposition of the remainder.
                        lemma_shift(pi, qq, cv, rem.skip(l as int));
                        assert(is_decomposition(seq![pi] + qq, cv, rem.skip(l as int)));
                        assert(seq![pi] + qq =~= q);
                        assert(is_decomposition(q, cv, rem.skip(l as int)));
                        assert(rv.len() == q.len());
                        assert(rem.take(0) =~= Seq::<char>::empty());
                        assert(rv[0] == rem.subrange(0, l as int));
                        assert(rv.drop_first() =~= cv);
                        assert(is_decomposition(pat, rv, rem));
                        assert forall|o: Seq<Seq<char>>|
                            is_decomposition(pat, o, rem) implies caps_le(o, rv) by {
                            assert(o[0].len() <= l);
                            let c0 = o[0].len() as int;
                            assert(o[0] == rem.subrange(0, c0));
                            assert(is_decomposition(pat.drop_first(), o.drop_first(), rem.skip(
                                c0,
                            )));
                            assert(is_decomposition(q, o.drop_first(), rem.skip(c0)));
                            if o[0].len() == l {
                                assert(o[0] == rv[0]);
                                lemma_shift(pi, qq, o.drop_first(), rem.skip(c0));
                                assert(rem.skip(c0).skip(lp as int) =~= rem2);
                                assert(is_decomposition(
                                    tail_pattern(pieces.deep_view(), i as int + 1),
                                    o.drop_first(),
                                    rem2,
                                ));
                                assert(caps_le(o.drop_first(), cv));
                                assert(caps_le(o, rv));
                            } else {
                                assert(o[0].len() < rv[0].len());
                            }
                        }
                    }
                    return Some(result);
                },
                None => {
                    proof {
                        assert forall|o: Seq<Seq<char>>|
                            is_decomposition(pat, o, rem) implies (#[trigger] o[0]).len() != l by {
                            if o[0].len() == l {
                                let c0 = o[0].len() as int;
                                assert(is_decomposition(pat.drop_first(), o.drop_first(),
                                    rem.skip(c0)));
                                assert(is_decomposition(q, o.drop_first(), rem.skip(c0)));
                                assert(seq![pi] + qq =~= q);
                                lemma_shift(pi, qq, o.drop_first(), rem.skip(c0));
                                assert(tail_pattern(pieces.deep_view(), i as int + 1) == seq![
                                    Seq::<char>::empty(),
                                ] + qq);
                                assert(rem.skip(c0).skip(lp as int) =~= rem2);
                                assert(is_decomposition(
                                    tail_pattern(pieces.deep_view(), i as int + 1),
                                    o.drop_first(),
                                    rem2,
                                ));
                            }
                        }
                    }
                },
            }
        } else {
            proof {
                assert forall|o: Seq<Seq<char>>|
                    is_decomposition(pat, o, rem) implies (#[trigger] o[0]).len() != l by {
                    if o[0].len() == l {
                        let c0 = o[0].len() as int;
                        assert(is_decomposition(pat.drop_first(), o.drop_first(), rem.skip(c0)));
                        assert(is_decomposition(q, o.drop_first(), rem.skip(c0)));
                        assert(seq![pi] + qq =~= q);
                        lemma_shift(pi, qq, o.drop_first(), rem.skip(c0));
                        assert(rem.skip(c0).take(lp as int) =~= name@.subrange(
                            pos + l,
                            pos + l + lp,
                        ));
                    }
                }
            }
        }
        if l == 0 {
            proof {
                assert forall|o: Seq<Seq<char>>| !is_decomposition(pat, o, rem) by {
                    if is_decomposition(pat, o, rem) {
                        assert(o[0].len() <= 0);
                        assert(o[0].len() != 0);
                    }
                }
            }
            break;
        }
        l = l - 1;
    }
    None
}

/// Matches one wildcard segment, given as its star-separated literal pieces,
/// against one entry name, and returns the greedy captures, one per star.
pub fn wildcard_captures(pieces: &Vec<String>, name: &str) -> (r: Option<Vec<String>>)
    requires
        pieces@.len() >= 1,
    ensures
        match r {
            Some(caps) => greedy_caps(pieces.deep_view(), name@) == Some(caps.deep_view()),
            None => greedy_caps(pieces.deep_view(), name@) is None,
        },
{
    let ghost pv = pieces.deep_view();
    if pieces.len() == 1 {
        if str_eq(pieces[0].as_str(), name) {
            let caps: Vec<String> = Vec::new();
            proof {
                assert(is_decomposition(pv, caps.deep_view(), name@));
                assert forall|o: Seq<Seq<char>>|
                    is_decomposition(pv, o, name@) implies caps_le(o, caps.deep_view()) by {
                    assert(o.len() == 0);
                    assert(o =~= caps.deep_view());
                }
                lemma_greedy_some(pv, name@, caps.deep_view());
            }
            return Some(caps);
        } else {
            proof {
                assert forall|o: Seq<Seq<char>>| !is_decomposition(pv, o, name@) by {}
                lemma_greedy_none(pv, name@);
            }
            return None;
        }
    }
    let ghost p0 = pv[0];
    let ghost qq = pv.skip(1);
    proof {
        assert(seq![p0] + qq =~= pv);
    }
    if !starts_with_at(name, pieces[0].as_str(), 0) {
        proof {
            assert forall|o: Seq<Seq<char>>| !is_decomposition(pv, o, name@) by {
                if is_decomposition(pv, o, name@) {
                    lemma_shift(p0, qq, o, name@);
                    assert(name@.skip(0) =~= name@);
                    assert(name@.take(p0.len() as int) == p0);
                }
            }
            lemma_greedy_none(pv, name@);
        }
        return None;
    }
    let lp0 = pieces[0].as_str().unicode_len();
    let r = match_from(pieces, 1, name, lp0);
    proof {
        assert(name@.skip(0) =~= name@);
        assert(tail_pattern(pv, 1) == seq![Seq::<char>::empty()] + qq);
        assert forall|o: Seq<Seq<char>>|
            is_decomposition(pv, o, name@) <==> is_decomposition(
                tail_pattern(pv, 1),
                o,
                name@.skip(lp0 as int),
            ) by {
            lemma_shift(p0, qq, o, name@);
            assert(name@.take(p0.len() as int) =~= name@.subrange(0, lp0 as int));
        }
    }
    match r {
        Some(caps) => {
            proof {
                lemma_greedy_some(pv, name@, caps.deep_view());
            }
            Some(caps)
        },
        None => {
            proof {
                lemma_greedy_none(pv, name@);
            }
            None
        },
    }
}

} // verus!

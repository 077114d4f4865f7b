//! Expanding a destination template against the captures of one match.
use vstd::prelude::*;
use crate::strutil::{push_string, str_eq, substring_string};

verus! {

/// A decimal digit.
pub open spec fn is_digit(c: char) -> bool {
    '0' <= c && c <= '9'
}

/// A non-empty run of decimal digits.
pub open spec fn all_digits(s: Seq<char>) -> bool {
    s.len() > 0 && forall|i: int| 0 <= i < s.len() ==> is_digit(#[trigger] s[i])
}

/// The number the digits write, most significant first.
pub open spec fn digits_val(s: Seq<char>) -> int
    decreases s.len(),
{
    if s.len() == 0 {
        0
    } else {
        digits_val(s.drop_last()) * 10 + (s.last() as int - '0' as int)
    }
}

proof fn lemma_digits_val_nonneg(s: Seq<char>)
    requires
        forall|i: int| 0 <= i < s.len() ==> is_digit(#[trigger] s[i]),
    ensures
        digits_val(s) >= 0,
    decreases s.len(),
{
    if s.len() > 0 {
        lemma_digits_val_nonneg(s.drop_last());
        assert(digits_val(s.drop_last()) * 10 >= 0) by (nonlinear_arith)
            requires
                digits_val(s.drop_last()) >= 0,
        ;
    }
}

proof fn lemma_digits_val_monotone(s: Seq<char>, i: int)
    requires
        0 <= i <= s.len(),
        forall|j: int| 0 <= j < s.len() ==> is_digit(#[trigger] s[j]),
    ensures
        digits_val(s) >= digits_val(s.take(i)),
    decreases s.len() - i,
{
    if i < s.len() {
        lemma_digits_val_monotone(s, i + 1);
        let p = s.take(i + 1);
        assert(p.drop_last() =~= s.take(i));
        lemma_digits_val_nonneg(s.take(i));
        assert(digits_val(s.take(i)) * 10 >= digits_val(s.take(i))) by (nonlinear_arith)
            requires
                digits_val(s.take(i)) >= 0,
        ;
        assert(digits_val(p) >= digits_val(s.take(i)));
    } else {
        assert(s.take(i) =~= s);
    }
}

/// Parses a run of digits as a number; nothing when the text is not all
/// digits or the number does not fit the machine.
#[verifier::loop_isolation(false)]
fn parse_index(s: &str) -> (r: Option<usize>)
    ensures
        match r {
            Some(v) => all_digits(s@) && digits_val(s@) == v,
            None => !all_digits(s@) || digits_val(s@) > usize::MAX,
        },
{
    let len = s.unicode_len();
    if len == 0 {
        return None;
    }
    let mut acc: usize = 0;
    let mut i: usize = 0;
    while i < len
        invariant
            i <= len,
            forall|j: int| 0 <= j < i ==> is_digit(#[trigger] s@[j]),
            acc == digits_val(s@.take(i as int)),
        decreases len - i,
    {
        let c = s.get_char(i);
        if !('0' <= c && c <= '9') {
            return None;
        }
        let d = (c as u32 - '0' as u32) as usize;
        proof {
            assert(s@.take(i as int + 1).drop_last() =~= s@.take(i as int));
            assert(s@.take(i as int + 1).last() == s@[i as int]);
        }
        if acc > (usize::MAX - d) / 10 {
            proof {
                assert(acc * 10 + d > usize::MAX) by (nonlinear_arith)
                    requires
                        acc > (usize::MAX - d) / 10,
                        d <= 9,
                ;
                if all_digits(s@) {
                    lemma_digits_val_monotone(s@, i as int + 1);
                }
            }
            return None;
        }
        proof {
            assert(acc * 10 + d <= usize::MAX) by (nonlinear_arith)
                requires
                    acc <= (usize::MAX - d) / 10,
                    d <= 9,
            ;
        }
        acc = acc * 10 + d;
        i = i + 1;
    }
    proof {
        assert(s@.take(len as int) =~= s@);
    }
    Some(acc)
}

/// Expansion failures: a part that cannot stand in a destination, a
/// malformed capture reference, or a reference past the captures.
#[derive(Debug, PartialEq, Eq, Structural)]
pub enum ExpandError {
    InvalidComponent,
    BadCaptureRef,
    IndexOutOfRange,
}

/// What the template parts expand to over the captures, part by part:
/// empty parts vanish, `$N` becomes the `N`-th capture, one-based, and
/// anything else is kept verbatim.
pub open spec fn expand_parts_spec(parts: Seq<Seq<char>>, caps: Seq<Seq<char>>) -> Result<
    Seq<Seq<char>>,
    ExpandError,
>
    decreases parts.len(),
{
    if parts.len() == 0 {
        Ok(Seq::empty())
    } else {
        match expand_parts_spec(parts.drop_last(), caps) {
            Err(e) => Err(e),
            Ok(pre) => {
                let p = parts.last();
                if p.len() == 0 {
                    Ok(pre)
                } else if p == "."@ || p == ".."@ {
                    Err(ExpandError::InvalidComponent)
                } else if p[0] == '$' {
                    let d = p.drop_first();
                    if !all_digits(d) || digits_val(d) > usize::MAX {
                        Err(ExpandError::BadCaptureRef)
                    } else if 1 <= digits_val(d) <= caps.len() {
                        Ok(pre.push(caps[digits_val(d) - 1]))
                    } else {
                        Err(ExpandError::IndexOutOfRange)
                    }
                } else {
                    Ok(pre.push(p))
                }
            },
        }
    }
}

/// The whole expansion: a leading volume-prefix part is invalid (a
/// destination template cannot change drives), then the parts expand in
/// order.
pub open spec fn expand_spec(parts: Seq<Seq<char>>, caps: Seq<Seq<char>>) -> Result<
    Seq<Seq<char>>,
    ExpandError,
> {
    if parts.len() > 0 && parts[0].len() > 0 && parts[0].last() == ':' {
        Err(ExpandError::InvalidComponent)
    } else {
        expand_parts_spec(parts, caps)
    }
}

/// An expansion error in a prefix of the parts is the error of the whole.
proof fn lemma_expand_err(parts: Seq<Seq<char>>, caps: Seq<Seq<char>>, i: int)
    requires
        0 <= i <= parts.len(),
        expand_parts_spec(parts.take(i), caps) is Err,
    ensures
        expand_parts_spec(parts, caps) == expand_parts_spec(parts.take(i), caps),
    decreases parts.len() - i,
{
    if i < parts.len() {
        assert(parts.take(i + 1).drop_last() =~= parts.take(i));
        lemma_expand_err(parts, caps, i + 1);
    } else {
        assert(parts.take(i) =~= parts);
    }
}

/// Expands the split destination template against the captures of one
/// match: literal parts verbatim, `$N` parts as the `N`-th capture,
/// one-based; a reference past the captures fails for this match alone.
#[verifier::loop_isolation(false)]
pub fn path_from_matches(format: &Vec<String>, matches: &Vec<String>) -> (r: Result<
    Vec<String>,
    ExpandError,
>)
    ensures
        match r {
            Ok(v) => expand_spec(format.deep_view(), matches.deep_view()) == Ok::<
                Seq<Seq<char>>,
                ExpandError,
            >(v.deep_view()),
            Err(e) => expand_spec(format.deep_view(), matches.deep_view()) == Err::<
                Seq<Seq<char>>,
                ExpandError,
            >(e),
        },
{
    let ghost fv = format.deep_view();
    let ghost cv = matches.deep_view();
    if format.len() > 0 {
        let p0len = format[0].as_str().unicode_len();
        if p0len > 0 && format[0].as_str().get_char(p0len - 1) == ':' {
            proof {
                assert(fv[0] == format@[0]@);
            }
            return Err(ExpandError::InvalidComponent);
        }
    }
    let mut out: Vec<String> = Vec::new();
    let mut i: usize = 0;
    proof {
        assert(fv.take(0) =~= Seq::<Seq<char>>::empty());
        assert(out.deep_view() =~= Seq::<Seq<char>>::empty());
    }
    while i < format.len()
        invariant
            i <= format@.len(),
            expand_parts_spec(fv.take(i as int), cv) == Ok::<Seq<Seq<char>>, ExpandError>(
                out.deep_view(),
            ),
        decreases format@.len() - i,
    {
        let ghost prev = out.deep_view();
        proof {
            assert(fv.take(i as int + 1).drop_last() =~= fv.take(i as int));
            assert(fv.take(i as int + 1).last() == fv[i as int]);
        }
        let p = &format[i];
        let plen = p.as_str().unicode_len();
        if plen == 0 {
            i = i + 1;
            continue ;
        }
        if str_eq(p.as_str(), ".") || str_eq(p.as_str(), "..") {
            proof {
                assert(expand_parts_spec(fv.take(i as int + 1), cv) == Err::<Seq<Seq<char>>,
                    ExpandError>(ExpandError::InvalidComponent));
                lemma_expand_err(fv, cv, i as int + 1);
            }
            return Err(ExpandError::InvalidComponent);
        }
        if p.as_str().get_char(0) == '$' {
            let digits = substring_string(p.as_str(), 1, plen);
            proof {
                assert(digits@ =~= fv[i as int].drop_first());
            }
            match parse_index(digits.as_str()) {
                None => {
                    proof {
                        assert(expand_parts_spec(fv.take(i as int + 1), cv) == Err::<Seq<
                            Seq<char>,
                        >, ExpandError>(ExpandError::BadCaptureRef));
                        lemma_expand_err(fv, cv, i as int + 1);
                    }
                    return Err(ExpandError::BadCaptureRef);
                },
                Some(v) => {
                    if 1 <= v && v <= matches.len() {
                        let nxt = push_string(&out, matches[v - 1].clone());
                        out = nxt;
                        proof {
                            assert(out.deep_view() =~= prev.push(cv[v - 1]));
                        }
                    } else {
                        proof {
                            assert(expand_parts_spec(fv.take(i as int + 1), cv) == Err::<Seq<
                                Seq<char>,
                            >, ExpandError>(ExpandError::IndexOutOfRange));
                            lemma_expand_err(fv, cv, i as int + 1);
                        }
                        return Err(ExpandError::IndexOutOfRange);
                    }
                },
            }
        } else {
            let nxt = push_string(&out, p.clone());
            out = nxt;
            proof {
                assert(out.deep_view() =~= prev.push(fv[i as int]));
            }
        }
        i = i + 1;
    }
    proof {
        assert(fv.take(format@.len() as int) =~= fv);
    }
    Ok(out)
}

} // verus!

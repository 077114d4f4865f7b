//! Resolving the destination root: choosing between the process's own
//! drive and a mounted volume found by label, and building the initial
//! destination path. What only the operating system can answer — the
//! current directory, the mount table, the host name — is handed in as
//! plain strings.
use vstd::prelude::*;
use crate::pattern::{is_sep, split_seps, split_seps_spec};
use crate::strutil::str_eq;

verus! {

/// One mounted volume: what it is mounted from and where.
pub struct Mount {
    pub from: String,
    pub on: String,
}

/// The mathematical form of a mount.
pub struct MountModel {
    pub from: Seq<char>,
    pub on: Seq<char>,
}

impl DeepView for Mount {
    type V = MountModel;

    open spec fn deep_view(&self) -> MountModel {
        MountModel { from: self.from@, on: self.on@ }
    }
}

/// The drive a path starts from: the root when the path begins with a
/// separator, the volume prefix when its first part ends in a colon,
/// nothing when the path is relative.
pub open spec fn current_drive_spec(s: Seq<char>) -> Option<Seq<char>> {
    if s.len() > 0 && is_sep(s[0]) {
        Some("/"@)
    } else if split_seps_spec(s)[0].len() > 0 && split_seps_spec(s)[0].last() == ':' {
        Some(split_seps_spec(s)[0])
    } else {
        None
    }
}

/// The root prefix of the directory the process runs in.
pub fn get_current_drive(cwd: &str) -> (r: Option<String>)
    ensures
        match r {
            Some(d) => current_drive_spec(cwd@) == Some(d@),
            None => current_drive_spec(cwd@) is None,
        },
{
    let len = cwd.unicode_len();
    if len > 0 {
        let c = cwd.get_char(0);
        if c == '/' || c == '\\' {
            return Some(String::from_str("/"));
        }
    }
    let parts = split_seps(cwd);
    let p0len = parts[0].as_str().unicode_len();
    if p0len > 0 && parts[0].as_str().get_char(p0len - 1) == ':' {
        proof {
            assert(parts.deep_view()[0] == split_seps_spec(cwd@)[0]);
        }
        Some(parts[0].clone())
    } else {
        None
    }
}

/// The mount point of the first mount whose source matches the label.
pub open spec fn drive_by_label_spec(ms: Seq<MountModel>, label: Seq<char>) -> Option<Seq<char>>
    decreases ms.len(),
{
    if ms.len() == 0 {
        None
    } else if ms[0].from == label {
        Some(ms[0].on)
    } else {
        drive_by_label_spec(ms.drop_first(), label)
    }
}

proof fn lemma_by_label_prefix(ms: Seq<MountModel>, i: int, label: Seq<char>)
    requires
        0 <= i <= ms.len(),
        forall|j: int| 0 <= j < i ==> (#[trigger] ms[j]).from != label,
    ensures
        drive_by_label_spec(ms, label) == drive_by_label_spec(ms.skip(i), label),
    decreases i,
{
    if i > 0 {
        assert(ms.drop_first() =~= ms.skip(1));
        lemma_by_label_prefix(ms.skip(1), i - 1, label);
        assert(ms.skip(1).skip(i - 1) =~= ms.skip(i));
    } else {
        assert(ms.skip(0) =~= ms);
    }
}

/// Looks the label up in the mount table and returns where that volume is
/// mounted.
#[verifier::loop_isolation(false)]
pub fn get_drive_by_label(label: &str, mounts: &Vec<Mount>) -> (r: Option<String>)
    ensures
        match r {
            Some(d) => drive_by_label_spec(mounts.deep_view(), label@) == Some(d@),
            None => drive_by_label_spec(mounts.deep_view(), label@) is None,
        },
{
    let ghost mv = mounts.deep_view();
    let mut i: usize = 0;
    while i < mounts.len()
        invariant
            i <= mounts@.len(),
            forall|j: int| 0 <= j < i ==> (#[trigger] mv[j]).from != label@,
        decreases mounts@.len() - i,
    {
        if str_eq(mounts[i].from.as_str(), label) {
            proof {
                lemma_by_label_prefix(mv, i as int, label@);
                assert(mv.skip(i as int)[0] == mv[i as int]);
            }
            return Some(mounts[i].on.clone());
        }
        i = i + 1;
    }
    proof {
        lemma_by_label_prefix(mv, mv.len() as int, label@);
    }
    None
}

/// The destination root could not be resolved: fatal for the whole run.
#[derive(Debug, PartialEq, Eq, Structural)]
pub enum DriveError {
    CurrentUndetectable,
    LabelNotFound,
}

/// Resolves the configured destination label to a drive root: the sentinel
/// label names the drive the process runs from, anything else is looked up
/// in the mount table. Failure is fatal for the run.
pub fn get_drive(label: &str, cwd: Option<&str>, mounts: &Vec<Mount>) -> (r: Result<
    String,
    DriveError,
>)
    ensures
        label@ == "$CURRENTDRIVE"@ ==> match r {
            Ok(d) => cwd is Some && current_drive_spec(cwd->0@) == Some(d@),
            Err(e) => e == DriveError::CurrentUndetectable && (cwd is None || current_drive_spec(
                cwd->0@,
            ) is None),
        },
        label@ != "$CURRENTDRIVE"@ ==> match r {
            Ok(d) => drive_by_label_spec(mounts.deep_view(), label@) == Some(d@),
            Err(e) => e == DriveError::LabelNotFound && drive_by_label_spec(
                mounts.deep_view(),
                label@,
            ) is None,
        },
{
    if str_eq(label, "$CURRENTDRIVE") {
        match cwd {
            Some(c) => match get_current_drive(c) {
                Some(d) => Ok(d),
                None => Err(DriveError::CurrentUndetectable),
            },
            None => Err(DriveError::CurrentUndetectable),
        }
    } else {
        match get_drive_by_label(label, mounts) {
            Some(d) => Ok(d),
            None => Err(DriveError::LabelNotFound),
        }
    }
}

/// The format's parts with the host name put in: empty parts vanish,
/// `$HOSTNAME` becomes the host name (nothing when the host name is
/// empty), any other part is kept verbatim; a current- or
/// parent-directory part fails.
pub open spec fn format_dest_spec(
    parts: Seq<Seq<char>>,
    host: Seq<char>,
) -> Result<Seq<Seq<char>>, ()>
    decreases parts.len(),
{
    if parts.len() == 0 {
        Ok(Seq::empty())
    } else {
        match format_dest_spec(parts.drop_last(), host) {
            Err(e) => Err(e),
            Ok(pre) => {
                let p = parts.last();
                if p.len() == 0 {
                    Ok(pre)
                } else if p == "."@ || p == ".."@ {
                    Err(())
                } else if p == "$HOSTNAME"@ {
                    if host.len() == 0 {
                        Ok(pre)
                    } else {
                        Ok(pre.push(host))
                    }
                } else {
                    Ok(pre.push(p))
                }
            },
        }
    }
}

proof fn lemma_format_dest_err(parts: Seq<Seq<char>>, host: Seq<char>, i: int)
    requires
        0 <= i <= parts.len(),
        format_dest_spec(parts.take(i), host) is Err,
    ensures
        format_dest_spec(parts, host) == format_dest_spec(parts.take(i), host),
    decreases parts.len() - i,
{
    if i < parts.len() {
        assert(parts.take(i + 1).drop_last() =~= parts.take(i));
        lemma_format_dest_err(parts, host, i + 1);
    } else {
        assert(parts.take(i) =~= parts);
    }
}

/// The non-empty parts, kept verbatim: the resolved drive root is taken as
/// it is, never validated.
pub open spec fn nonempty_parts(parts: Seq<Seq<char>>) -> Seq<Seq<char>>
    decreases parts.len(),
{
    if parts.len() == 0 {
        Seq::empty()
    } else {
        let pre = nonempty_parts(parts.drop_last());
        if parts.last().len() == 0 {
            pre
        } else {
            pre.push(parts.last())
        }
    }
}

/// The destination base: the drive's components followed by the format's,
/// with the host name substituted. It fails exactly when the format holds
/// a current-directory, parent-directory or volume-prefix component.
pub open spec fn initial_dest_spec(
    drive: Seq<char>,
    format: Seq<char>,
    host: Seq<char>,
) -> Result<Seq<Seq<char>>, ()> {
    let fparts = split_seps_spec(format);
    if fparts[0].len() > 0 && fparts[0].last() == ':' {
        Err(())
    } else {
        match format_dest_spec(fparts, host) {
            Err(e) => Err(e),
            Ok(tail) => Ok(nonempty_parts(split_seps_spec(drive)) + tail),
        }
    }
}

/// Builds the destination base path from the resolved drive, the
/// configured format and the host name. The drive is taken verbatim; the
/// format's components follow, with `$HOSTNAME` replaced by the host name
/// (or dropped when it is empty), and a current-directory,
/// parent-directory or volume-prefix component in the format is an error.
#[verifier::loop_isolation(false)]
pub fn build_initial_dest(drive: &str, format: &str, host: &str) -> (r: Result<Vec<String>, ()>)
    ensures
        match r {
            Ok(v) => initial_dest_spec(drive@, format@, host@) == Ok::<Seq<Seq<char>>, ()>(
                v.deep_view(),
            ),
            Err(_) => initial_dest_spec(drive@, format@, host@) is Err,
        },
{
    let fparts = split_seps(format);
    let ghost fv = split_seps_spec(format@);
    let f0len = fparts[0].as_str().unicode_len();
    if f0len > 0 && fparts[0].as_str().get_char(f0len - 1) == ':' {
        proof {
            assert(fparts.deep_view()[0] == fv[0]);
        }
        return Err(());
    }
    let dparts = split_seps(drive);
    let ghost dv = split_seps_spec(drive@);
    let mut out: Vec<String> = Vec::new();
    let mut i: usize = 0;
    proof {
        assert(out.deep_view() =~= nonempty_parts(dv.take(0)));
    }
    while i < dparts.len()
        invariant
            i <= dparts@.len(),
            out.deep_view() == nonempty_parts(dv.take(i as int)),
        decreases dparts@.len() - i,
    {
        let ghost prev = out.deep_view();
        proof {
            assert(dv.take(i as int + 1).drop_last() =~= dv.take(i as int));
            assert(dv.take(i as int + 1).last() == dv[i as int]);
        }
        if dparts[i].as_str().unicode_len() > 0 {
            out.push(dparts[i].clone());
            proof {
                assert(out.deep_view() =~= prev.push(dv[i as int]));
            }
        }
        i = i + 1;
    }
    let ghost base = nonempty_parts(dv);
    proof {
        assert(dv.take(dv.len() as int) =~= dv);
    }
    let ghost mut acc: Seq<Seq<char>> = Seq::empty();
    let mut i: usize = 0;
    proof {
        assert(fv.take(0) =~= Seq::<Seq<char>>::empty());
        assert(out.deep_view() =~= base + acc);
    }
    while i < fparts.len()
        invariant
            i <= fparts@.len(),
            format_dest_spec(fv.take(i as int), host@) == Ok::<Seq<Seq<char>>, ()>(acc),
            out.deep_view() == base + acc,
        decreases fparts@.len() - i,
    {
        let ghost prev = out.deep_view();
        proof {
            assert(fv.take(i as int + 1).drop_last() =~= fv.take(i as int));
            assert(fv.take(i as int + 1).last() == fv[i as int]);
        }
        let p = &fparts[i];
        let plen = p.as_str().unicode_len();
        if plen == 0 {
            i = i + 1;
            continue ;
        }
        if str_eq(p.as_str(), ".") || str_eq(p.as_str(), "..") {
            proof {
                assert(format_dest_spec(fv.take(i as int + 1), host@) is Err);
                lemma_format_dest_err(fv, host@, i as int + 1);
            }
            return Err(());
        }
        if str_eq(p.as_str(), "$HOSTNAME") {
            if host.unicode_len() > 0 {
                out.push(String::from_str(host));
                proof {
                    acc = acc.push(host@);
                    assert(out.deep_view() =~= prev.push(host@));
                    assert(out.deep_view() =~= base + acc);
                }
            }
        } else {
            out.push(p.clone());
            proof {
                acc = acc.push(fv[i as int]);
                assert(out.deep_view() =~= prev.push(fv[i as int]));
                assert(out.deep_view() =~= base + acc);
            }
        }
        i = i + 1;
    }
    proof {
        assert(fv.take(fparts@.len() as int) =~= fv);
    }
    Ok(out)
}

} // verus!
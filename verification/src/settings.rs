//! Configuration data: per-rule source patterns, destination templates and
//! allow/deny filters, plus run-wide options.
use vstd::prelude::*;
use crate::strutil::{lower_of, lowercase, str_eq};

verus! {

/// Where the destination tree is rooted: a volume label (or the sentinel
/// `$CURRENTDRIVE`) and a path format that may name `$HOSTNAME`.
pub struct DestDrive {
    pub label: String,
    pub format: String,
}

/// One allow/deny filter: a candidate fails when it is listed in `exclude`,
/// or when `only` is non-empty and does not list it. Entries are compared
/// case-insensitively.
pub struct Match {
    pub exclude: Vec<String>,
    pub only: Vec<String>,
}

/// One configured mapping: a source pattern, a destination template and an
/// ordered filter queue, one filter per wildcard capture, left to right.
pub struct SrcFile {
    pub from: String,
    pub to: String,
    pub filters: Vec<Match>,
}

/// Run-wide options.
pub struct AppConfig {
    pub quiet: bool,
    pub dryrun: bool,
}

/// The whole configuration: options, destination and the ordered rules.
pub struct Settings {
    pub config: AppConfig,
    pub dest: DestDrive,
    pub files: Vec<SrcFile>,
}

/// The mathematical content of a filter: its two entry lists as
/// sequences of character sequences.
pub struct FilterModel {
    pub exclude: Seq<Seq<char>>,
    pub only: Seq<Seq<char>>,
}

impl DeepView for Match {
    type V = FilterModel;

    open spec fn deep_view(&self) -> FilterModel {
        FilterModel { exclude: self.exclude.deep_view(), only: self.only.deep_view() }
    }
}

/// Does the list `l` contain `s`, comparing entries by their lowercase form?
/// `s` itself is expected to be in lowercase form already.
pub open spec fn in_lowered(l: Seq<Seq<char>>, s: Seq<char>) -> bool {
    exists|i: int| 0 <= i < l.len() && lower_of(l[i]) == s
}

/// The filter decision: fail if the candidate is excluded; else fail if the
/// allow list is non-empty and does not hold the candidate; else pass.
/// The candidate is expected in lowercase form.
pub open spec fn filter_passes(f: FilterModel, cand: Seq<char>) -> bool {
    &&& !in_lowered(f.exclude, cand)
    &&& (f.only.len() == 0 || in_lowered(f.only, cand))
}

fn contains_lowered(l: &Vec<String>, cand: &str) -> (r: bool)
    ensures
        r == in_lowered(l.deep_view(), cand@),
{
    let mut i: usize = 0;
    while i < l.len()
        invariant
            i <= l.len(),
            forall|j: int| 0 <= j < i ==> lower_of(#[trigger] l.deep_view()[j]) != cand@,
        decreases l.len() - i,
    {
        let low = lowercase(l[i].as_str());
        if str_eq(low.as_str(), cand) {
            proof {
                assert(lower_of(l.deep_view()[i as int]) == cand@);
            }
            return true;
        }
        i = i + 1;
    }
    false
}

/// Decides whether one lowercase candidate string passes the filter `f`.
pub fn filter_pass(f: &Match, cand: &str) -> (r: bool)
    ensures
        r == filter_passes(f.deep_view(), cand@),
{
    if contains_lowered(&f.exclude, cand) {
        return false;
    }
    if f.only.len() > 0 && !contains_lowered(&f.only, cand) {
        return false;
    }
    true
}

/// A copy of a filter, equal to the original character for character.
pub fn clone_match(m: &Match) -> (r: Match)
    ensures
        r.deep_view() == m.deep_view(),
{
    let r = Match {
        exclude: crate::strutil::clone_string_vec(&m.exclude),
        only: crate::strutil::clone_string_vec(&m.only),
    };
    r
}

impl Default for DestDrive {
    /// The default destination: the drive the process runs from, with the
    /// machine's host name as the top destination directory.
    fn default() -> (r: Self)
        ensures
            r.label@ == "$CURRENTDRIVE"@,
            r.format@ == "$HOSTNAME/"@,
    {
        DestDrive {
            label: String::from_str("$CURRENTDRIVE"),
            format: String::from_str("$HOSTNAME/"),
        }
    }
}

impl Default for Match {
    /// The default filter passes everything.
    fn default() -> (r: Self)
        ensures
            r.exclude@.len() == 0,
            r.only@.len() == 0,
    {
        Match { exclude: Vec::new(), only: Vec::new() }
    }
}

impl Default for AppConfig {
    /// By default a run is a dry run and is not quiet.
    fn default() -> (r: Self)
        ensures
            r.quiet == false,
            r.dryrun == true,
    {
        AppConfig { quiet: false, dryrun: true }
    }
}

fn no_public_user() -> (r: Match)
    ensures
        r.exclude@.len() == 5,
        r.only@.len() == 0,
{
    Match {
        exclude: vec![
            String::from_str("All Users"),
            String::from_str("Default"),
            String::from_str("Default User"),
            String::from_str("DefaultAppPool"),
            String::from_str("Public"),
        ],
        only: Vec::new(),
    }
}

impl Default for Settings {
    /// The built-in rule set: the common per-user document, favourite and
    /// browser-profile directories of a Windows system drive.
    fn default() -> (r: Self)
        ensures
            r.config.quiet == false,
            r.config.dryrun == true,
            r.dest.label@ == "$CURRENTDRIVE"@,
            r.dest.format@ == "$HOSTNAME/"@,
            r.files@.len() == 6,
            r.files@[0].from@ == "C:\\Users\\*\\*\\"@,
            r.files@[0].to@ == "$1/$2/"@,
            r.files@[0].filters@.len() == 2,
            r.files@[1].from@ == "C:\\Users\\*\\Documents\\*\\"@,
            r.files@[1].to@ == "$1/Documents/$2/"@,
            r.files@[1].filters@.len() == 2,
            r.files@[2].from@ == "C:\\Users\\*\\Favorites"@,
            r.files@[2].to@ == "$1/Favorites/IE/"@,
            r.files@[2].filters@.len() == 1,
            r.files@[3].from@
                == "C:\\Users\\*\\AppData\\Local\\Packages\\Microsoft.MicrosoftEdge_*\\AC\\MicrosoftEdge\\User\\*\\Favorites"@,
            r.files@[3].to@ == "$1/Favorites/Edge/$3"@,
            r.files@[3].filters@.len() == 1,
            r.files@[4].from@
                == "C:\\Users\\*\\AppData\\Local\\Google\\Chrome\\User Data\\*\\Bookmarks"@,
            r.files@[4].to@ == "$1/Favorites/Chrome/$2/Bookmarks"@,
            r.files@[4].filters@.len() == 1,
            r.files@[5].from@
                == "C:\\Users\\*\\AppData\\Roaming\\Mozilla\\Firefox\\Profiles\\*\\*.sqlite"@,
            r.files@[5].to@ == "$1/Favorites/Firefox/$2/$3"@,
            r.files@[5].filters@.len() == 3,
    {
        Settings {
            config: AppConfig::default(),
            dest: DestDrive::default(),
            files: vec![
                SrcFile {
                    from: String::from_str("C:\\Users\\*\\*\\"),
                    to: String::from_str("$1/$2/"),
                    filters: vec![
                        no_public_user(),
                        Match {
                            exclude: Vec::new(),
                            only: vec![
                                String::from_str("Desktop"),
                                String::from_str("Downloads"),
                                String::from_str("Contacts"),
                            ],
                        },
                    ],
                },
                SrcFile {
                    from: String::from_str("C:\\Users\\*\\Documents\\*\\"),
                    to: String::from_str("$1/Documents/$2/"),
                    filters: vec![
                        no_public_user(),
                        Match {
                            exclude: vec![
                                String::from_str("My Music"),
                                String::from_str("My Pictures"),
                                String::from_str("My Videos"),
                            ],
                            only: Vec::new(),
                        },
                    ],
                },
                SrcFile {
                    from: String::from_str("C:\\Users\\*\\Favorites"),
                    to: String::from_str("$1/Favorites/IE/"),
                    filters: vec![no_public_user()],
                },
                SrcFile {
                    from: String::from_str(
                        "C:\\Users\\*\\AppData\\Local\\Packages\\Microsoft.MicrosoftEdge_*\\AC\\MicrosoftEdge\\User\\*\\Favorites",
                    ),
                    to: String::from_str("$1/Favorites/Edge/$3"),
                    filters: vec![no_public_user()],
                },
                SrcFile {
                    from: String::from_str(
                        "C:\\Users\\*\\AppData\\Local\\Google\\Chrome\\User Data\\*\\Bookmarks",
                    ),
                    to: String::from_str("$1/Favorites/Chrome/$2/Bookmarks"),
                    filters: vec![no_public_user()],
                },
                SrcFile {
                    from: String::from_str(
                        "C:\\Users\\*\\AppData\\Roaming\\Mozilla\\Firefox\\Profiles\\*\\*.sqlite",
                    ),
                    to: String::from_str("$1/Favorites/Firefox/$2/$3"),
                    filters: vec![
                        no_public_user(),
                        Match::default(),
                        Match {
                            exclude: Vec::new(),
                            only: vec![
                                String::from_str("places"),
                                String::from_str("favicons"),
                            ],
                        },
                    ],
                },
            ],
        }
    }
}

} // verus!

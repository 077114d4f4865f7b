use ubackup::{
    backup, build_initial_dest, get_current_drive, get_drive, get_drive_by_label,
    path_from_matches, rcopy, split_seps, AppConfig, CopyAction, DestDrive, ExpandError, FsEntry,
    FsNode, Match, Mount, Settings, SrcFile, Tally,
};

fn dir(entries: Vec<FsEntry>) -> FsNode {
    FsNode::Dir { mtime: 0, readable: true, entries }
}

fn entry(name: &str, node: FsNode) -> FsEntry {
    FsEntry { name: name.to_string(), node }
}

fn file(mtime: u64) -> FsNode {
    FsNode::File { mtime }
}

fn zero_tally() -> Tally {
    Tally { successes: 0, errors: 0, copied: 0, skipped: 0 }
}

fn strings(parts: &[&str]) -> Vec<String> {
    parts.iter().map(|s| s.to_string()).collect()
}

fn run_copy(src: &FsNode, dest: Option<&FsNode>, dryrun: bool) -> (Tally, Vec<CopyAction>) {
    let mut t = zero_tally();
    let mut actions: Vec<CopyAction> = Vec::new();
    let mut reports: Vec<String> = Vec::new();
    rcopy(
        src,
        &strings(&["src"]),
        dest,
        &strings(&["dst"]),
        dryrun,
        &mut t,
        &mut actions,
        &mut reports,
    )
    .expect("source is listable");
    assert_eq!(reports.len() as u32, t.errors);
    (t, actions)
}

#[test]
fn newer_source_is_copied() {
    let src = file(2);
    let dest = file(1);
    let (t, actions) = run_copy(&src, Some(&dest), false);
    assert_eq!((t.successes, t.errors, t.copied, t.skipped), (1, 0, 1, 0));
    assert_eq!(actions.len(), 1);
    assert_eq!(actions[0].src, strings(&["src"]));
    assert_eq!(actions[0].dest, strings(&["dst"]));
}

#[test]
fn older_or_equal_source_is_skipped() {
    let src = file(1);
    let dest = file(2);
    let (t, actions) = run_copy(&src, Some(&dest), false);
    assert_eq!((t.successes, t.errors, t.copied, t.skipped), (1, 0, 0, 1));
    assert_eq!(actions.len(), 0);
    let dest_same = file(1);
    let (t, _) = run_copy(&src, Some(&dest_same), false);
    assert_eq!((t.successes, t.errors, t.copied, t.skipped), (1, 0, 0, 1));
}

#[test]
fn missing_destination_is_copied() {
    let src = file(7);
    let (t, actions) = run_copy(&src, None, false);
    assert_eq!((t.successes, t.errors, t.copied, t.skipped), (1, 0, 1, 0));
    assert_eq!(actions.len(), 1);
}

#[test]
fn dry_run_counts_the_same_and_plans_nothing() {
    let src = dir(vec![
        entry("a.txt", file(5)),
        entry("b.txt", file(5)),
        entry("sub", dir(vec![entry("c.txt", file(5))])),
    ]);
    let dest = dir(vec![entry("a.txt", file(9))]);
    let (wet, wet_actions) = run_copy(&src, Some(&dest), false);
    let (t, actions) = run_copy(&src, Some(&dest), true);
    assert_eq!(
        (t.successes, t.errors, t.copied, t.skipped),
        (wet.successes, wet.errors, wet.copied, wet.skipped)
    );
    assert_eq!((t.successes, t.errors, t.copied, t.skipped), (3, 0, 2, 1));
    assert_eq!(actions.len(), 0);
    assert_eq!(wet_actions.len(), 2);
}

#[test]
fn successes_split_into_copies_and_skips() {
    let src = dir(vec![
        entry("one", file(1)),
        entry("two", file(9)),
        entry("bad", FsNode::Dir { mtime: 0, readable: false, entries: Vec::new() }),
    ]);
    let dest = dir(vec![entry("one", file(5)), entry("two", file(5))]);
    let (t, _) = run_copy(&src, Some(&dest), false);
    assert_eq!(t.successes, t.copied + t.skipped);
    assert_eq!((t.successes, t.errors, t.copied, t.skipped), (2, 1, 1, 1));
}

#[test]
fn second_run_over_identical_tree_only_skips() {
    let src = dir(vec![
        entry("a.txt", file(5)),
        entry("sub", dir(vec![entry("b.txt", file(6)), entry("c.txt", file(7))])),
    ]);
    let mirror = dir(vec![
        entry("a.txt", file(5)),
        entry("sub", dir(vec![entry("b.txt", file(6)), entry("c.txt", file(7))])),
    ]);
    let (t, actions) = run_copy(&src, Some(&mirror), false);
    assert_eq!((t.successes, t.errors, t.copied, t.skipped), (3, 0, 0, 3));
    assert_eq!(actions.len(), 0);
}

#[test]
fn template_expands_captures() {
    let format = split_seps("$1/Docs/$2");
    let caps = strings(&["alice", "report.txt"]);
    let out = path_from_matches(&format, &caps).expect("expands");
    assert_eq!(out, strings(&["alice", "Docs", "report.txt"]));
}

#[test]
fn template_index_out_of_range_fails() {
    let format = split_seps("$1/Docs/$2");
    let caps = strings(&["alice"]);
    assert_eq!(path_from_matches(&format, &caps), Err(ExpandError::IndexOutOfRange));
    let zero = split_seps("$0");
    assert_eq!(path_from_matches(&zero, &caps), Err(ExpandError::IndexOutOfRange));
    let bad = split_seps("$x");
    assert_eq!(path_from_matches(&bad, &caps), Err(ExpandError::BadCaptureRef));
    let dots = split_seps("a/../b");
    assert_eq!(path_from_matches(&dots, &caps), Err(ExpandError::InvalidComponent));
    // A leading volume prefix is invalid; a colon later in a part is kept.
    let lead = split_seps("C:/x");
    assert_eq!(path_from_matches(&lead, &caps), Err(ExpandError::InvalidComponent));
    let mid = split_seps("x/C:");
    assert_eq!(path_from_matches(&mid, &caps), Ok(strings(&["x", "C:"])));
}

fn world() -> FsNode {
    dir(vec![
        entry(
            "home",
            dir(vec![
                entry("alice", dir(vec![entry("notes.txt", file(10))])),
                entry("bob", dir(vec![entry("todo.txt", file(3))])),
            ]),
        ),
        entry(
            "backup",
            dir(vec![entry("alice", dir(vec![entry("notes.txt", file(20))]))]),
        ),
    ])
}

fn one_rule_settings(dryrun: bool) -> Settings {
    Settings {
        config: AppConfig { quiet: true, dryrun },
        dest: DestDrive { label: "$CURRENTDRIVE".to_string(), format: "/".to_string() },
        files: vec![SrcFile {
            from: "/home/*".to_string(),
            to: "$1".to_string(),
            filters: Vec::new(),
        }],
    }
}

#[test]
fn backup_copies_stale_and_skips_fresh() {
    let root = world();
    let dest_base = strings(&["backup"]);
    let (t, actions, reports) = backup(&one_rule_settings(false), &root, &dest_base);
    // alice is already backed up with a newer copy; bob is new.
    assert_eq!((t.successes, t.errors, t.copied, t.skipped), (2, 0, 1, 1));
    assert!(reports.is_empty());
    assert_eq!(actions.len(), 1);
    assert_eq!(actions[0].src, strings(&["home", "bob", "todo.txt"]));
    assert_eq!(actions[0].dest, strings(&["backup", "bob", "todo.txt"]));
}

#[test]
fn backup_dry_run_matches_real_counters() {
    let root = world();
    let dest_base = strings(&["backup"]);
    let (wet, _, _) = backup(&one_rule_settings(false), &root, &dest_base);
    let (t, actions, _) = backup(&one_rule_settings(true), &root, &dest_base);
    assert_eq!(
        (t.successes, t.errors, t.copied, t.skipped),
        (wet.successes, wet.errors, wet.copied, wet.skipped)
    );
    assert_eq!(actions.len(), 0);
}

#[test]
fn backup_counts_bad_template_per_match() {
    let root = world();
    let dest_base = strings(&["backup"]);
    let mut settings = one_rule_settings(false);
    settings.files[0].to = "$9".to_string();
    let (t, actions, reports) = backup(&settings, &root, &dest_base);
    // Two matches, each failing expansion; nothing else happens.
    assert_eq!((t.successes, t.errors, t.copied, t.skipped), (0, 2, 0, 0));
    assert_eq!(actions.len(), 0);
    // Each counted error is surfaced as one report line.
    assert_eq!(reports.len(), 2);
}

#[test]
fn drive_by_label_finds_first_mount() {
    let mounts = vec![
        Mount { from: "/dev/sda1".to_string(), on: "/".to_string() },
        Mount { from: "LABEL=usb".to_string(), on: "/mnt/usb".to_string() },
    ];
    assert_eq!(get_drive_by_label("LABEL=usb", &mounts), Some("/mnt/usb".to_string()));
    assert_eq!(get_drive_by_label("LABEL=nope", &mounts), None);
}

#[test]
fn current_drive_from_cwd() {
    assert_eq!(get_current_drive("/home/alice"), Some("/".to_string()));
    assert_eq!(get_current_drive("C:\\Users"), Some("C:".to_string()));
    assert_eq!(get_current_drive("relative/path"), None);
}

#[test]
fn get_drive_resolves_sentinel_and_label() {
    let mounts = vec![Mount { from: "LABEL=usb".to_string(), on: "/mnt/usb".to_string() }];
    assert_eq!(get_drive("$CURRENTDRIVE", Some("/x"), &mounts), Ok("/".to_string()));
    assert!(get_drive("$CURRENTDRIVE", None, &mounts).is_err());
    assert_eq!(get_drive("LABEL=usb", None, &mounts), Ok("/mnt/usb".to_string()));
    assert!(get_drive("LABEL=gone", None, &mounts).is_err());
}

#[test]
fn initial_dest_substitutes_hostname() {
    assert_eq!(
        build_initial_dest("/", "$HOSTNAME/stash", "box1"),
        Ok(strings(&["box1", "stash"]))
    );
    assert_eq!(build_initial_dest("/", "$HOSTNAME/", ""), Ok(strings(&[])));
    assert_eq!(
        build_initial_dest("/mnt/usb", "stash", "h"),
        Ok(strings(&["mnt", "usb", "stash"]))
    );
    assert!(build_initial_dest("/", "../x", "h").is_err());
    // A volume prefix cannot stand in the destination format...
    assert!(build_initial_dest("", "C:", "h").is_err());
    assert!(build_initial_dest("/", "C:\\stash", "h").is_err());
    // ...but the resolved drive itself is taken verbatim.
    assert_eq!(build_initial_dest("C:", "stash", "h"), Ok(strings(&["C:", "stash"])));
}

#[test]
fn default_settings_shape() {
    let s = Settings::default();
    assert_eq!(s.files.len(), 6);
    assert!(s.config.dryrun);
    assert!(!s.config.quiet);
    assert_eq!(s.dest.label, "$CURRENTDRIVE");
    assert_eq!(s.dest.format, "$HOSTNAME/");
    assert_eq!(s.files[0].from, "C:\\Users\\*\\*\\");
    assert_eq!(s.files[0].filters.len(), 2);
    let m = Match::default();
    assert!(m.exclude.is_empty() && m.only.is_empty());
}

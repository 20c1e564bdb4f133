use dhl::{DirEntry, Recipients, RecipientsError, SysPath};

fn path(absolute: bool, segments: &[&str]) -> SysPath {
    SysPath { absolute, segments: segments.iter().map(|s| s.to_string()).collect() }
}

fn entry(name: &str, modified: Option<u64>) -> DirEntry {
    DirEntry { name: Some(name.to_string()), modified }
}

fn segs(p: &SysPath) -> Vec<String> {
    p.segments.clone()
}

#[test]
fn check_deps_dir() {
    let out_dir = path(false, &["example", "build", "example", "out"]);
    let deps_dir = Recipients::get_deps_dir(&out_dir).unwrap();
    assert!(!deps_dir.absolute);
    assert_eq!(segs(&deps_dir), vec!["example".to_string(), "deps".to_string()]);
}

#[test]
fn deps_dir_needs_three_ancestors() {
    let out_dir = path(true, &["example", "out"]);
    match Recipients::get_deps_dir(&out_dir) {
        Err(RecipientsError::InvalidOutDir(p)) => {
            assert_eq!(segs(&p), vec!["example".to_string(), "out".to_string()]);
        }
        _ => panic!("expected the invalid-out-dir error"),
    }
}

#[test]
fn verify_tmp_deps() {
    let base = path(true, &["example"]);
    let deps_dir = base.child("deps");
    let entries = vec![
        entry("libdummy_dash-d15ea5e.rlib", Some(1)),
        entry("libdummy_underscore-deadbeef.rlib", Some(2)),
        entry("libdummy-c000l0ff.rlib", Some(3)),
    ];
    let (mut r, notes) = Recipients::with_path(deps_dir, &base, &entries);
    assert!(notes.is_empty());
    r.get("dummy").unwrap();
    r.get("dummy-dash").unwrap();
    r.get("dummy_underscore").unwrap();
    assert!(r.get("missing").is_none());
}

#[test]
fn hyphens_and_underscores_resolve_alike() {
    let deps_dir = path(true, &["deps"]);
    let manifest_dir = path(true, &["elsewhere"]);
    let entries = vec![entry("libfoo_bar-0123abcd.rlib", Some(7))];
    let (mut r, _) = Recipients::with_path(deps_dir, &manifest_dir, &entries);
    let a = r.get("foo-bar").unwrap();
    let b = r.get("foo_bar").unwrap();
    assert_eq!(segs(&a.dest), segs(&b.dest));
    assert_eq!(segs(&a.dest), vec!["deps".to_string(), "libfoo_bar-0123abcd.rlib".to_string()]);
}

#[test]
fn collision_keeps_newer_holder() {
    let deps_dir = path(true, &["deps"]);
    let manifest_dir = path(true, &["elsewhere"]);
    let entries = vec![
        entry("libdup-aaaa.rlib", Some(100)),
        entry("libdup-bbbb.rlib", Some(50)),
    ];
    let (mut r, notes) = Recipients::with_path(deps_dir, &manifest_dir, &entries);
    assert_eq!(notes.len(), 1);
    assert_eq!(notes[0].name, "dup");
    assert_eq!(notes[0].survivor, "libdup-aaaa.rlib");
    assert_eq!(notes[0].discarded, "libdup-bbbb.rlib");
    assert!(!notes[0].replaced);
    let dest = r.get("dup").unwrap().dest;
    assert_eq!(segs(&dest), vec!["deps".to_string(), "libdup-aaaa.rlib".to_string()]);
}

#[test]
fn collision_unknown_time_counts_as_newer() {
    let deps_dir = path(true, &["deps"]);
    let manifest_dir = path(true, &["elsewhere"]);
    let entries = vec![
        entry("libdup-aaaa.rlib", Some(100)),
        entry("libdup-bbbb.rlib", None),
    ];
    let (mut r, notes) = Recipients::with_path(deps_dir, &manifest_dir, &entries);
    assert_eq!(notes.len(), 1);
    assert_eq!(notes[0].survivor, "libdup-bbbb.rlib");
    assert_eq!(notes[0].discarded, "libdup-aaaa.rlib");
    assert!(notes[0].replaced);
    let dest = r.get("dup").unwrap().dest;
    assert_eq!(segs(&dest), vec!["deps".to_string(), "libdup-bbbb.rlib".to_string()]);
}

#[test]
fn watch_fires_exactly_once() {
    let manifest_dir = path(true, &["home", "project"]);
    let deps_dir = path(true, &["home", "project", "target", "deps"]);
    let entries = vec![entry("libonce-1.rlib", Some(5))];
    let (mut r, _) = Recipients::with_path(deps_dir, &manifest_dir, &entries);
    let first = r.get("once").unwrap();
    let watch = first.watch.expect("first resolution announces a watch path");
    // The deps directory lies below the manifest directory, so the watch path
    // is the relative one.
    assert!(!watch.absolute);
    assert_eq!(
        segs(&watch),
        vec!["target".to_string(), "deps".to_string(), "libonce-1.rlib".to_string()]
    );
    let second = r.get("once").unwrap();
    assert!(second.watch.is_none());
    assert_eq!(segs(&second.dest), segs(&first.dest));
    let third = r.get("once").unwrap();
    assert!(third.watch.is_none());
}

#[test]
fn watch_path_is_absolute_outside_manifest_dir() {
    let manifest_dir = path(true, &["somewhere", "else"]);
    let deps_dir = path(true, &["builds", "deps"]);
    let entries = vec![entry("libonce-1.rlib", Some(5))];
    let (mut r, _) = Recipients::with_path(deps_dir, &manifest_dir, &entries);
    let first = r.get("once").unwrap();
    let watch = first.watch.unwrap();
    assert!(watch.absolute);
    assert_eq!(
        segs(&watch),
        vec!["builds".to_string(), "deps".to_string(), "libonce-1.rlib".to_string()]
    );
}

#[test]
fn entries_outside_the_pattern_are_skipped() {
    let deps_dir = path(true, &["deps"]);
    let manifest_dir = path(true, &["elsewhere"]);
    let entries = vec![
        entry("notalibrary.txt", Some(1)),
        entry("libnoext-1234", Some(2)),
        entry("libnodash.rlib", Some(3)),
        entry("nolibprefix-1.rlib", Some(4)),
        DirEntry { name: None, modified: Some(5) },
        entry("libreal-cafe.rlib", Some(6)),
    ];
    let (mut r, notes) = Recipients::with_path(deps_dir, &manifest_dir, &entries);
    assert!(notes.is_empty());
    assert!(r.get("real").is_some());
    assert!(r.get("notalibrary").is_none());
    assert!(r.get("noext").is_none());
    assert!(r.get("nodash").is_none());
    assert!(r.get("nolibprefix").is_none());
    assert!(r.get("nodash.rlib").is_none());
}

#[test]
fn parse_placeholder_extracts_the_name() {
    assert_eq!(dhl::parse_placeholder("libfoo-abc.rlib"), Some("foo".to_string()));
    assert_eq!(dhl::parse_placeholder("libdhltest_dash-d15ea5e.rlib"), Some("dhltest_dash".to_string()));
    assert_eq!(dhl::parse_placeholder("libfoo.rlib"), None);
    assert_eq!(dhl::parse_placeholder("foo-abc.rlib"), None);
    assert_eq!(dhl::parse_placeholder("libfoo-abc.so"), None);
    assert_eq!(dhl::parse_placeholder("lib-abc.rlib"), Some("".to_string()));
}

#[test]
fn rescan_picks_up_delivered_placeholder() {
    let deps_dir = path(true, &["deps"]);
    let manifest_dir = path(true, &["elsewhere"]);
    let entries = vec![entry("libfresh-1111.rlib", Some(10))];
    let (mut r, _) = Recipients::with_path(deps_dir.clone(), &manifest_dir, &entries);
    let first = r.get("fresh").unwrap();
    assert!(first.watch.is_some());

    // After a delivery overwrote the placeholder, a fresh scan sees the same
    // file name with a newer modification time; the new index resolves to it
    // and its first resolution announces the watch path again.
    let rescan = vec![entry("libfresh-1111.rlib", Some(99))];
    let (mut r2, notes) = Recipients::with_path(deps_dir, &manifest_dir, &rescan);
    assert!(notes.is_empty());
    let again = r2.get("fresh").unwrap();
    assert_eq!(segs(&again.dest), segs(&first.dest));
    assert!(again.watch.is_some());
}

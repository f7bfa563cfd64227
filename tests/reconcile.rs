use zonewatch::changes::Changes;
use zonewatch::config;
use zonewatch::event_processor::{paths_to_rescan, reconcile, scan_includes, update_zone, write_state};
use zonewatch::reloader::{ReloadError, Reloader};
use zonewatch::zone_file::{FileRead, Include, IncludeMap};
use zonewatch::zone_text::render;

fn s(p: &str) -> String {
    p.to_string()
}

fn config_zone(includes: &[&str]) -> config::Zone {
    config::Zone {
        dir: s("/var/lib/zones"),
        reload_program_args: vec![s("reload"), s("example.org")],
        ttl: s("1d"),
        includes: includes.iter().map(|p| s(p)).collect(),
        soa: config::Soa {
            ttl: s("1d"),
            mname: s("ns1.example.org."),
            rname: s("hostmaster.example.org."),
            refresh: s("1d"),
            retry: s("2h"),
            expire: s("1000h"),
            minimum: s("1h"),
            initial_serial: 2024010100,
        },
    }
}

fn fp(b: u8) -> Include {
    Include::Readable([b; 32])
}

fn map(entries: &[(&str, Include)]) -> IncludeMap {
    let mut m = IncludeMap::new();
    for (k, v) in entries {
        m = m.insert(s(k), *v);
    }
    m
}

#[test]
fn first_reconciliation_uses_the_initial_serial() {
    let cfg = config_zone(&["/a", "/b"]);
    let rescanned = map(&[("/a", fp(1)), ("/b", Include::NotFound)]);
    let written = reconcile("example.org.", &cfg, Changes::All, true, None, rescanned).unwrap();
    assert_eq!(written.soa.serial, 2024010100);
    assert_eq!(written.name, "example.org.");
    assert_eq!(written.includes_ordered, vec![s("/a"), s("/b")]);
    assert_eq!(written.includes.get(&s("/b")), Some(Include::NotFound));
    // even without forcing, a first reconciliation writes
    let rescanned = map(&[("/a", fp(1)), ("/b", fp(2))]);
    let written = reconcile("example.org.", &cfg, Changes::All, false, None, rescanned);
    assert_eq!(written.unwrap().soa.serial, 2024010100);
}

fn prior() -> zonewatch::zone_file::Zone {
    let cfg = config_zone(&["/a", "/b"]);
    let rescanned = map(&[("/a", fp(1)), ("/b", fp(2))]);
    reconcile("example.org.", &cfg, Changes::All, true, None, rescanned).unwrap()
}

#[test]
fn no_changes_without_force_writes_nothing() {
    let cfg = config_zone(&["/a", "/b"]);
    let old = prior();
    let r = reconcile("example.org.", &cfg, Changes::Nothing, false, Some(&old), IncludeMap::new());
    assert!(r.is_none());
    assert_eq!(old.soa.serial, 2024010100);
}

#[test]
fn touched_but_unchanged_file_needs_no_reload() {
    let cfg = config_zone(&["/a", "/b"]);
    let old = prior();
    let changes = Changes::Paths(vec![s("/a")]);
    let r = reconcile("example.org.", &cfg, changes, false, Some(&old), map(&[("/a", fp(1))]));
    assert!(r.is_none());
}

#[test]
fn changed_file_advances_the_serial_by_one() {
    let cfg = config_zone(&["/a", "/b"]);
    let old = prior();
    let changes = Changes::Paths(vec![s("/a")]);
    let r = reconcile("example.org.", &cfg, changes, false, Some(&old), map(&[("/a", fp(9))]))
        .unwrap();
    assert_eq!(r.soa.serial, 2024010101);
    assert_eq!(r.includes.get(&s("/a")), Some(fp(9)));
    assert_eq!(r.includes.get(&s("/b")), Some(fp(2)));
}

#[test]
fn several_changed_files_advance_the_serial_once() {
    let cfg = config_zone(&["/a", "/b"]);
    let old = prior();
    let r = reconcile(
        "example.org.",
        &cfg,
        Changes::All,
        false,
        Some(&old),
        map(&[("/a", fp(7)), ("/b", Include::PermissionDenied)]),
    )
    .unwrap();
    assert_eq!(r.soa.serial, 2024010101);
}

#[test]
fn serial_wraps_from_the_largest_value_to_zero() {
    let cfg = config_zone(&["/a", "/b"]);
    let mut old = prior();
    old.soa.serial = u32::MAX;
    let r = reconcile("example.org.", &cfg, Changes::Paths(vec![s("/b")]), false, Some(&old), map(&[("/b", Include::OtherError)]))
        .unwrap();
    assert_eq!(r.soa.serial, 0);
}

#[test]
fn reconciling_twice_is_idempotent() {
    let cfg = config_zone(&["/a", "/b"]);
    let old = prior();
    let changes = || Changes::Paths(vec![s("/a")]);
    let first = reconcile("example.org.", &cfg, changes(), false, Some(&old), map(&[("/a", fp(5))]))
        .unwrap();
    assert_eq!(first.soa.serial, 2024010101);
    let second = reconcile("example.org.", &cfg, changes(), false, Some(&first), map(&[("/a", fp(5))]));
    assert!(second.is_none());
}

#[test]
fn forced_write_of_unchanged_content_keeps_serial_and_text() {
    let cfg = config_zone(&["/a", "/b"]);
    let old = prior();
    let r = reconcile(
        "example.org.",
        &cfg,
        Changes::All,
        true,
        Some(&old),
        map(&[("/a", fp(1)), ("/b", fp(2))]),
    )
    .unwrap();
    assert!(r.same_as(&old));
    assert_eq!(r.soa.serial, old.soa.serial);
    assert_eq!(render(&r), render(&old));
}

#[test]
fn configuration_change_counts_as_a_change() {
    let mut cfg = config_zone(&["/a", "/b"]);
    cfg.soa.refresh = s("2d");
    let old = prior();
    let r = reconcile("example.org.", &cfg, Changes::Nothing, false, Some(&old), IncludeMap::new())
        .unwrap();
    assert_eq!(r.soa.serial, 2024010101);
    assert_eq!(r.soa.refresh, "2d");
}

#[test]
fn write_state_decisions() {
    let old = prior();
    let same = old.clone();
    assert!(write_state(false, same, Some(&old)).is_none());
    let same = old.clone();
    assert_eq!(write_state(true, same, Some(&old)).unwrap().soa.serial, old.soa.serial);
    let mut other = old.clone();
    other.ttl = s("2d");
    assert_eq!(write_state(false, other, Some(&old)).unwrap().soa.serial, old.soa.serial + 1);
}

#[test]
fn update_zone_merges_rescanned_statuses() {
    let cfg = config_zone(&["/a", "/b"]);
    let old = prior();
    let z = update_zone("example.org.", &cfg, Changes::Paths(vec![s("/b")]), Some(&old), map(&[("/b", Include::NotFound)]));
    assert_eq!(z.includes.get(&s("/a")), Some(fp(1)));
    assert_eq!(z.includes.get(&s("/b")), Some(Include::NotFound));
    assert_eq!(z.soa.serial, old.soa.serial);
    let z = update_zone("example.org.", &cfg, Changes::All, Some(&old), map(&[("/a", fp(3))]));
    assert_eq!(z.includes.get(&s("/b")), None);
}

#[test]
fn paths_to_rescan_follows_the_changes() {
    let cfg = config_zone(&["/a", "/b"]);
    assert_eq!(paths_to_rescan(&cfg, &Changes::Nothing, false), vec![s("/a"), s("/b")]);
    assert_eq!(paths_to_rescan(&cfg, &Changes::All, true), vec![s("/a"), s("/b")]);
    assert_eq!(paths_to_rescan(&cfg, &Changes::Paths(vec![s("/b")]), true), vec![s("/b")]);
    assert!(paths_to_rescan(&cfg, &Changes::Nothing, true).is_empty());
}

#[test]
fn scanned_content_is_fingerprinted_with_blake3() {
    let reads = vec![
        (s("/a"), FileRead::Content(b"abc".to_vec())),
        (s("/b"), FileRead::NotFound),
        (s("/c"), FileRead::PermissionDenied),
    ];
    let m = scan_includes(&reads);
    let expected = *blake3::hash(b"abc").as_bytes();
    assert_eq!(m.get(&s("/a")), Some(Include::Readable(expected)));
    assert_ne!(m.get(&s("/a")), Some(Include::Readable([0u8; 32])));
    assert_eq!(m.get(&s("/b")), Some(Include::NotFound));
    assert_eq!(m.get(&s("/c")), Some(Include::PermissionDenied));
    assert_eq!(m.get(&s("/d")), None);
    let same = Include::from_read(&FileRead::Content(b"abc".to_vec()));
    let other = Include::from_read(&FileRead::Content(b"abd".to_vec()));
    assert!(same.same_as(&m.get(&s("/a")).unwrap()));
    assert!(!other.same_as(&same));
}

#[test]
fn failed_reload_after_commit_reports_stderr() {
    let cfg = config_zone(&["/a", "/b"]);
    let old = prior();
    let committed = reconcile("example.org.", &cfg, Changes::Paths(vec![s("/a")]), false, Some(&old), map(&[("/a", fp(4))]))
        .unwrap();
    assert_eq!(committed.soa.serial, 2024010101);
    let reloader = Reloader {
        zone_name: s("example.org."),
        bin: s("/usr/bin/knotc"),
        args: cfg.reload_program_args.clone(),
    };
    let r = reloader.outcome(false, b"  partial output\n", b"error: zone not loaded \n");
    assert_eq!(
        r,
        Err(ReloadError::NonZeroExit {
            stdout: s("partial output"),
            stderr: s("error: zone not loaded"),
        })
    );
    assert_eq!(reloader.outcome(true, b"", b"ignored"), Ok(()));
    // the committed snapshot is unaffected by the failed reload
    assert_eq!(committed.soa.serial, 2024010101);
}

#[test]
fn reload_output_is_decoded_lossily() {
    let reloader = Reloader { zone_name: s("z."), bin: s("false"), args: Vec::new() };
    let r = reloader.outcome(false, &[0x66, 0xff, 0x6f], b"\t\n");
    assert_eq!(
        r,
        Err(ReloadError::NonZeroExit { stdout: s("f\u{FFFD}o"), stderr: s("") })
    );
}

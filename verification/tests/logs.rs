use nix_core::caps::{Capabilities, Capability};
use nix_core::reclaim::logs::{
    is_rotated, journal_dirs, JournalCategory, JournalDir, LogCategory, LogEntry, LogListing,
};
use nix_core::reclaim::registry::Category;
use nix_core::space::{ReclaimKind, ReclaimMethod, Safety, VacuumLimit};

fn file(name: &str, bytes: u64) -> LogEntry {
    LogEntry {
        path: format!("/var/log/{name}"),
        name: name.to_string(),
        file: true,
        blocks: bytes / 512,
    }
}

fn category(entries: Vec<LogEntry>) -> LogCategory {
    LogCategory::at(LogListing { directory: true, entries: Some(entries), open: vec![] })
}

fn journal(keep: VacuumLimit, bytes: u64) -> JournalCategory {
    let dir = JournalDir { path: "/var/log/journal".into(), directory: true, bytes };
    JournalCategory::with(keep, vec![dir], &Capabilities { found: vec![Capability::Journalctl] })
}

#[test]
fn rotated_names_are_recognised_and_active_ones_are_not() {
    for rotated in [
        "syslog.1",
        "syslog.2.gz",
        "auth.log.4.xz",
        "messages.old",
        "kern.log.zst",
        "daemon.log.10",
        "dpkg.log.1.bz2",
    ] {
        assert!(is_rotated(rotated), "{rotated} should be rotated");
    }
    for active in [
        "syslog", "auth.log", "kern.log", "dmesg", "wtmp", "lastlog", "boot.log",
    ] {
        assert!(!is_rotated(active), "{active} is live");
    }
    assert!(!is_rotated(".1"), "a number needs a name before it");
    assert!(!is_rotated("syslog."));
}

#[test]
fn only_rotated_logs_are_offered() {
    let found = category(vec![
        file("syslog", 8192),
        file("syslog.1", 8192),
        file("syslog.2.gz", 8192),
        file("auth.log", 8192),
    ])
    .candidates(false)
    .unwrap();
    let names: Vec<&str> = found.iter().map(|c| c.label.as_str()).collect();

    assert_eq!(found.len(), 2, "{names:?}");
    assert!(
        names
            .iter()
            .all(|n| n.contains(".1") || n.contains(".2.gz")),
        "{names:?}"
    );
    assert!(
        !names.iter().any(|n| n.starts_with("syslog (")),
        "an active log must never be offered: {names:?}"
    );
}

#[test]
fn the_journal_directory_is_not_treated_as_a_log_file() {
    let journal = LogEntry { file: false, ..file("journal", 65536) };
    let found = category(vec![journal, file("syslog.1", 4096)]).candidates(false).unwrap();
    assert_eq!(
        found.len(),
        1,
        "only the rotated file, never the journal directory"
    );
    assert!(found[0].label.contains("syslog.1"));
}

#[test]
fn rotated_logs_are_rated_safe_and_route_through_the_helper() {
    let found = category(vec![file("syslog.1.gz", 4096)]).candidates(false).unwrap();
    assert_eq!(found[0].safety, Safety::Safe);
    match &found[0].method {
        ReclaimMethod::SystemFile { kind, path } => {
            assert_eq!(*kind, ReclaimKind::RotatedLog);
            assert!(path.ends_with("syslog.1.gz"));
        }
        other => panic!("a system log must be removed through the helper, got {other:?}"),
    }
    assert_eq!(found[0].bytes, 4096);
}

#[test]
fn symlinks_and_directories_are_skipped() {
    let alias = LogEntry { file: false, ..file("alias.1", 0) };
    let nginx = LogEntry { file: false, ..file("nginx", 4096) };
    let found = category(vec![file("syslog.1", 4096), alias, nginx]).candidates(false).unwrap();
    assert_eq!(found.len(), 1, "{found:?}");
}

#[test]
fn results_are_ordered_largest_first() {
    let found = category(vec![file("small.1", 4096), file("large.1", 65536), file("medium.1", 16384)])
        .candidates(false)
        .unwrap();
    let sizes: Vec<u64> = found.iter().map(|c| c.bytes).collect();
    let mut sorted = sizes.clone();
    sorted.sort_unstable_by(|a, b| b.cmp(a));
    assert_eq!(sizes, sorted);
    assert_eq!(sizes, vec![65536, 16384, 4096]);
}

#[test]
fn an_empty_or_absent_log_directory_offers_nothing() {
    assert!(category(vec![]).candidates(false).unwrap().is_empty());

    let missing = LogCategory::at(LogListing { directory: false, entries: None, open: vec![] });
    assert!(!missing.available());
    assert!(missing.candidates(false).unwrap().is_empty());
}

#[test]
fn logs_cancellation_is_honoured() {
    let entries = (0..5).map(|i| file(&format!("log.{i}"), 4096)).collect();
    assert!(category(entries).candidates(true).is_err());
    assert!(LogCategory::new().candidates(true).unwrap().is_empty());
}

#[test]
fn a_rotated_log_still_held_open_is_not_offered() {
    let held = LogCategory::at(LogListing {
        directory: true,
        entries: Some(vec![file("held.1", 4096)]),
        open: vec!["/dev/null".to_string(), "/var/log/held.1".to_string()],
    });
    let found = held.candidates(false).unwrap();
    assert!(
        found.is_empty(),
        "a rotated-looking file that is still open must be left alone: {found:?}"
    );
}

#[test]
fn the_journal_is_offered_only_when_it_exceeds_the_limit() {
    // A limit far above the journal's size: nothing to reclaim, so nothing offered.
    let under = journal(VacuumLimit::Size { mebibytes: 500 }, 200_000);
    assert!(
        under.candidates(false).unwrap().is_empty(),
        "an action that would free nothing is noise, not an offer"
    );

    // A limit below it: the difference is offered.
    let over = journal(VacuumLimit::Size { mebibytes: 0 }, 200_000);
    let found = over.candidates(false).unwrap();
    assert_eq!(found.len(), 1);
    assert!(found[0].bytes > 0);

    let above = journal(VacuumLimit::Size { mebibytes: 1 }, 3 * 1024 * 1024);
    assert_eq!(above.candidates(false).unwrap()[0].bytes, 2 * 1024 * 1024);
}

#[test]
fn the_journal_is_vacuumed_not_deleted_and_is_never_pre_checked() {
    let found = journal(VacuumLimit::Size { mebibytes: 0 }, 100_000).candidates(false).unwrap();

    match &found[0].method {
        // Deleting journal files by hand corrupts the journal; the owning tool does it properly.
        ReclaimMethod::JournalVacuum { limit } => {
            assert_eq!(*limit, VacuumLimit::Size { mebibytes: 0 });
        }
        other => panic!("the journal must be vacuumed, not unlinked: {other:?}"),
    }
    assert_eq!(
        found[0].safety,
        Safety::Review,
        "losing diagnostic history is a real cost, so it is never pre-checked"
    );
    assert!(
        found[0]
            .cost
            .as_deref()
            .is_some_and(|c| c.contains("cannot be recovered")),
        "the cost must say the entries are gone for good: {:?}",
        found[0].cost
    );
}

#[test]
fn an_age_limit_promises_no_particular_size() {
    let found = journal(VacuumLimit::Age { days: 7 }, 50_000).candidates(false).unwrap();
    assert_eq!(found.len(), 1);
    assert!(found[0].label.contains("7 days"), "{}", found[0].label);
    assert_eq!(found[0].reclaimable.promisable(found[0].bytes), 0);
}

#[test]
fn the_journal_needs_its_tool_to_be_available() {
    let nowhere = JournalDir { path: "/definitely/not/here".into(), directory: false, bytes: 0 };
    let tool = Capabilities { found: vec![Capability::Journalctl] };
    let category =
        JournalCategory::with(VacuumLimit::Size { mebibytes: 1 }, vec![nowhere.clone()], &tool);
    assert!(
        !category.available(),
        "no journal directory means nothing to do"
    );
    let there = JournalDir { directory: true, ..nowhere };
    let none = Capabilities { found: vec![] };
    let without =
        JournalCategory::with(VacuumLimit::Size { mebibytes: 1 }, vec![there.clone()], &none);
    assert!(!without.available());
    assert!(JournalCategory::with(VacuumLimit::Size { mebibytes: 1 }, vec![there], &tool).available());
}

#[test]
fn the_journal_adds_its_directories_up() {
    let dirs = journal_dirs();
    assert_eq!(dirs, vec!["/var/log/journal", "/run/log/journal"]);
    let seen = dirs
        .iter()
        .map(|d| JournalDir { path: d.to_string(), directory: true, bytes: 300 << 20 })
        .collect();
    let category = JournalCategory::with(
        JournalCategory::default_limit(),
        seen,
        &Capabilities { found: vec![Capability::Journalctl] },
    );
    assert_eq!(category.size(), 600 << 20);
    let found = category.candidates(false).unwrap();
    assert_eq!(found[0].bytes, 400 << 20);
    assert_eq!(found[0].label, "System journal, trimmed to 200 MiB");
    assert_eq!(found[0].path, "/var/log/journal");
    assert!(category.candidates(true).is_err());
}

use nix_core::pkg::snap::{
    blob_of, measure, parse_snap_list, removable, revisions, revisions_query, Revision,
};
use nix_core::space::Reclaimable;

/// With the composite `base,disabled` note, and a snap whose two revisions
/// differ only by number.
const REAL_SNAP_LIST: &str = "\
Name                       Version                         Rev    Tracking         Publisher        Notes
bare                       1.0                             5      latest/stable    canonical**      base
chromium                   151.0.7922.108                  3507   latest/stable    canonical**      -
chromium                   150.0.7871.128                  3499   latest/stable    canonical**      disabled
core18                     20260105                        2979   latest/stable    canonical**      base,disabled
core18                     20260204                        2999   latest/stable    canonical**      base
core22                     20260410                        2437   latest/stable    canonical**      base
core22                     20260225                        2411   latest/stable    canonical**      base,disabled
cups                       2.4.19-2                        1229   latest/stable    openprinting**   disabled
cups                       2.4.19-2                        1238   latest/stable    openprinting**   -
lonely                     1.0                             10     latest/stable    someone          disabled
";

#[test]
fn revisions_are_parsed_from_real_output() {
    let parsed = parse_snap_list(REAL_SNAP_LIST);
    assert_eq!(parsed.len(), 10, "the header must not become a revision");

    let chromium: Vec<&Revision> = parsed.iter().filter(|r| r.name == "chromium").collect();
    assert_eq!(chromium.len(), 2);
    assert_eq!(chromium[0].revision, "3507");
    assert!(!chromium[0].disabled, "the active revision is not disabled");
    assert_eq!(chromium[1].revision, "3499");
    assert!(chromium[1].disabled);
}

#[test]
fn a_composite_note_still_marks_a_revision_disabled() {
    let parsed = parse_snap_list(REAL_SNAP_LIST);
    let superseded_base = parsed
        .iter()
        .find(|r| r.name == "core18" && r.revision == "2979")
        .unwrap();
    assert!(superseded_base.disabled, "base,disabled must be read as disabled");

    let active_base = parsed
        .iter()
        .find(|r| r.name == "core18" && r.revision == "2999")
        .unwrap();
    assert!(!active_base.disabled, "plain 'base' is the active revision");
}

#[test]
fn a_note_merely_containing_the_word_is_not_a_match() {
    let output = "Name Version Rev Tracking Publisher Notes\nthing 1.0 1 x y disabled-soon\n";
    let parsed = parse_snap_list(output);
    assert!(!parsed[0].disabled, "'disabled-soon' is not the 'disabled' note");
}

#[test]
fn only_disabled_revisions_are_removable() {
    let mut all = parse_snap_list(REAL_SNAP_LIST);
    // Give everything a blob so size is not what filters them.
    for r in &mut all {
        r.bytes = 1024;
    }

    let removable = removable(&all);
    assert!(
        removable.iter().all(|r| r.disabled),
        "an active revision is what is running, so it must never be offered"
    );
    // chromium 3507, core18 2999, core22 2437, cups 1238, bare 5 are active.
    assert!(
        !removable.iter().any(|r| r.revision == "3507"),
        "the active chromium must not be offered"
    );
    let numbers: Vec<&str> = removable.iter().map(|r| r.revision.as_str()).collect();
    assert_eq!(numbers, vec!["3499", "2979", "2411", "1229"]);
}

#[test]
fn a_snap_with_a_single_revision_is_never_offered() {
    let mut all = parse_snap_list(REAL_SNAP_LIST);
    for r in &mut all {
        r.bytes = 1024;
    }
    let removable = removable(&all);
    assert!(
        !removable.iter().any(|r| r.name == "lonely"),
        "removing the only revision of a snap uninstalls it, which is not reclaiming"
    );
}

#[test]
fn a_revision_with_no_blob_is_not_offered() {
    let all = parse_snap_list(REAL_SNAP_LIST); // bytes all zero
    assert!(
        removable(&all).is_empty(),
        "nothing to reclaim from a blob that is not there"
    );
}

#[test]
fn a_hard_linked_blob_promises_nothing() {
    let shared = Revision {
        name: "chromium".into(),
        revision: "3499".into(),
        version: "150".into(),
        disabled: true,
        bytes: 197_312_512,
        links: 2,
        blob: None,
    };
    let verdict = shared.reclaimable();
    assert!(!verdict.is_exact());
    assert_eq!(
        verdict.promisable(shared.bytes),
        0,
        "snapd's cache holds the other link and its pruning policy is not ours to guess"
    );
    let caveat = verdict.caveat().unwrap();
    assert!(caveat.contains("cache"), "{caveat}");
    assert!(caveat.contains("188.2 MiB"), "the caveat should quantify: {caveat}");
}

#[test]
fn a_blob_with_one_link_is_exact() {
    let sole = Revision {
        name: "thing".into(),
        revision: "1".into(),
        version: "1.0".into(),
        disabled: true,
        bytes: 4096,
        links: 1,
        blob: None,
    };
    assert_eq!(sole.reclaimable(), Reclaimable::Exact);
}

#[test]
fn measuring_reads_size_and_link_count_from_disk() {
    let mut revision = Revision {
        name: "thing".into(),
        revision: "42".into(),
        version: "1.0".into(),
        disabled: true,
        bytes: 0,
        links: 1,
        blob: None,
    };
    let blob = blob_of(&revision, "/tmp/blobs");
    assert_eq!(blob, "/tmp/blobs/thing_42.snap");
    measure(&mut revision, "/tmp/blobs", Some((16, 2)));

    assert!(revision.bytes >= 8192);
    assert_eq!(revision.links, 2, "the hard link must be detected");
    assert_eq!(revision.blob, Some(blob));
    assert!(!revision.reclaimable().is_exact());
}

#[test]
fn a_missing_blob_leaves_the_revision_unmeasured() {
    let mut revision = Revision {
        name: "absent".into(),
        revision: "1".into(),
        version: "1.0".into(),
        disabled: true,
        bytes: 0,
        links: 1,
        blob: None,
    };
    measure(&mut revision, "/definitely/not/here", None);
    assert_eq!(revision.bytes, 0);
    assert!(revision.blob.is_none());
}

#[test]
fn this_machines_revisions_are_readable_and_the_active_ones_protected() {
    let found = parse_snap_list(REAL_SNAP_LIST);
    let seen = vec![Some((8, 1)); found.len()];
    let all = revisions(found, &seen);
    assert_eq!(all[0].blob.as_deref(), Some("/var/lib/snapd/snaps/bare_5.snap"));

    let removable = removable(&all);
    for revision in &removable {
        assert!(
            revision.disabled,
            "{} rev {} is active",
            revision.name, revision.revision
        );
        assert!(revision.bytes > 0);
    }
    // Every offered revision has a sibling that stays.
    for revision in &removable {
        let siblings = all.iter().filter(|r| r.name == revision.name).count();
        assert!(siblings > 1, "{} would be uninstalled, not reclaimed", revision.name);
    }
}

#[test]
fn the_revisions_are_asked_for_with_all_of_them() {
    let q = revisions_query();
    assert_eq!((q.program, q.args), ("snap", vec!["list".to_string(), "--all".to_string()]));
}

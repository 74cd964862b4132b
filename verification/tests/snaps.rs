use nix_core::caps::{Capabilities, Capability};
use nix_core::error::AppError;
use nix_core::pkg::flatpak::{parse_list, TreeFact};
use nix_core::pkg::snap::{parse_snap_list, Revision};
use nix_core::reclaim::registry::Category;
use nix_core::reclaim::snaps::{FlatpakUnusedCategory, SnapRevisionCategory};
use nix_core::space::{ReclaimMethod, Reclaimable, Safety};

const SNAPS: &str = "Name Version Rev Tracking Publisher Notes
chromium 151.0 3507 latest/stable canonical -
chromium 150.0 3499 latest/stable canonical disabled
lonely 1.0 10 latest/stable someone disabled
";

const REFS: &str = "app/org.a.App/x86_64/stable\truntime/org.a.Platform/x86_64/1
runtime/org.a.Platform/x86_64/1\t
runtime/org.b.Platform/x86_64/2\t
runtime/org.c.Platform/x86_64/3\t
";

fn revisions() -> Vec<Revision> {
    let mut all = parse_snap_list(SNAPS);
    for r in &mut all {
        r.bytes = 4096;
        r.links = 2;
    }
    all
}

fn with(capability: Capability) -> Capabilities {
    Capabilities { found: vec![capability] }
}

fn snaps() -> SnapRevisionCategory {
    SnapRevisionCategory::at(&with(Capability::Snap), Ok(revisions()))
}

fn object(inode: u64, links: u64) -> TreeFact {
    TreeFact { device: 1, inode, blocks: 8, links }
}

fn flatpaks(repository: Option<Vec<TreeFact>>) -> FlatpakUnusedCategory {
    FlatpakUnusedCategory::at(
        &with(Capability::Flatpak),
        Ok(parse_list(REFS)),
        vec![vec![object(1, 1)], vec![object(2, 1), object(3, 2)]],
        repository,
    )
}

#[test]
fn identifiers_and_labels_are_present() {
    let snaps = SnapRevisionCategory::new();
    assert_eq!(snaps.id(), "snap_revisions");
    assert!(!snaps.label().is_empty());

    let flat = FlatpakUnusedCategory::new();
    assert_eq!(flat.id(), "flatpak_unused");
    assert!(!flat.label().is_empty());
}

#[test]
fn every_review_candidate_explains_its_cost() {
    for candidates in [snaps().candidates(false), flatpaks(None).candidates(false)] {
        let candidates = candidates.unwrap();
        assert_eq!(candidates.len(), 1);
        for c in candidates {
            if c.safety == Safety::Review {
                let cost = c.cost.as_deref().unwrap_or("");
                assert!(
                    !cost.is_empty(),
                    "{} offers no reason for its Review rating",
                    c.label
                );
            }
        }
    }
}

#[test]
fn categories_are_unavailable_without_their_tool() {
    for has in [false, true] {
        let caps = |c| Capabilities { found: if has { vec![c] } else { vec![] } };
        let snap = SnapRevisionCategory::at(&caps(Capability::Snap), Ok(vec![]));
        assert_eq!(snap.available(), has);
        let flat = FlatpakUnusedCategory::at(&caps(Capability::Flatpak), Ok(vec![]), vec![], None);
        assert_eq!(flat.available(), has);
    }
}

#[test]
fn nothing_is_offered_when_the_tool_is_absent() {
    let category = FlatpakUnusedCategory::new();
    assert!(!category.available());
    assert!(category.candidates(false).unwrap_or_default().is_empty());
}

#[test]
fn snaps_cancellation_is_honoured() {
    for result in [
        SnapRevisionCategory::new().candidates(true),
        FlatpakUnusedCategory::new().candidates(true),
        snaps().candidates(true),
        flatpaks(None).candidates(true),
    ] {
        match result {
            Err(e) => assert!(!e.is_fault(), "cancellation is not a fault"),
            Ok(found) => assert!(found.is_empty()),
        }
    }
}

#[test]
fn no_active_snap_revision_is_ever_offered() {
    let candidates = snaps().candidates(false).unwrap();
    let all = revisions();

    for candidate in &candidates {
        let ReclaimMethod::SnapRevision { package, revision } = &candidate.method else {
            panic!("a snap candidate must use the snap method");
        };
        let matching = all
            .iter()
            .find(|r| &r.name == package && &r.revision == revision)
            .expect("the candidate must correspond to a real revision");
        assert!(
            matching.disabled,
            "{package} revision {revision} is active and must never be offered"
        );
    }
    assert_eq!(candidates[0].label, "chromium 150.0 (revision 3499)");
    assert_eq!(candidates[0].path, "snap chromium revision 3499");
}

#[test]
fn snap_candidates_are_exact_because_the_cache_link_goes_too() {
    for candidate in &snaps().candidates(false).unwrap() {
        assert_eq!(
            candidate.reclaimable,
            Reclaimable::Exact,
            "{}: the helper removes snapd's cache link, so this is a promise",
            candidate.label
        );
        assert!(candidate.bytes > 0);
    }
}

#[test]
fn an_orphaned_flatpak_repository_is_reported_rather_than_hidden() {
    let category = FlatpakUnusedCategory::at(
        &with(Capability::Flatpak),
        Ok(vec![]),
        vec![],
        Some(vec![object(9, 1), object(10, 1)]),
    );
    let advisories = category.advisories();
    assert_eq!(advisories.len(), 1, "the repository holds objects");
    let advisory = &advisories[0];
    assert!(advisory.bytes > 0);
    assert_eq!(advisory.bytes, 8192);
    assert!(
        !advisory.why_manual.is_empty() && !advisory.remedy.is_empty(),
        "an advisory without a reason and a remedy is just a refusal"
    );
    assert!(
        advisory.remedy.contains("ostree"),
        "the remedy should name the tool: {}",
        advisory.remedy
    );
    assert_eq!(advisory.path.as_deref(), Some("/var/lib/flatpak/repo"));
    assert_eq!(advisory.reclaimable.promisable(advisory.bytes), 8192);
}

#[test]
fn a_repository_in_use_is_not_reported() {
    assert!(flatpaks(Some(vec![object(9, 1)])).advisories().is_empty());
    let empty = FlatpakUnusedCategory::at(&with(Capability::Flatpak), Ok(vec![]), vec![], Some(vec![]));
    assert!(empty.advisories().is_empty());
    let unread = FlatpakUnusedCategory::at(
        &with(Capability::Flatpak),
        Err(AppError::internal("flatpak")),
        vec![],
        Some(vec![object(9, 1)]),
    );
    assert_eq!(unread.advisories().len(), 1);
    assert_eq!(unread.candidates(false).unwrap_err().message, "flatpak");
}

#[test]
fn unused_runtimes_are_one_decision_that_promises_nothing() {
    let found = flatpaks(None).candidates(false).unwrap();
    assert_eq!(found[0].label, "2 unused runtimes");
    assert_eq!(found[0].bytes, 3 * 4096);
    assert_eq!(
        found[0].cost.as_deref(),
        Some("Removes org.b.Platform 2, org.c.Platform 3. Installing an application that needs one again will re-download it.")
    );
    assert_eq!(found[0].reclaimable.promisable(found[0].bytes), 0);
    assert!(found[0].reclaimable.caveat().unwrap().contains("pruned"));
}

#[test]
fn a_snap_list_that_could_not_be_read_is_passed_on() {
    let failed = SnapRevisionCategory::at(&with(Capability::Snap), Err(AppError::internal("snapd")));
    assert_eq!(failed.candidates(false).unwrap_err().message, "snapd");
}

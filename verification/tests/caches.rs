use nix_core::paths::Environment;
use nix_core::reclaim::caches::{
    cache_root, describe, is_invisible, known, AppCacheCategory, CacheEntry, CacheListing,
};
use nix_core::reclaim::registry::Category;
use nix_core::space::{ReclaimMethod, Safety};

fn dir(name: &str, bytes: u64) -> CacheEntry {
    CacheEntry {
        path: format!("/c/{name}"),
        name: name.to_string(),
        directory: true,
        link: false,
        bytes,
    }
}

fn category(entries: Vec<CacheEntry>) -> AppCacheCategory {
    AppCacheCategory::at(CacheListing { directory: true, entries: Some(entries) })
}

#[test]
fn caches_are_named_by_application_not_by_directory() {
    let found = category(vec![dir("mozilla", 8192), dir("google-chrome", 8192), dir("thumbnails", 4096)])
        .candidates(false)
        .unwrap();
    let labels: Vec<&str> = found.iter().map(|c| c.label.as_str()).collect();

    assert!(labels.contains(&"Firefox"), "{labels:?}");
    assert!(labels.contains(&"Chrome"), "{labels:?}");
    assert!(
        !labels.contains(&"mozilla"),
        "a directory name is not a name: {labels:?}"
    );
}

#[test]
fn an_unrecognised_cache_says_so_rather_than_inventing_a_name() {
    let found = category(vec![dir("some-obscure-app", 4096)]).candidates(false).unwrap();
    assert_eq!(found.len(), 1);
    assert!(found[0].label.contains("some-obscure-app"));
    assert!(found[0].label.contains("unrecognised"), "{}", found[0].label);
    assert!(
        found[0]
            .cost
            .as_deref()
            .is_some_and(|c| c.contains("does not recognise")),
        "an unknown cache must be honest about the unknown cost"
    );
}

#[test]
fn caches_with_a_cost_are_review_and_only_invisible_ones_are_safe() {
    let found = category(vec![dir("mozilla", 4096), dir("thumbnails", 4096), dir("fontconfig", 4096)])
        .candidates(false)
        .unwrap();
    let by_label = |name: &str| found.iter().find(|c| c.label == name).unwrap();

    assert_eq!(
        by_label("Firefox").safety,
        Safety::Review,
        "a browser cache costs a slower launch and re-downloads, so it is never pre-checked"
    );
    assert_eq!(by_label("Image thumbnails").safety, Safety::Safe);
    assert_eq!(by_label("Font cache").safety, Safety::Safe);
}

#[test]
fn every_candidate_states_a_cost() {
    for candidate in category(vec![dir("mozilla", 4096), dir("pip", 4096), dir("mystery", 4096)])
        .candidates(false)
        .unwrap()
    {
        let cost = candidate.cost.as_deref().unwrap_or("");
        assert!(!cost.is_empty(), "{} has no stated cost", candidate.label);
        assert!(
            cost.ends_with('.'),
            "costs are shown to users, so they read as sentences: {cost:?}"
        );
    }
}

#[test]
fn caches_are_trashed_rather_than_unlinked() {
    let found = category(vec![dir("mozilla", 4096)]).candidates(false).unwrap();
    match &found[0].method {
        ReclaimMethod::MoveToTrash { .. } => {}
        other => panic!("a user's own cache should be recoverable, got {other:?}"),
    }
    assert!(!found[0].method.is_irreversible());
}

#[test]
fn empty_directories_and_stray_files_are_not_offered() {
    let stray = CacheEntry { directory: false, ..dir("stray-file", 11) };
    let found = category(vec![dir("empty-cache", 0), stray, dir("mozilla", 4096)])
        .candidates(false)
        .unwrap();
    assert_eq!(found.len(), 1, "only the non-empty directory: {found:?}");
    assert_eq!(found[0].label, "Firefox");
}

#[test]
fn a_symlinked_cache_directory_is_skipped() {
    let linked = CacheEntry { link: true, ..dir("linked", 4096) };
    let found = category(vec![dir("mozilla", 4096), linked]).candidates(false).unwrap();
    assert_eq!(
        found.len(),
        1,
        "a symlink points somewhere nix has not reasoned about: {found:?}"
    );
}

#[test]
fn sizes_are_measured_not_guessed() {
    let found = category(vec![dir("mozilla", 40960)]).candidates(false).unwrap();
    assert!(found[0].bytes >= 40960, "measured {}", found[0].bytes);
}

#[test]
fn caches_cancellation_is_honoured() {
    let entries = (0..5).map(|i| dir(&format!("app-{i}"), 4096)).collect();
    assert!(category(entries).candidates(true).is_err());
}

#[test]
fn an_absent_cache_root_reports_unavailable_rather_than_empty() {
    let category = AppCacheCategory::at(CacheListing { directory: false, entries: None });
    assert!(!category.available());
    assert!(category.candidates(false).unwrap().is_empty());
}

#[test]
fn known_applications_are_distinct_and_every_one_explains_its_cost() {
    let mut seen = std::collections::HashSet::new();
    let known = known();
    assert_eq!(known.len(), 29);
    for known in &known {
        assert!(seen.insert(known.dir), "duplicate directory {}", known.dir);
        assert!(!known.app.is_empty());
        assert!(known.cost.ends_with('.'), "{:?}", known.cost);
    }
    // Every directory listed as invisible must actually be a known application.
    for invisible in ["thumbnails", "fontconfig"] {
        assert!(is_invisible(invisible));
        assert!(
            known.iter().any(|k| k.dir == invisible),
            "{invisible} is rated Safe but is not a known cache"
        );
    }
}

#[test]
fn the_cache_root_follows_xdg_then_home() {
    let env = |cache: Option<&str>, home: Option<&str>| Environment {
        home: home.map(str::to_string),
        config_home: None,
        state_home: None,
        cache_home: cache.map(str::to_string),
    };
    assert_eq!(cache_root(&env(Some("/x"), Some("/home/a"))), Some("/x".to_string()));
    assert_eq!(
        cache_root(&env(Some("relative"), Some("/home/a"))),
        Some("/home/a/.cache".to_string())
    );
    assert_eq!(cache_root(&env(None, None)), None);
}

#[test]
fn a_cache_without_a_listing_ignores_a_request_to_stop() {
    assert!(AppCacheCategory::new().candidates(true).unwrap().is_empty());
    let (label, cost, safety) = describe("cargo");
    assert_eq!(label, "Cargo");
    assert_eq!(cost, "Crates will be downloaded again on next build.");
    assert_eq!(safety, Safety::Review);
}

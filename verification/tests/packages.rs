use nix_core::caps::{Capabilities, Capability};
use nix_core::reclaim::packages::{backends, cache_bytes, CacheFact, PackageCacheCategory};
use nix_core::reclaim::registry::Category;
use nix_core::space::{Manager, ReclaimMethod, Safety};

fn cache(manager: Manager, label: &'static str, bytes: u64) -> CacheFact {
    CacheFact { manager, label, dirs: vec![(format!("/cache/{}", manager.name()), bytes)] }
}

#[test]
fn every_backend_points_at_its_own_cache_directory() {
    for backend in backends() {
        let dir = backend.cache_dir;
        assert!(dir.starts_with('/'), "{dir} must be absolute");
        let expected = match backend.manager {
            Manager::Apt => "apt",
            Manager::Dnf => "dnf",
            Manager::Pacman => "pacman",
            Manager::Zypper => "zypp",
        };
        assert!(
            dir.contains(expected),
            "{:?} points at {dir}, which is not its own cache",
            backend.manager
        );
    }
}

#[test]
fn every_manager_including_zypper_has_a_backend() {
    for manager in [Manager::Apt, Manager::Dnf, Manager::Pacman, Manager::Zypper] {
        assert!(
            backends().iter().any(|b| b.manager == manager),
            "{manager:?} has no backend"
        );
    }
}

#[test]
fn backends_are_distinct_in_manager_capability_and_directory() {
    let mut managers = std::collections::HashSet::new();
    let mut capabilities = std::collections::HashSet::new();
    let mut dirs = std::collections::HashSet::new();
    for backend in backends() {
        assert!(managers.insert(backend.manager), "duplicate manager");
        assert!(
            capabilities.insert(backend.capability),
            "duplicate capability"
        );
        assert!(
            dirs.insert(backend.cache_dir),
            "{} is claimed by two backends",
            backend.cache_dir
        );
    }
}

#[test]
fn caches_are_cleaned_through_the_package_manager_not_by_unlinking() {
    let category = PackageCacheCategory::with(vec![cache(Manager::Apt, "APT package cache", 8192)]);

    let found = category.candidates(false).unwrap();
    assert_eq!(found.len(), 1);
    match &found[0].method {
        ReclaimMethod::PackageManager { manager } => assert_eq!(*manager, Manager::Apt),
        other => panic!("must delegate to the package manager, got {other:?}"),
    }
    // Specifically not an unlink: the manager's index and the directory must not disagree.
    assert!(!matches!(found[0].method, ReclaimMethod::SystemFile { .. }));
}

#[test]
fn package_caches_are_safe_and_state_their_cost() {
    let category = PackageCacheCategory::with(vec![cache(Manager::Apt, "APT package cache", 4096)]);

    let found = category.candidates(false).unwrap();
    assert_eq!(
        found[0].safety,
        Safety::Safe,
        "downloaded packages are re-fetchable with no visible loss"
    );
    assert!(
        found[0].cost.is_some(),
        "even a Safe item should say what happens"
    );
    assert_eq!(
        found[0].cost.as_deref(),
        Some("Downloaded package files are removed. apt will fetch them again if a package needs reinstalling.")
    );
}

#[test]
fn several_managers_on_one_machine_are_all_reported() {
    let category = PackageCacheCategory::with(vec![
        cache(Manager::Apt, "APT package cache", 8192),
        cache(Manager::Dnf, "DNF package cache", 16384),
    ]);

    let found = category.candidates(false).unwrap();
    assert_eq!(found.len(), 2, "a second manager must not be invisible");
}

#[test]
fn an_empty_cache_is_not_offered() {
    let category = PackageCacheCategory::with(vec![cache(Manager::Apt, "APT package cache", 0)]);
    assert!(category.candidates(false).unwrap().is_empty());
}

#[test]
fn a_missing_cache_directory_is_not_an_error() {
    let category = PackageCacheCategory::with(vec![CacheFact {
        manager: Manager::Dnf,
        label: "DNF package cache",
        dirs: vec![],
    }]);
    assert!(category.candidates(false).unwrap().is_empty());
}

#[test]
fn packages_cancellation_is_honoured() {
    assert!(PackageCacheCategory::new().candidates(true).is_err());
}

#[test]
fn candidates_are_ordered_largest_first() {
    let category = PackageCacheCategory::with(vec![
        cache(Manager::Apt, "APT package cache", 4096),
        cache(Manager::Dnf, "DNF package cache", 65536),
    ]);
    let found = category.candidates(false).unwrap();
    assert!(found[0].bytes >= found[1].bytes);
}

#[test]
fn only_managers_that_are_there_are_asked() {
    let caps = Capabilities { found: vec![Capability::Zypper, Capability::Apt] };
    let category = PackageCacheCategory::at(caps, vec![10, 20, 30, 40]);
    assert!(category.available());
    let found = category.candidates(false).unwrap();
    let labels: Vec<&str> = found.iter().map(|c| c.label.as_str()).collect();
    assert_eq!(labels, vec!["zypper package cache", "APT package cache"]);
    assert_eq!(found[0].path, "/var/cache/zypp/packages");

    assert!(!PackageCacheCategory::new().available());
    let other = Capabilities { found: vec![Capability::Docker] };
    assert!(!PackageCacheCategory::at(other, vec![1, 1, 1, 1]).available());
    assert_eq!(cache_bytes(&vec![("/a".to_string(), 3), ("/b".to_string(), 4)]), 7);
}

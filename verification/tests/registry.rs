use nix_core::reclaim::caches::{AppCacheCategory, CacheEntry, CacheListing};
use nix_core::reclaim::defaults::Defaults;
use nix_core::error::AppError;
use nix_core::reclaim::registry::{Category, Registry, TrashCategory, TrashContents};

#[test]
fn the_default_registry_holds_every_implemented_category() {
    let registry = Registry::with_defaults(&Defaults::new(), false);
    assert_eq!(
        registry.ids(),
        vec![
            "trash",
            "app_cache",
            "rotated_logs",
            "journal",
            "package_cache",
            "old_kernels",
            "residual_config",
            "snap_revisions",
            "flatpak_unused",
            "build_artifacts",
            "package_stores",
            "containers"
        ],
    );
    // Trash stays first: it is the one whose consequences a user has already accepted.
    assert_eq!(registry.ids().first(), Some(&"trash"));
}

#[test]
fn every_registered_category_is_self_describing() {
    let registry = Registry::with_defaults(&Defaults::new(), false);
    let mut ids = std::collections::HashSet::new();
    for id in registry.ids() {
        assert!(!id.is_empty());
        assert!(ids.insert(id), "duplicate category id {id}");
        assert!(
            id.chars().all(|c| c.is_ascii_lowercase() || c == '_'),
            "{id} should be a stable snake_case identifier"
        );
    }
    assert_eq!(registry.len(), ids.len());
    for brief in registry.briefs() {
        assert!(!brief.label.is_empty());
        assert!(brief.explains.ends_with('.'), "{}", brief.explains);
    }
}

#[test]
fn candidates_of_all_categories_are_gathered_in_order() {
    let mut d = Defaults::new();
    d.trash = TrashCategory::at(TrashContents { root: "/t".into(), items: 1, bytes: 5 });
    d.caches = AppCacheCategory::at(CacheListing {
        directory: true,
        entries: Some(vec![CacheEntry {
            path: "/c/pip".into(),
            name: "pip".into(),
            directory: true,
            link: false,
            bytes: 9,
        }]),
    });
    let found = Registry::with_defaults(&d, false).collect().unwrap();
    let labels: Vec<&str> = found.iter().map(|c| c.label.as_str()).collect();
    assert_eq!(labels, vec!["Trash (1 item)", "pip"]);
    assert!(Registry::with_defaults(&d, true).collect().is_err());
}

#[test]
fn a_trash_that_cannot_be_found_is_an_error_of_its_own() {
    let category = TrashCategory::unresolved(AppError::internal("no home"));
    assert_eq!(category.candidates(false).unwrap_err().message, "no home");
    let mut d = Defaults::new();
    d.trash = category;
    assert!(Registry::with_defaults(&d, false).collect().unwrap().is_empty());
}

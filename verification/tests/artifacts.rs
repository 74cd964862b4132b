use nix_core::reclaim::artifacts::{
    artifacts, corroborate, definition_for, stores, BuildArtifactCategory, PackageStoreCategory,
    ScanEntry, StoreFact,
};
use nix_core::reclaim::registry::Category;
use nix_core::space::{ReclaimMethod, Safety};

fn names(v: &[&str]) -> Vec<String> {
    v.iter().map(|s| s.to_string()).collect()
}

fn entry(path: &str, allocated: u64, beside: &[&str], inside: &[&str]) -> ScanEntry {
    ScanEntry {
        path: Some(path.to_string()),
        directory: true,
        allocated,
        still_there: true,
        beside: names(beside),
        inside: names(inside),
    }
}

fn store(bytes: u64) -> StoreFact {
    StoreFact { directory: true, cached: None, measured: bytes }
}

const ABSENT: StoreFact = StoreFact { directory: false, cached: None, measured: 0 };

#[test]
fn a_directory_is_never_recognised_by_name_alone() {
    for name in ["build", "target", "dist", "node_modules"] {
        assert!(
            corroborate(&format!("/p/not-a-project/{name}"), &vec![], &vec![]).is_none(),
            "{name} has no marker beside it, so nothing suggests it is generated"
        );
    }
}

#[test]
fn build_needs_a_build_system_beside_it() {
    let build = "/p/proj/build";
    assert!(corroborate(build, &vec![], &vec![]).is_none());

    // A README is not a build system.
    assert!(
        corroborate(build, &names(&["README.md"]), &vec![]).is_none(),
        "an unrelated file must not vouch for it"
    );

    let (tool, marker) =
        corroborate(build, &names(&["README.md", "pubspec.yaml"]), &vec![]).unwrap();
    assert_eq!(marker, "pubspec.yaml");
    assert!(!tool.is_empty());
}

#[test]
fn each_artifact_is_recognised_by_its_own_marker() {
    for (dir, marker) in [
        ("target", "Cargo.toml"),
        ("node_modules", "package.json"),
        (".next", "next.config.ts"),
        (".dart_tool", "pubspec.yaml"),
        ("_build", "mix.exs"),
        (".tox", "tox.ini"),
        ("dist", "vite.config.ts"),
    ] {
        let path = format!("/p/p-{dir}/{dir}");
        assert!(
            corroborate(&path, &vec![], &vec![]).is_none(),
            "{dir} should need {marker}"
        );
        let (_, found) = corroborate(&path, &names(&[marker]), &vec![])
            .unwrap_or_else(|| panic!("{dir} should be recognised by {marker}"));
        assert_eq!(found, marker);
    }
}

#[test]
fn a_virtualenv_is_recognised_from_within() {
    assert!(
        corroborate("/p/.venv", &vec![], &vec![]).is_none(),
        "an empty .venv is not proven"
    );
    assert!(corroborate("/p/.venv", &names(&["pyvenv.cfg"]), &vec![]).is_none());

    let (_, marker) = corroborate("/p/.venv", &vec![], &names(&["pyvenv.cfg"])).unwrap();
    assert_eq!(marker, "pyvenv.cfg");
}

#[test]
fn unambiguous_names_stand_alone_and_others_do_not() {
    for name in ["__pycache__", ".mypy_cache", ".pytest_cache", ".ruff_cache"] {
        assert!(
            corroborate(&format!("/p/{name}"), &vec![], &vec![]).is_some(),
            "{name} is nobody's source directory"
        );
    }
    for name in ["src", "lib", "bin", "obj", "vendor", "assets", "buildings"] {
        assert!(
            corroborate(&format!("/p/{name}"), &vec![], &vec![]).is_none(),
            "{name} must not be treated as an artifact"
        );
    }
}

#[test]
fn names_are_matched_whole() {
    let beside = names(&["Cargo.toml", "package.json"]);
    for name in ["target-old", "node_modules.bak", "__pycache__2", "distribution"] {
        assert!(
            corroborate(&format!("/p/{name}"), &beside, &vec![]).is_none(),
            "{name} is not an artifact directory"
        );
    }
}

#[test]
fn nothing_is_ever_rated_safe() {
    let scan = vec![
        entry("/p/a/target", 10, &["Cargo.toml"], &[]),
        entry("/p/b/__pycache__", 20, &[], &[]),
    ];
    for candidates in [
        BuildArtifactCategory::at(scan).candidates(false),
        PackageStoreCategory::rooted_at("/home/a".into(), vec![store(5); 8]).candidates(false),
    ] {
        let candidates = candidates.unwrap();
        assert!(!candidates.is_empty());
        for c in candidates {
            assert_eq!(
                c.safety,
                Safety::Review,
                "{} must not be pre-checkable: regenerable is not unwanted",
                c.label
            );
            assert!(
                c.cost.as_deref().is_some_and(|s| !s.is_empty()),
                "{} offers no reason for its Review rating",
                c.label
            );
        }
    }
}

#[test]
fn no_store_overlaps_the_application_cache_directory() {
    for store in stores() {
        assert!(
            !std::path::Path::new(store.relative).starts_with(".cache"),
            "{} belongs to the application caches and would be counted twice",
            store.relative
        );
    }
}

#[test]
fn stores_are_found_under_the_given_home() {
    let found = PackageStoreCategory::rooted_at("/home/a".into(), vec![store(8192)])
        .candidates(false)
        .unwrap();
    assert_eq!(found.len(), 1, "{found:?}");
    assert!(found[0].bytes >= 8192);
    assert_eq!(found[0].label, "npm store");
    assert_eq!(found[0].path, "/home/a/.npm/_cacache");
}

#[test]
fn an_empty_store_is_not_offered() {
    let mut seen = vec![ABSENT; 8];
    seen[5] = store(0);
    let found = PackageStoreCategory::rooted_at("/home/a".into(), seen)
        .candidates(false)
        .unwrap();
    assert!(found.is_empty(), "nothing to reclaim from an empty store");
}

#[test]
fn artifacts_cancellation_is_honoured() {
    for result in [
        BuildArtifactCategory::new().candidates(true),
        PackageStoreCategory::new().candidates(true),
    ] {
        match result {
            Err(e) => assert!(!e.is_fault(), "cancellation is not a fault"),
            Ok(found) => assert!(found.is_empty()),
        }
    }
}

#[test]
fn artifact_definitions_are_distinct() {
    let mut seen = std::collections::HashSet::new();
    for a in artifacts() {
        assert!(seen.insert(a.dir), "{} is defined twice", a.dir);
        assert!(!a.cost.is_empty(), "{} must say what it costs", a.dir);
    }
    let mut store_paths = std::collections::HashSet::new();
    for s in stores() {
        assert!(store_paths.insert(s.relative), "{} is listed twice", s.relative);
    }
}

#[test]
fn an_artifact_says_where_it_is_and_what_vouches_for_it() {
    let found = BuildArtifactCategory::at(vec![
        entry("/p/small/node_modules/", 10, &["package.json"], &[]),
        entry("/p/big/target", 99, &["Cargo.toml"], &[]),
        ScanEntry { still_there: false, ..entry("/p/gone/target", 50, &["Cargo.toml"], &[]) },
        ScanEntry { directory: false, ..entry("/p/file/target", 50, &["Cargo.toml"], &[]) },
        ScanEntry { path: None, ..entry("", 50, &["Cargo.toml"], &[]) },
        entry("/p/plain/src", 70, &["Cargo.toml"], &[]),
    ])
    .candidates(false)
    .unwrap();
    assert_eq!(found.len(), 2);
    assert_eq!(found[0].label, "target in big");
    assert_eq!(
        found[0].cost.as_deref(),
        Some("Generated by Cargo, recognised by Cargo.toml. The next `cargo build` will recompile the whole dependency tree.")
    );
    assert!(matches!(&found[0].method, ReclaimMethod::MoveToTrash { path } if path == "/p/big/target"));
    assert_eq!(found[1].label, "node_modules in small");
}

#[test]
fn a_relative_artifact_has_no_parent_to_name() {
    let found = BuildArtifactCategory::at(vec![entry("../target", 1, &["Cargo.toml"], &[])])
        .candidates(false)
        .unwrap();
    assert_eq!(found[0].label, "target in ");
    assert!(corroborate("/p/target/..", &names(&["Cargo.toml"]), &vec![]).is_none());
}

#[test]
fn a_scan_knows_a_store_before_it_is_walked() {
    let fact = StoreFact { directory: true, cached: Some(7), measured: 3 };
    let found = PackageStoreCategory::rooted_at("/h".into(), vec![ABSENT, fact, store(9)])
        .candidates(false)
        .unwrap();
    assert_eq!(found.iter().map(|c| c.bytes).collect::<Vec<_>>(), vec![9, 7]);
    assert_eq!(found[1].path, "/h/.cargo/registry/cache");
    assert!(!BuildArtifactCategory::new().available());
    assert!(!PackageStoreCategory::new().available());
    assert_eq!(definition_for("target").unwrap().tool, "Cargo");
}

use nix_core::error::ErrorCode;
use nix_core::paths::Environment;
use nix_core::pkg::store::{MeasureStore, Stored, STORE_VERSION};
use nix_core::pkg::Measured;
use nix_core::space::Manager;

fn measured(bytes: u64) -> Measured {
    Measured {
        apparent_bytes: bytes,
        disk_bytes: bytes + 4096,
        files: 3,
        directories: 1,
        unreadable: 0,
    }
}

fn fresh(tag: &str) -> MeasureStore {
    MeasureStore::at(format!("/tmp/nix-mstore-{tag}/measured.json"), None)
}

#[test]
fn a_measurement_survives_a_round_trip() {
    let mut store = fresh("roundtrip");
    store.put(Manager::Apt, "bash:amd64", "5.1-6", measured(1000));
    let written = store.to_stored();

    let reopened = MeasureStore::at(store.path().to_string(), Some(written));
    assert_eq!(
        reopened.get(Manager::Apt, "bash:amd64", "5.1-6"),
        Some(measured(1000))
    );
    assert_eq!(reopened.path(), "/tmp/nix-mstore-roundtrip/measured.json");
}

#[test]
fn an_upgraded_package_does_not_return_the_old_measurement() {
    let mut store = fresh("upgrade");
    store.put(Manager::Apt, "bash:amd64", "5.1-6", measured(1000));

    assert_eq!(
        store.get(Manager::Apt, "bash:amd64", "5.1-7"),
        None,
        "a new version must miss, not return the previous size"
    );
}

#[test]
fn architectures_are_stored_separately() {
    let mut store = fresh("arch");
    store.put(Manager::Apt, "libc6:amd64", "2.35", measured(13_594_000));
    store.put(Manager::Apt, "libc6:i386", "2.35", measured(12_482_000));

    assert_ne!(
        store.get(Manager::Apt, "libc6:amd64", "2.35"),
        store.get(Manager::Apt, "libc6:i386", "2.35")
    );
}

#[test]
fn managers_do_not_share_a_namespace() {
    let mut store = fresh("managers");
    store.put(Manager::Apt, "firefox", "1.0", measured(500));

    assert_eq!(
        store.get(Manager::Dnf, "firefox", "1.0"),
        None,
        "one manager's measurement is not another's"
    );
}

#[test]
fn superseded_entries_are_dropped_when_the_inventory_is_seen() {
    let mut store = fresh("retain");
    store.put(Manager::Apt, "bash:amd64", "5.1-6", measured(1000));
    store.put(Manager::Apt, "bash:amd64", "5.1-7", measured(1100));
    store.put(Manager::Dnf, "code", "1.0", measured(2000));
    assert_eq!(store.len(), 3);

    store.retain_current(Manager::Apt, &vec![("bash:amd64".into(), "5.1-7".into())]);

    assert_eq!(store.get(Manager::Apt, "bash:amd64", "5.1-6"), None);
    assert!(store.get(Manager::Apt, "bash:amd64", "5.1-7").is_some());
    assert!(
        store.get(Manager::Dnf, "code", "1.0").is_some(),
        "pruning one manager must not touch another's entries"
    );
    assert_eq!(store.len(), 2);
}

/// What could not be read is handed over as nothing.
#[test]
fn an_unreadable_or_corrupt_store_opens_empty_rather_than_failing() {
    let missing = MeasureStore::at("/nonexistent/nix/measured.json".to_string(), None);
    assert!(missing.is_empty());
    assert_eq!(missing.get(Manager::Apt, "bash", "1"), None);
}

#[test]
fn a_store_from_another_version_is_discarded() {
    let stored = Stored {
        version: STORE_VERSION + 1,
        entries: vec![("Apt/bash:amd64@5.1-6".to_string(), measured(1000))],
    };
    assert!(MeasureStore::at("/tmp/measured.json".to_string(), Some(stored)).is_empty());
}

#[test]
fn the_written_keys_name_manager_package_and_version() {
    let mut store = fresh("keys");
    store.put(Manager::Zypper, "b", "2", measured(2));
    store.put(Manager::Pacman, "a", "1", measured(1));
    let written = store.to_stored();
    assert_eq!(written.version, STORE_VERSION);
    let keys: Vec<&str> = written.entries.iter().map(|(k, _)| k.as_str()).collect();
    assert_eq!(keys, vec!["Pacman/a@1", "Zypper/b@2"]);
}

#[test]
fn the_store_lives_in_the_cache_directory() {
    let env = Environment {
        home: Some("/home/a".to_string()),
        config_home: None,
        state_home: None,
        cache_home: Some("/c".to_string()),
    };
    let path = MeasureStore::discover(&env).unwrap();
    assert!(path.starts_with("/c/"), "{path}");
    assert!(path.ends_with("/measured-packages.json"), "{path}");

    let nowhere = Environment { home: None, config_home: None, state_home: None, cache_home: None };
    let e = MeasureStore::discover(&nowhere).unwrap_err();
    assert_eq!(e.code, ErrorCode::Unsupported);
    assert_eq!(e.message, "Could not work out where to keep measured package sizes.");
    assert_eq!(e.remedy.as_deref(), Some("Set HOME or XDG_CACHE_HOME and try again."));
}

/// An `@` in an identity is not the one that ends it.
#[test]
fn identities_with_separators_in_them_are_kept_apart() {
    let mut store = fresh("separators");
    store.put(Manager::Apt, "a@1", "2", measured(12));
    assert_eq!(store.get(Manager::Apt, "a", "1@2"), None);
    store.put(Manager::Apt, "a", "1@2", measured(34));
    store.put(Manager::Apt, "a%401", "2", measured(56));
    assert_eq!(store.get(Manager::Apt, "a@1", "2"), Some(measured(12)));
    assert_eq!(store.get(Manager::Apt, "a", "1@2"), Some(measured(34)));
    assert_eq!(store.get(Manager::Apt, "a%401", "2"), Some(measured(56)));
    assert_eq!(store.len(), 3);
    let written = store.to_stored();
    let keys: Vec<&str> = written.entries.iter().map(|(k, _)| k.as_str()).collect();
    assert_eq!(keys, vec!["Apt/a%401/2", "Apt/a%401@2", "Apt/a@1@2"]);
    store.put(Manager::Apt, "x/%@", "@/%", measured(78));
    assert_eq!(store.get(Manager::Apt, "x/%@", "@/%"), Some(measured(78)));
    store.retain_current(Manager::Apt, &vec![("a@1".to_string(), "2".to_string())]);
    assert_eq!(store.get(Manager::Apt, "a@1", "2"), Some(measured(12)));
    assert_eq!(store.len(), 1);
}

#[test]
fn pruning_never_adds_and_a_second_pass_changes_nothing() {
    let mut store = fresh("twice");
    store.put(Manager::Apt, "a", "1", measured(1));
    store.put(Manager::Apt, "a", "1", measured(2));
    assert_eq!(store.len(), 1, "the same package again takes no more room");
    store.put(Manager::Apt, "b", "1", measured(3));
    let path = store.path().to_string();
    let current = vec![("a".to_string(), "1".to_string()), ("c".to_string(), "9".to_string())];
    for _ in 0..2 {
        store.retain_current(Manager::Apt, &current);
        assert_eq!(store.len(), 1);
        assert_eq!(store.get(Manager::Apt, "a", "1"), Some(measured(2)));
        assert_eq!(store.path(), path);
    }
    store.retain_current(Manager::Apt, &Vec::new());
    assert!(store.is_empty());
}

/// A percent sign stands for itself, so what was written with one is found.
#[test]
fn an_identity_with_a_percent_sign_is_written_as_it_stands() {
    let stored = Stored {
        version: STORE_VERSION,
        entries: vec![("Apt/a%b@1%2".to_string(), measured(9))],
    };
    let mut store = MeasureStore::at("/tmp/measured.json".to_string(), Some(stored));
    assert_eq!(store.get(Manager::Apt, "a%b", "1%2"), Some(measured(9)));
    store.put(Manager::Dnf, "c%40", "1", measured(5));
    let written = store.to_stored();
    let keys: Vec<&str> = written.entries.iter().map(|(k, _)| k.as_str()).collect();
    assert_eq!(keys, vec!["Apt/a%b@1%2", "Dnf/c%40@1"]);
}

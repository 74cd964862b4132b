use nix_core::paths::{
    base_dir, cache_dir, config_dir, config_home, home_dir, join, resolve, state_dir, Environment,
};

fn environment() -> Environment {
    Environment {
        home: Some("/home/tester".to_string()),
        config_home: Some("/custom/cfg".to_string()),
        state_home: None,
        cache_home: Some("relative".to_string()),
    }
}

/// The directory the desktop owns is not this program's own.
#[test]
fn the_base_config_directory_is_not_nixs_own() {
    let env = environment();
    let base = config_home(&env).unwrap();
    let ours = config_dir(&env).unwrap();
    assert_ne!(base, ours);
    assert_eq!(ours, join(&base, "nix"));
    assert!(!base.ends_with("nix"));
}

#[test]
fn absolute_xdg_value_wins() {
    let got = resolve(Some("/custom/cfg"), Some("/home/tester"), ".config");
    assert_eq!(got.unwrap(), "/custom/cfg/nix");
}

#[test]
fn unset_falls_back_to_home() {
    let got = resolve(None, Some("/home/tester"), ".config");
    assert_eq!(got.unwrap(), "/home/tester/.config/nix");
}

#[test]
fn empty_value_falls_back_to_home() {
    let got = resolve(Some(""), Some("/home/tester"), ".config");
    assert_eq!(got.unwrap(), "/home/tester/.config/nix");
}

#[test]
fn relative_value_is_ignored_per_spec() {
    let got = resolve(Some("relative/path"), Some("/home/tester"), ".config");
    assert_eq!(got.unwrap(), "/home/tester/.config/nix");
}

#[test]
fn no_home_and_no_var_yields_nothing() {
    assert!(resolve(None, None, ".config").is_none());
}

#[test]
fn no_home_but_absolute_var_still_resolves() {
    assert_eq!(
        resolve(Some("/custom/cfg"), None, ".config").unwrap(),
        "/custom/cfg/nix"
    );
}

#[test]
fn every_directory_follows_the_same_rule() {
    let env = environment();
    assert_eq!(state_dir(&env).unwrap(), "/home/tester/.local/state/nix");
    assert_eq!(cache_dir(&env).unwrap(), "/home/tester/.cache/nix");
    assert_eq!(home_dir(&env), Some("/home/tester"));
    assert_eq!(base_dir(None, Some("/h/"), ".config").unwrap(), "/h/.config");

    let nowhere = Environment {
        home: Some(String::new()),
        config_home: None,
        state_home: None,
        cache_home: None,
    };
    assert_eq!(home_dir(&nowhere), None);
    assert_eq!(config_dir(&nowhere), None);
}

#[test]
fn joining_an_absolute_path_replaces_the_base() {
    assert_eq!(join("/a", "b"), "/a/b");
    assert_eq!(join("/a/", "b"), "/a/b");
    assert_eq!(join("", "b"), "b");
    assert_eq!(join("/a", "/b"), "/b");
    assert_eq!(join("/a", ""), "/a/");
}

use nix_core::paths::{self, Environment};
use nix_core::protect::{Guard, Verdict};
use nix_core::settings::Settings;

fn environment() -> Environment {
    Environment {
        home: Some("/home/me".to_string()),
        config_home: None,
        state_home: None,
        cache_home: None,
    }
}

fn guard() -> Guard {
    Guard {
        user: Vec::new(),
        own: Vec::new(),
    }
}

/// The core promise. If any of these ever becomes reclaimable, someone loses a system.
#[test]
fn the_things_that_must_never_be_reclaimed_are_not() {
    let g = guard();
    for path in [
        "/bin/sh",
        "/sbin/init",
        "/usr/bin/rm",
        "/usr/lib/systemd/systemd",
        "/lib/x86_64-linux-gnu/libc.so.6",
        "/lib64/ld-linux-x86-64.so.2",
        "/boot/vmlinuz-6.5.0",
        "/boot/grub/grub.cfg",
        "/efi/EFI/BOOT/BOOTX64.EFI",
        "/etc/passwd",
        "/etc/fstab",
        "/proc/1/status",
        "/sys/block/sda",
        "/dev/sda1",
        "/run/user/1000",
        "/var/lib/dpkg/status",
        "/var/lib/rpm/Packages",
        "/var/lib/pacman/local",
        "/var/lib/mysql/ibdata1",
        "/var/lib/postgresql/16/main",
        "/var/lib/docker/volumes/my-data/_data/db",
        "/media/usb-stick/holiday.jpg",
        "/mnt/backup/archive.tar",
        "/root/.bashrc",
    ] {
        let verdict = g.verdict(path);
        assert!(
            !verdict.is_allowed(),
            "{path} was permitted — this is a system-destroying bug"
        );
        let refusal = verdict.refusal().unwrap();
        assert!(!refusal.reason.is_empty(), "{path} refused with no reason");
    }
}

#[test]
fn credentials_and_version_control_are_protected_wherever_they_appear() {
    let g = guard();
    for path in [
        "/home/me/.ssh/id_ed25519",
        "/home/me/projects/thing/.git/objects/ab/cdef",
        "/home/me/.gnupg/pubring.kbx",
        "/home/me/.password-store/email.gpg",
        "/home/me/work/repo/.hg/store",
        "/tmp/checkout/.svn/wc.db",
    ] {
        assert!(!g.allows(path), "{path} must be protected");
    }
}

/// The bug a string `starts_with` would introduce.
#[test]
fn prefixes_match_whole_components_not_string_prefixes() {
    let g = guard();
    // Protected.
    assert!(!g.allows("/usr/share/doc"));
    // NOT protected: a different directory that merely shares a textual prefix.
    assert!(
        g.allows("/usrdata/archive"),
        "/usrdata is not /usr"
    );
    assert!(
        g.allows("/etcetera/notes"),
        "/etcetera is not /etc"
    );
    assert!(
        g.allows("/bindings/generated"),
        "/bindings is not /bin"
    );
    assert!(
        g.allows("/media-server/films"),
        "/media-server is not /media"
    );
}

#[test]
fn ordinary_user_files_and_caches_are_allowed() {
    let g = guard();
    for path in [
        "/home/me/.cache/mozilla/firefox/abc.default",
        "/home/me/Downloads/big.iso",
        "/home/me/projects/thing/target/debug",
        "/var/cache/apt/archives/foo.deb",
        "/var/log/syslog.1.gz",
        "/tmp/scratch",
    ] {
        assert!(g.allows(path), "{path} should be reclaimable");
    }
}

#[test]
fn the_filesystem_root_is_refused() {
    assert!(!guard().allows("/"));
}

#[test]
fn traversal_and_relative_paths_are_refused() {
    let g = guard();
    // Traversal could resolve anywhere, so it is refused rather than resolved — resolving and
    // then checking is a time-of-check/time-of-use race.
    let verdict = g.verdict("/home/me/../../etc/shadow");
    assert_eq!(verdict.refusal().unwrap().rule, "traversal");

    let verdict = g.verdict("home/me/cache");
    assert_eq!(verdict.refusal().unwrap().rule, "relative_path");
}

#[test]
fn user_exclusions_are_honoured_and_named_in_the_reason() {
    let g = Guard {
        user: vec!["/srv/important".to_string()],
        own: Vec::new(),
    };
    assert!(!g.allows("/srv/important/data/file"));
    let refusal = g
        .verdict("/srv/important")
        .refusal()
        .unwrap()
        .clone();
    assert_eq!(refusal.rule, "user_exclusion");
    assert!(
        refusal.reason.contains("/srv/important"),
        "a user should see which of their rules applied: {}",
        refusal.reason
    );
    // A sibling is unaffected.
    assert!(g.allows("/srv/important-other/data"));
}

#[test]
fn nix_does_not_reclaim_its_own_state() {
    let g = Guard {
        user: Vec::new(),
        own: vec!["/home/me/.cache/nix".to_string()],
    };
    assert!(!g.allows("/home/me/.cache/nix/scans/abc.json"));
    assert_eq!(
        g.verdict("/home/me/.cache/nix")
            .refusal()
            .unwrap()
            .rule,
        "nix_state"
    );
    // The rest of the cache directory is still fair game.
    assert!(g.allows("/home/me/.cache/other-app/blob"));
}

#[test]
fn a_real_guard_protects_its_own_directories() {
    let env = environment();
    let g = Guard::new(Vec::new(), &env);
    let cache = paths::cache_dir(&env).unwrap();
    assert!(
        !g.allows(&paths::join(&cache, "scans")),
        "nix must not reclaim its own cache"
    );
    let config = paths::config_dir(&env).unwrap();
    assert!(!g.allows(&paths::join(&config, "settings.json")));
}

#[test]
fn partition_splits_and_explains() {
    let g = Guard {
        user: vec!["/srv/keep".to_string()],
        own: Vec::new(),
    };
    let (allowed, refused) = g.partition(vec![
        "/home/me/.cache/a".to_string(),
        "/etc/passwd".to_string(),
        "/srv/keep/x".to_string(),
        "/home/me/.cache/b".to_string(),
    ]);
    assert_eq!(allowed.len(), 2);
    assert_eq!(refused.len(), 2);
    let rules: Vec<&str> = refused.iter().map(|r| r.rule.as_str()).collect();
    assert!(rules.contains(&"configuration"));
    assert!(rules.contains(&"user_exclusion"));
}

#[test]
fn built_in_rules_are_listable_and_every_one_explains_itself() {
    let rules = Guard::built_in_rules();
    assert!(rules.len() > 20, "the list should be substantial");
    for r in &rules {
        assert!(!r.reason.is_empty(), "{} has no reason", r.rule);
        assert!(!r.rule.is_empty());
        assert!(
            r.reason.ends_with('.'),
            "reasons are shown to users, so they read as sentences: {:?}",
            r.reason
        );
    }
}

#[test]
fn settings_configure_the_guard() {
    let settings = Settings {
        protected_paths: vec!["/data/archive".to_string()],
    };
    let g = Guard::from_settings(&settings, &environment());
    assert!(!g.allows("/data/archive/2024"));
}

/// Redundant separators and dots name the same directory, so they change
/// nothing about what is protected.
#[test]
fn spelling_a_path_differently_does_not_get_round_a_rule() {
    let g = guard();
    for path in ["//etc///passwd", "/./etc/./passwd", "/etc/", "/usr/."] {
        assert!(!g.allows(path), "{path} must be protected");
    }
    assert_eq!(g.verdict("//").refusal().unwrap().rule, "filesystem_root");
    assert_eq!(g.verdict("").refusal().unwrap().rule, "relative_path");
    // A dotted name is not a dot.
    assert!(g.allows("/home/me/.../x"));
}

#[test]
fn rules_apply_in_order() {
    let g = Guard {
        user: vec!["/home/me".to_string()],
        own: vec!["/home/me/.cache/nix".to_string()],
    };
    assert_eq!(
        g.verdict("/home/me/.cache/nix/.git").refusal().unwrap().rule,
        "version_control"
    );
    assert_eq!(g.verdict("/home/me/.cache/nix/a").refusal().unwrap().rule, "nix_state");
    match g.verdict("/home/me/notes") {
        Verdict::Protected(r) => {
            assert_eq!(r.rule, "user_exclusion");
            assert_eq!(r.reason, "You excluded /home/me.");
            assert_eq!(r.path, "/home/me/notes");
        }
        Verdict::Allowed => panic!("an excluded path was allowed"),
    }
}

/// Whatever lies below a refused directory is refused too.
#[test]
fn a_refusal_covers_the_subtree() {
    let g = Guard {
        user: vec!["/srv/keep".to_string()],
        own: Vec::new(),
    };
    for outer in ["/etc", "/srv/keep", "/home/me/.ssh"] {
        assert!(!g.allows(outer));
        assert!(!g.allows(&paths::join(outer, "a/b/c")));
    }
}

/// An exclusion of nothing excludes everything, as an empty prefix does.
#[test]
fn an_empty_exclusion_covers_everything() {
    let g = Guard {
        user: vec![String::new()],
        own: Vec::new(),
    };
    assert!(!g.allows("/tmp/scratch"));
}

#[test]
fn own_directories_come_from_the_environment() {
    let g = Guard::new(vec!["/x".to_string()], &environment());
    assert_eq!(g.user, vec!["/x".to_string()]);
    assert_eq!(
        g.own,
        vec![
            "/home/me/.config/nix".to_string(),
            "/home/me/.local/state/nix".to_string(),
            "/home/me/.cache/nix".to_string(),
        ]
    );
}

/// What a rule lists is refused by that very rule.
#[test]
fn every_built_in_rule_answers_for_what_it_lists() {
    let g = Guard { user: vec!["/".to_string()], own: vec!["/".to_string()] };
    for r in Guard::built_in_rules() {
        let path = if r.path.starts_with('/') {
            r.path.clone()
        } else {
            format!("/home/me/{}", r.path)
        };
        let verdict = g.verdict(&path);
        let refusal = verdict.refusal().unwrap();
        assert_eq!((&refusal.rule, &refusal.reason), (&r.rule, &r.reason), "{path}");
        let below = format!("{path}/deep/er");
        let verdict = g.verdict(&below);
        assert_eq!(verdict.refusal().unwrap().reason, r.reason, "{below}");
    }
}

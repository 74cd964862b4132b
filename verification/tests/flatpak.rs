use nix_core::pkg::flatpak::{
    installed, installed_query, measure_tree, parse_list, repository_dir, repository_size,
    unused_runtimes, user_root, Ref, RefKind, TreeFact, TreeSize, SYSTEM_ROOT,
};
use nix_core::space::Reclaimable;

/// Tabs between the columns, with the runtime column empty for runtimes.
const LIST: &str = "\
app/org.gnome.Calculator/x86_64/stable\truntime/org.gnome.Platform/x86_64/45\n\
runtime/org.gnome.Platform/x86_64/45\t\n\
runtime/org.freedesktop.Platform/x86_64/23.08\t\n\
runtime/org.freedesktop.Platform.GL.default/x86_64/23.08\t\n\
runtime/org.gnome.Platform.Locale/x86_64/45\t\n\
";

#[test]
fn refs_are_parsed_into_their_parts() {
    let refs = parse_list(LIST);
    assert_eq!(refs.len(), 5);

    assert_eq!(refs[0].kind, RefKind::App);
    assert_eq!(refs[0].id, "org.gnome.Calculator");
    assert_eq!(refs[0].arch, "x86_64");
    assert_eq!(refs[0].branch, "stable");
    assert_eq!(refs[0].runtime, "runtime/org.gnome.Platform/x86_64/45");

    assert_eq!(refs[1].kind, RefKind::Runtime);
    assert!(refs[1].runtime.is_empty());
}

#[test]
fn a_malformed_ref_is_dropped_rather_than_guessed_at() {
    assert!(Ref::parse("nonsense", "").is_none());
    assert!(Ref::parse("app/", "").is_none(), "an empty id is not a ref");
    assert!(parse_list("\n\n  \n").is_empty());
}

#[test]
fn a_runtime_an_installed_app_needs_is_never_offered() {
    let unused = unused_runtimes(&parse_list(LIST));
    assert!(
        !unused.iter().any(|r| r.id == "org.gnome.Platform"),
        "the Calculator needs it"
    );
}

#[test]
fn an_extension_of_a_needed_runtime_is_never_offered() {
    let unused = unused_runtimes(&parse_list(LIST));
    assert!(
        !unused.iter().any(|r| r.id == "org.gnome.Platform.Locale"),
        "removing the Locale extension of a runtime in use would break it"
    );
}

#[test]
fn a_genuinely_unreferenced_runtime_is_offered() {
    let unused = unused_runtimes(&parse_list(LIST));
    let ids: Vec<&str> = unused.iter().map(|r| r.id.as_str()).collect();
    assert!(ids.contains(&"org.freedesktop.Platform"), "{ids:?}");
    assert!(
        ids.contains(&"org.freedesktop.Platform.GL.default"),
        "its parent is unused too, so the extension goes with it: {ids:?}"
    );
    assert_eq!(unused.len(), 2, "{ids:?}");
}

#[test]
fn extension_matching_respects_the_dot() {
    let r = Ref::parse("runtime/org.freedesktop.PlatformOther/x86_64/1", "").unwrap();
    assert!(
        !r.extends("org.freedesktop.Platform"),
        "PlatformOther is a different runtime, not an extension"
    );

    let ext = Ref::parse("runtime/org.freedesktop.Platform.GL/x86_64/1", "").unwrap();
    assert!(ext.extends("org.freedesktop.Platform"));
    assert!(
        !ext.extends("org.freedesktop.Platform.GL"),
        "a ref does not extend itself"
    );
}

#[test]
fn every_runtime_is_offered_when_no_app_is_installed() {
    let only_runtimes = parse_list(
        "runtime/org.gnome.Platform/x86_64/45\t\nruntime/org.kde.Platform/x86_64/6.6\t\n",
    );
    assert_eq!(unused_runtimes(&only_runtimes).len(), 2);
}

#[test]
fn deploy_directories_are_built_from_the_ref() {
    let r = Ref::parse("runtime/org.gnome.Platform/x86_64/45", "").unwrap();
    assert_eq!(
        r.deploy_dir("/var/lib/flatpak"),
        "/var/lib/flatpak/runtime/org.gnome.Platform/x86_64/45"
    );
}

#[test]
fn user_installations_follow_xdg_then_home() {
    assert_eq!(
        user_root(Some("/x/data"), Some("/home/a")),
        Some("/x/data/flatpak".to_string())
    );
    assert_eq!(
        user_root(None, Some("/home/a")),
        Some("/home/a/.local/share/flatpak".to_string())
    );
    assert_eq!(
        user_root(Some(""), Some("/home/a")),
        Some("/home/a/.local/share/flatpak".to_string()),
        "an empty variable is unset, not a root at /flatpak"
    );
    assert_eq!(user_root(None, None), None);
}

fn name(inode: u64, blocks: u64, links: u64) -> TreeFact {
    TreeFact { device: 1, inode, blocks, links }
}

#[test]
fn a_tree_with_no_outside_links_measures_exactly() {
    let size = measure_tree(&vec![name(10, 8, 1), name(11, 8, 1)]);
    assert!(size.bytes >= 8192, "{size:?}");
    assert_eq!(size.shared_files, 0);
    assert_eq!(size.reclaimable("runtime"), Reclaimable::Exact);
}

/// The deployment is a hard link, and the object lives elsewhere.
#[test]
fn a_link_out_of_the_tree_makes_the_estimate_an_upper_bound() {
    let size = measure_tree(&vec![name(10, 16, 2)]);
    assert_eq!(size.shared_files, 1, "the repository link must be noticed");

    let verdict = size.reclaimable("runtime");
    assert_eq!(
        verdict.promisable(size.bytes),
        0,
        "uninstalling does not free an object the repository still holds"
    );
    assert!(verdict.caveat().unwrap().contains("pruned"));
}

/// Two links inside the tree are one file, and nothing is shared outside.
#[test]
fn links_within_the_tree_are_counted_once_and_are_not_shared() {
    let size = measure_tree(&vec![name(10, 16, 2), name(10, 16, 2)]);
    assert!(size.bytes < 16384, "one inode, counted once: {size:?}");
    assert_eq!(size.bytes, 8192);
    assert_eq!(
        size.shared_files, 0,
        "both links are inside the tree, so removing it frees the space"
    );
    assert_eq!(size.reclaimable("runtime"), Reclaimable::Exact);
}

#[test]
fn a_missing_directory_measures_zero_rather_than_failing() {
    assert_eq!(measure_tree(&vec![]), TreeSize::default());
}

/// A link takes no blocks, and what it points at is not looked at.
#[test]
fn a_symlinked_directory_is_not_followed() {
    let size = measure_tree(&vec![name(12, 0, 1)]);
    assert_eq!(
        size.bytes, 0,
        "following a symlink would attribute another directory's bytes here: {size:?}"
    );
}

#[test]
fn this_machines_flatpak_state_is_consistent() {
    let refs = installed(LIST);

    // Whatever is installed, nothing an app needs may be offered.
    let unused = unused_runtimes(&refs);
    for runtime in &unused {
        assert!(runtime.kind == RefKind::Runtime, "only runtimes are offered");
        let needed_by_app = refs
            .iter()
            .any(|r| r.kind == RefKind::App && r.runtime == runtime.reference);
        assert!(!needed_by_app, "{} is in use", runtime.reference);
    }

    // The repository exists independently of what is installed.
    assert_eq!(repository_dir(SYSTEM_ROOT), "/var/lib/flatpak/repo");
    let repo = repository_size(&vec![name(20, 24, 1)]);
    assert!(repo.bytes > 0, "a repository that holds objects takes space");
}

#[test]
fn the_reason_counts_the_shared_files() {
    let size = TreeSize { bytes: 10, shared_files: 3 };
    assert_eq!(
        size.reclaimable("app").caveat().unwrap(),
        "3 files of this app is hard-linked into flatpak's repository, so the space returns only \
         when that repository is pruned."
    );
    let one = TreeSize { bytes: 10, shared_files: 1 };
    assert!(one.reclaimable("app").caveat().unwrap().starts_with("Part of this app"));
}

#[test]
fn a_short_ref_has_no_arch_or_branch() {
    let r = Ref::parse("app/org.example.A", "").unwrap();
    assert_eq!((r.arch.as_str(), r.branch.as_str()), ("", ""));
    assert_eq!(installed_query().args, vec!["list", "--columns=ref,runtime"]);
}

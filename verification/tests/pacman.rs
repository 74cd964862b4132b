use nix_core::caps::{Capabilities, Capability};
use nix_core::pkg::pacman::{
    parse_file_list, parse_installed, parse_removal_simulation, parse_size, PacmanBackend,
};
use nix_core::pkg::{backends, Backend, PathFact, RemovalPreview};
use nix_core::space::Manager;

const QI_OUTPUT: &str = "\
Name            : bash
Version         : 5.2.026-2
Description     : The GNU Bourne Again shell
Architecture    : x86_64
URL             : https://www.gnu.org/software/bash/bash.html
Licenses        : GPL3
Groups          : None
Provides        : sh
Depends On      : readline  libreadline.so=8-64  glibc  ncurses
Optional Deps   : bash-completion: programmable completion [installed]
Required By     : ca-certificates-utils  dbus  filesystem
Optional For    : None
Conflicts With  : None
Replaces        : None
Installed Size  : 8.65 MiB
Packager        : Frederik Schwan <freswa@archlinux.org>
Build Date      : Wed 01 May 2024 10:00:00 AM UTC
Install Date    : Thu 02 May 2024 11:00:00 AM UTC
Install Reason  : Installed as a dependency for another package
Install Script  : No
Validated By    : Signature

Name            : linux
Version         : 6.8.9.arch1-1
Description     : The Linux kernel and modules
Architecture    : x86_64
Installed Size  : 138.24 MiB
Install Reason  : Explicitly installed
Validated By    : Signature

Name            : tiny
Version         : 1.0-1
Description     : A very small package
Architecture    : any
Installed Size  : 512.00 B
Install Reason  : Explicitly installed
";

#[test]
fn packages_are_parsed_from_the_block_format() {
    let packages = parse_installed(QI_OUTPUT);
    assert_eq!(packages.len(), 3);

    let bash = &packages[0];
    assert_eq!(bash.name, "bash");
    assert_eq!(bash.version, "5.2.026-2");
    assert_eq!(bash.arch, "x86_64");
    assert_eq!(bash.summary, "The GNU Bourne Again shell");
    assert_eq!(bash.manager, Manager::Pacman);
    assert_eq!(bash.id, "bash:x86_64");
}

#[test]
fn the_install_reason_distinguishes_explicit_from_dependency() {
    let packages = parse_installed(QI_OUTPUT);
    assert!(!packages[0].explicit, "bash was installed as a dependency");
    assert!(packages[1].explicit, "the kernel was explicitly installed");
}

#[test]
fn sizes_are_read_as_binary_units() {
    assert_eq!(parse_size("8.65 MiB"), (8.65 * 1024.0 * 1024.0) as u64);
    assert_eq!(parse_size("138.24 MiB"), (138.24 * 1024.0 * 1024.0) as u64);
    assert_eq!(parse_size("512.00 B"), 512);
    assert_eq!(parse_size("1.00 GiB"), 1024 * 1024 * 1024);
    assert_eq!(parse_size("4.00 KiB"), 4096);

    // The mistake this guards against, stated as a number.
    let mib = parse_size("100.00 MiB");
    assert_ne!(mib, 100_000_000, "MiB is not a million");
    assert_eq!(mib, 104_857_600);
}

#[test]
fn a_malformed_size_is_zero_rather_than_a_panic() {
    for bad in ["", "   ", "unknown", "MiB", "-", "1.2.3 MiB"] {
        let _ = parse_size(bad); // must not panic
    }
    assert_eq!(parse_size(""), 0);
    assert_eq!(parse_size("unknown"), 0);
}

#[test]
fn the_parsed_sizes_match_the_blocks_they_came_from() {
    let packages = parse_installed(QI_OUTPUT);
    assert_eq!(packages[2].name, "tiny");
    assert_eq!(packages[2].recorded_bytes, 512);
}

#[test]
fn stray_blank_lines_do_not_produce_empty_packages() {
    let output = format!("\n\n{QI_OUTPUT}\n\n\n");
    assert_eq!(parse_installed(&output).len(), 3);
    assert!(parse_installed("\n\n\n").is_empty());
    assert!(parse_installed("").is_empty());
}

#[test]
fn a_removal_simulation_strips_the_version_from_each_target() {
    let output = "\
bash-5.2.026-2
nano-default-editor-7.2-4
linux-6.8.9.arch1-1
";
    let preview = parse_removal_simulation(output);
    assert_eq!(
        preview.removing,
        vec!["bash", "nano-default-editor", "linux"],
        "pacman appends `-version-release`, and a name may itself contain hyphens"
    );
}

#[test]
fn warnings_and_progress_lines_are_not_package_names() {
    let output = ":: some informational line\nwarning: something happened\nbash-5.2.026-2\n";
    assert_eq!(parse_removal_simulation(output).removing, vec!["bash"]);
}

#[test]
fn pacman_an_empty_selection_runs_no_command() {
    let backend = PacmanBackend::new();
    assert!(backend.removal_query(&vec![]).is_none());
    assert_eq!(backend.removal_preview(None), RemovalPreview::default());
}

#[test]
fn pacman_is_not_available_on_a_machine_without_it() {
    for found in [vec![], vec![Capability::Apt]] {
        let caps = Capabilities { found };
        assert!(!backends(&caps).iter().any(|m| *m == Manager::Pacman));
    }
}

#[test]
fn pacman_is_asked_by_name() {
    let backend = PacmanBackend::new();
    assert_eq!(backend.manager(), Manager::Pacman);
    assert_eq!(backend.installed_query().args, vec!["-Qi"]);
    let q = backend.removal_query(&vec!["bash".to_string(), "nano".to_string()]).unwrap();
    assert_eq!(q.program, "pacman");
    assert_eq!(q.args, vec!["-Rp", "bash", "nano"]);
    assert_eq!(backend.files_query("bash").args, vec!["-Ql", "bash"]);
    let caps = Capabilities { found: vec![Capability::Pacman] };
    assert!(backend.available(&caps));
    assert_eq!(backend.measure("bash", Some(&vec![PathFact::Directory])).unwrap().directories, 1);
    assert!(backend.measure("bash", None).is_err());
    assert!(backend.residual_config(&vec![]).is_empty());
}

#[test]
fn a_continued_field_is_not_a_new_one() {
    let packages = parse_installed(
        "Name : a\nDepends On : b\n                 c: d\nVersion : 1\nNAME : z\n",
    );
    assert_eq!(packages.len(), 1);
    assert_eq!((packages[0].name.as_str(), packages[0].version.as_str()), ("a", "1"));
}

#[test]
fn a_file_list_is_read_behind_the_package_name() {
    assert_eq!(
        parse_file_list("bash /usr/bin/bash\nbash /usr/share/a b\nnothing\n"),
        vec!["/usr/bin/bash", "/usr/share/a b"]
    );
}

#[test]
fn a_target_with_nothing_before_its_version_is_kept_whole() {
    assert_eq!(parse_removal_simulation("-1-2\nplain\none-two\n").removing, vec!["-1-2", "plain", "one-two"]);
}

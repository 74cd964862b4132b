use nix_core::caps::{Capabilities, Capability};
use nix_core::error::ErrorCode;
use nix_core::pkg::rpm::{
    files_query, known_tags, parse_file_list, parse_installed, parse_removal_simulation,
    parse_size_phrase, DnfBackend, ZypperBackend, INSTALLED_QUERY, QUERY_TAGS,
};
use nix_core::pkg::{backends, Backend, PathFact, RemovalPreview};
use nix_core::space::Manager;

const RPM_OUTPUT: &str = "\
bash\tx86_64\t(none):5.2.26-3.fc40\t8388608\tThe GNU Bourne Again shell
glibc\tx86_64\t2:2.39-13.fc40\t6291456\tThe GNU libc libraries
kernel-core\tx86_64\t(none):6.8.9-300.fc40\t134217728\tThe Linux kernel
python3-pip\tnoarch\t0:24.0-1.fc40\t12582912\tA tool for installing Python packages
tab-in-summary\tnoarch\t(none):1.0-1\t1024\ta summary\twith a tab in it
";

#[test]
fn every_tag_the_query_names_is_one_rpm_understands() {
    let listed = "ARCH\nARCHIVESIZE\nEPOCH\n\nLONGSIZE\nNAME\nRELEASE\nSUMMARY\n VERSION \n";
    let tags = known_tags(listed);
    assert_eq!(tags.len(), 8);
    for tag in QUERY_TAGS {
        assert!(
            tags.get(tag).is_some(),
            "rpm does not know the tag {tag}, so this query would return empty fields silently"
        );
        assert!(INSTALLED_QUERY.contains(tag));
    }
}

#[test]
fn the_query_uses_the_wide_size_tag() {
    assert!(INSTALLED_QUERY.contains("LONGSIZE"));
    assert!(
        !INSTALLED_QUERY.contains("%{SIZE}"),
        "the 32-bit SIZE tag wraps silently"
    );
}

#[test]
fn installed_packages_are_parsed_with_their_sizes() {
    let packages = parse_installed(RPM_OUTPUT, Manager::Dnf);
    assert_eq!(packages.len(), 5);

    let bash = packages.iter().find(|p| p.name == "bash").unwrap();
    assert_eq!(bash.arch, "x86_64");
    assert_eq!(bash.id, "bash:x86_64");
    assert_eq!(
        bash.recorded_bytes,
        8 * 1024 * 1024,
        "rpm reports bytes, unlike dpkg's kibibytes"
    );
    assert_eq!(bash.manager, Manager::Dnf);
    assert_eq!(bash.summary, "The GNU Bourne Again shell");
}

#[test]
fn epochs_are_shown_only_when_they_mean_something() {
    let packages = parse_installed(RPM_OUTPUT, Manager::Dnf);
    let find = |name: &str| {
        packages
            .iter()
            .find(|p| p.name == name)
            .unwrap()
            .version
            .clone()
    };

    assert_eq!(find("bash"), "5.2.26-3.fc40", "(none): is stripped");
    assert_eq!(
        find("python3-pip"),
        "24.0-1.fc40",
        "a zero epoch is stripped"
    );
    assert_eq!(find("glibc"), "2:2.39-13.fc40", "a real epoch is kept");
}

#[test]
fn a_tab_in_a_summary_cannot_corrupt_another_field() {
    let packages = parse_installed(RPM_OUTPUT, Manager::Dnf);
    let odd = packages
        .iter()
        .find(|p| p.name == "tab-in-summary")
        .unwrap();

    assert_eq!(odd.recorded_bytes, 1024);
    assert_eq!(odd.summary, "a summary with a tab in it");
}

#[test]
fn the_manager_label_follows_the_front_end_not_the_database() {
    assert_eq!(
        parse_installed(RPM_OUTPUT, Manager::Zypper)[0].manager,
        Manager::Zypper,
        "the same rpm database, reported under whichever manager asked"
    );
}

#[test]
fn a_file_list_ignores_rpms_prose_for_an_empty_package() {
    let output = "/usr/bin/thing\n/usr/share/doc/thing/README\n";
    assert_eq!(parse_file_list(output).len(), 2);

    assert!(
        parse_file_list("(contains no files)\n").is_empty(),
        "prose is not a path"
    );
}

#[test]
fn a_dnf_removal_summary_yields_the_packages_going() {
    let output = "\
Dependencies resolved.
================================================================================
 Package             Architecture   Version            Repository        Size
================================================================================
Removing:
 nano                x86_64         7.2-4.fc40         @fedora          2.4 M
Removing unused dependencies:
 nano-default-editor noarch         7.2-4.fc40         @fedora          8.0 k

Transaction Summary
================================================================================
Remove  2 Packages

Freed space: 2.4 M
Operation aborted.
";
    let preview = parse_removal_simulation(output);
    assert_eq!(preview.removing, vec!["nano", "nano-default-editor"]);
    assert_eq!(preview.freed_bytes, (2.4 * 1024.0 * 1024.0) as u64);
}

#[test]
fn a_package_mentioned_outside_the_removal_section_is_not_counted() {
    let output = "\
Problem: conflicting requests
  - nothing provides libfoo needed by bar-1.0
Removing:
 nano                x86_64         7.2-4.fc40         @fedora          2.4 M

Transaction Summary
Remove  1 Package
";
    let preview = parse_removal_simulation(output);
    assert_eq!(
        preview.removing,
        vec!["nano"],
        "only the removal section counts: {:?}",
        preview.removing
    );
}

#[test]
fn size_phrases_are_read_as_binary_units() {
    assert_eq!(parse_size_phrase(" 2.4 M"), (2.4 * 1024.0 * 1024.0) as u64);
    assert_eq!(parse_size_phrase("512 k"), 512 * 1024);
    assert_eq!(
        parse_size_phrase("1.5 GiB"),
        (1.5 * 1024.0 * 1024.0 * 1024.0) as u64
    );
    assert_eq!(parse_size_phrase("900"), 900, "no unit means bytes");
    assert_eq!(parse_size_phrase(""), 0);
    assert_eq!(parse_size_phrase("nonsense"), 0, "and never a panic");
}

#[test]
fn rpm_an_empty_selection_runs_no_command() {
    assert!(DnfBackend::new().removal_query(&vec![]).is_none());
    assert_eq!(DnfBackend::new().removal_preview(None), RemovalPreview::default());
    assert!(ZypperBackend::new().removal_query(&vec![]).is_none());
    assert_eq!(ZypperBackend::new().removal_preview(None), RemovalPreview::default());
}

#[test]
fn a_backend_whose_tool_is_absent_is_not_available() {
    for found in [vec![], vec![Capability::Apt]] {
        let found = backends(&Capabilities { found });
        assert!(
            !found.iter().any(|m| *m == Manager::Dnf || *m == Manager::Zypper),
            "an absent manager must not appear in the backend list"
        );
    }
}

#[test]
fn the_front_ends_differ_in_how_they_simulate() {
    let names = vec!["nano".to_string()];
    let dnf = DnfBackend::new().removal_query(&names).unwrap();
    assert_eq!((dnf.program, dnf.args), ("dnf", vec!["remove".to_string(), "--assumeno".into(), "nano".into()]));
    let zypper = ZypperBackend::new().removal_query(&names).unwrap();
    assert_eq!(zypper.program, "zypper");
    assert_eq!(zypper.args, vec!["--non-interactive", "remove", "--dry-run", "nano"]);
    assert_eq!(DnfBackend::new().installed_query(), ZypperBackend::new().installed_query());
    assert_eq!(DnfBackend::new().manager(), Manager::Dnf);
    assert_eq!(ZypperBackend::new().manager(), Manager::Zypper);
}

#[test]
fn a_package_without_files_is_an_error() {
    let e = DnfBackend::new().measure("ghost", Some(&vec![])).unwrap_err();
    assert_eq!(e.code, ErrorCode::NotFound);
    assert_eq!(e.message, "rpm lists no files for ghost.");
    let file = PathFact::File { device: 1, inode: 2, length: 100, blocks: 8 };
    assert_eq!(ZypperBackend::new().measure("one", Some(&vec![file])).unwrap().disk_bytes, 4096);
    let unlisted = ZypperBackend::new().measure("one", None).unwrap_err();
    assert_eq!(unlisted.code, ErrorCode::Unsupported);
    assert_eq!(unlisted.message, "This package manager cannot list a package's files.");
    assert!(DnfBackend::new().residual_config(&vec![]).is_empty());
    let dnf = Capabilities { found: vec![Capability::Dnf] };
    assert!(DnfBackend::new().available(&dnf));
    assert!(!ZypperBackend::new().available(&dnf));
    assert_eq!(files_query("one").args, vec!["-ql", "one"]);
}

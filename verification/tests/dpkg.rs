use nix_core::caps::{Capabilities, Capability};
use nix_core::pkg::dpkg::{
    conffile_bytes, fill_changed_at, kernel_sets, list_file, name_of, no_file_list, parse_conffiles,
    parse_file_list, parse_installed, parse_removal_simulation, parse_residual_names,
    parse_size_phrase, removable_kernels, residual_config, running_kernel, DpkgBackend,
    KernelVersion, Leftover, INSTALLED_QUERY,
};
use nix_core::pkg::{Backend, Package, PathFact, RemovalPreview};
use nix_core::space::Manager;
use std::cmp::Ordering;

/// From a running Ubuntu 22.04, in the field order of the query. `libc6` appears
/// twice, for two architectures.
const REAL_DPKG_OUTPUT: &str = "\
linux-headers-5.15.0-190\tamd64\t5.15.0-190.200\t76518\tinstalled\tinstall\tHeader files related to Linux kernel version 5.15.0
linux-headers-5.15.0-190-generic\tamd64\t5.15.0-190.200\t24696\tinstalled\tinstall\tLinux kernel headers for version 5.15.0 on 64 bit x86 SMP
linux-headers-6.8.0-136-generic\tamd64\t6.8.0-136.136~22.04.1\t28744\tinstalled\tinstall\tLinux kernel headers for version 6.8.0 on 64 bit x86 SMP
linux-headers-6.8.0-138-generic\tamd64\t6.8.0-138.138~22.04.1\t28745\tinstalled\tinstall\tLinux kernel headers for version 6.8.0 on 64 bit x86 SMP
linux-headers-generic\tamd64\t5.15.0.190.169\t22\tinstalled\tinstall\tGeneric Linux kernel headers
linux-headers-generic-hwe-22.04\tamd64\t6.8.0-138.138~22.04.1\t24\tinstalled\tinstall\tGeneric Linux kernel headers
linux-image-6.8.0-136-generic\tamd64\t6.8.0-136.136~22.04.1\t14892\tinstalled\tinstall\tSigned kernel image generic
linux-image-6.8.0-138-generic\tamd64\t6.8.0-138.138~22.04.1\t14893\tinstalled\tinstall\tSigned kernel image generic
linux-modules-6.8.0-136-generic\tamd64\t6.8.0-136.136~22.04.1\t98304\tinstalled\tinstall\tLinux kernel extra modules for version 6.8.0 on 64 bit x86 SMP
linux-modules-6.8.0-138-generic\tamd64\t6.8.0-138.138~22.04.1\t98310\tinstalled\tinstall\tLinux kernel extra modules for version 6.8.0 on 64 bit x86 SMP
linux-modules-extra-6.8.0-138-generic\tamd64\t6.8.0-138.138~22.04.1\t221184\tinstalled\tinstall\tLinux kernel extra modules for version 6.8.0 on 64 bit x86 SMP
linux-image-5.15.0-130-generic\tamd64\t5.15.0-130.140~20.04.1\t11337\tconfig-files\tdeinstall\tSigned kernel image generic
firefox\tamd64\t1:1snap1-0ubuntu5\t228\tinstalled\tinstall\tTransitional package - firefox -> firefox snap
bridge-utils\tamd64\t1.7.1-1ubuntu2\t105\tconfig-files\tdeinstall\tUtilities for configuring the Linux Ethernet bridge
libc6\tamd64\t2.35-0ubuntu3.11\t13594\tinstalled\tinstall\tGNU C Library: Shared libraries
libc6\ti386\t2.35-0ubuntu3.11\t12482\tinstalled\tinstall\tGNU C Library: Shared libraries
";

/// The kernel this fixture is from.
const RUNNING: &str = "6.8.0-138-generic";

// ---- parsing ----

#[test]
fn installed_packages_are_parsed_from_real_output() {
    let packages = parse_installed(REAL_DPKG_OUTPUT);

    // `config-files` entries are removed-but-configured, not installed.
    assert!(
        packages.iter().all(|p| p.name != "bridge-utils"),
        "a config-files package is not installed"
    );
    assert!(packages.iter().any(|p| p.name == "firefox"));

    let firefox = packages.iter().find(|p| p.name == "firefox").unwrap();
    // Installed-Size is kibibytes, which is a thousand-fold error waiting to happen.
    assert_eq!(firefox.recorded_bytes, 228 * 1024);
    assert_eq!(firefox.manager, Manager::Apt);
    assert!(
        firefox.measured.is_none(),
        "nothing is measured until asked"
    );
    assert_eq!(firefox.arch, "amd64");
    assert_eq!(
        firefox.summary,
        "Transitional package - firefox -> firefox snap"
    );

    let libc: Vec<&Package> = packages.iter().filter(|p| p.name == "libc6").collect();
    assert_eq!(libc.len(), 2, "two architectures, two packages");
    assert_ne!(
        libc[0].id,
        libc[1].id,
        "and two identities: {:?}",
        libc.iter().map(|p| &p.id).collect::<Vec<_>>()
    );
    assert_ne!(
        libc[0].recorded_bytes, libc[1].recorded_bytes,
        "they are not even the same size, so collapsing them loses real information"
    );
}

/// A maintainer's description is the one field whose content dpkg does not control, so it goes
/// last and a tab inside it cannot shift the fields that matter.
#[test]
fn a_tab_inside_a_summary_cannot_corrupt_another_field() {
    let line = "thing\tamd64\t1.0\t512\tinstalled\tinstall\ta summary\twith a tab\n";
    let packages = parse_installed(line);

    assert_eq!(packages.len(), 1);
    assert_eq!(packages[0].name, "thing");
    assert_eq!(packages[0].recorded_bytes, 512 * 1024);
    assert!(packages[0].explicit);
    assert_eq!(
        packages[0].summary, "a summary with a tab",
        "the stray tab is absorbed into the field it appeared in"
    );
}

#[test]
fn residual_packages_are_identified_by_state() {
    let output = "bridge-utils\trc \nfirefox\tii \ncodux\trc \nlibfoo\tiU \n";
    let names = parse_residual_names(output);
    assert_eq!(names, vec!["bridge-utils", "codux"]);
}

/// dpkg's `Installed-Size` for a removed package is what it occupied
/// **when installed**, not what remains: `zoom` reports 640 MiB in the `rc` state, and
/// `bridge-utils` reports 105 KiB when a single 124-byte file is all that is left.
#[test]
fn conffiles_are_parsed_so_the_size_is_what_actually_remains() {
    let output = "bridge-utils\n /etc/default/bridge-utils 551c1fb3\nzoom\n /etc/zoom/a.conf abc\n /etc/zoom/b.conf def obsolete\nempty-package\n";
    let parsed = parse_conffiles(output);
    assert_eq!(parsed.len(), 3);

    assert_eq!(parsed[0].0, "bridge-utils");
    assert_eq!(
        parsed[0].1,
        vec!["/etc/default/bridge-utils".to_string()]
    );

    assert_eq!(parsed[1].0, "zoom");
    assert_eq!(
        parsed[1].1.len(),
        2,
        "an obsolete marker is not a second path"
    );
    assert_eq!(parsed[1].1[1], "/etc/zoom/b.conf".to_string());

    assert!(
        parsed[2].1.is_empty(),
        "a package may have no conffiles at all"
    );
}




#[test]
fn malformed_lines_are_skipped_rather_than_fatal() {
    let output =
        "garbage\nname\tversion\n\nfirefox\tamd64\t1.0\t100\tinstalled\tinstall\tA browser\n";
    let packages = parse_installed(output);
    assert_eq!(packages.len(), 1);
    assert_eq!(packages[0].name, "firefox");
}

// ---- kernel version extraction ----

#[test]
fn kernel_versions_are_extracted_from_package_names() {
    for (name, expected) in [
        ("linux-image-6.8.0-138-generic", "6.8.0-138-generic"),
        ("linux-headers-6.8.0-138-generic", "6.8.0-138-generic"),
        ("linux-modules-6.8.0-138-generic", "6.8.0-138-generic"),
        // The longest prefix must win, or this becomes `extra-6.8.0-138-generic`.
        ("linux-modules-extra-6.8.0-138-generic", "6.8.0-138-generic"),
        (
            "linux-image-unsigned-6.8.0-138-generic",
            "6.8.0-138-generic",
        ),
        // A headers package with no flavour suffix, which really occurs.
        ("linux-headers-5.15.0-190", "5.15.0-190"),
    ] {
        assert_eq!(
            KernelVersion::from_package(name),
            Some(KernelVersion(expected.into())),
            "{name}"
        );
    }
}

/// The dangerous case. A metapackage is what *pulls in* the current kernel; treating it as a
/// removable old one would remove the mechanism that keeps the machine's kernel up to date.
#[test]
fn metapackages_are_not_mistaken_for_kernel_versions() {
    for name in [
        "linux-headers-generic",
        "linux-headers-generic-hwe-22.04",
        "linux-image-generic",
        "linux-generic",
        "firefox",
        "linux-libc-dev",
    ] {
        assert_eq!(
            KernelVersion::from_package(name),
            None,
            "{name} is not a versioned kernel package"
        );
    }
}

/// The two parts of one kernel must be one kernel.
#[test]
fn the_flavour_suffix_does_not_split_a_kernel_in_two() {
    let v = |s: &str| KernelVersion(s.into());

    assert_eq!(v("6.8.0-138-generic").base(), "6.8.0-138");
    assert_eq!(v("5.15.0-190").base(), "5.15.0-190");
    assert_eq!(
        v("5.15.0-190-generic").base(),
        v("5.15.0-190").base(),
        "the architecture-independent headers belong to the same kernel as the flavoured ones"
    );
    assert_eq!(v("6.8.0-138-lowlatency").base(), "6.8.0-138");
    assert_eq!(v("5.14.0-1058-oem").base(), "5.14.0-1058");

    assert_eq!(v("6.8.0-138-generic").flavour(), Some("generic".into()));
    assert_eq!(v("5.15.0-190").flavour(), None);
}

#[test]
fn kernel_versions_compare_numerically_not_lexically() {
    let v = |s: &str| KernelVersion(s.into());

    // Lexically "6.8.0-9" sorts after "6.8.0-10", which on this question means offering to
    // delete a kernel newer than the running one.
    assert_eq!(
        v("6.8.0-9-generic").compare(&v("6.8.0-10-generic")),
        Ordering::Less
    );
    assert_eq!(
        v("5.15.0-190").compare(&v("6.8.0-136-generic")),
        Ordering::Less
    );
    assert_eq!(
        v("6.8.0-138-generic").compare(&v("6.8.0-136-generic")),
        Ordering::Greater
    );
    assert_eq!(
        v("6.8.0-138-generic").compare(&v("6.8.0-138-generic")),
        Ordering::Equal
    );
}

// ---- the safety rule ----

/// The rule this whole module exists to enforce.
#[test]
fn the_running_kernel_is_never_offered() {
    let packages = parse_installed(REAL_DPKG_OUTPUT);
    let running = KernelVersion(RUNNING.into());
    let removable = removable_kernels(&packages, Some(&running));

    for set in &removable {
        assert_ne!(
            set.version, running,
            "the running kernel was offered for removal — this breaks the machine"
        );
    }
}

/// Equally important, and less obvious: on an upgraded-but-not-rebooted machine the newest
/// installed kernel is the one that boots next.
#[test]
fn the_newest_installed_kernel_is_never_offered() {
    let packages = parse_installed(REAL_DPKG_OUTPUT);

    // Pretend the machine is running something older, so the newest is *not* the running one
    // and only the newest rule can protect it.
    let running = KernelVersion("6.8.0-136-generic".into());
    let removable = removable_kernels(&packages, Some(&running));

    assert!(
        removable
            .iter()
            .all(|s| s.version != KernelVersion("6.8.0-138-generic".into())),
        "the newest kernel would boot next after an upgrade, so it must never be offered"
    );
}

#[test]
fn only_strictly_older_kernels_are_offered() {
    let packages = parse_installed(REAL_DPKG_OUTPUT);
    let running = KernelVersion(RUNNING.into());
    let removable = removable_kernels(&packages, Some(&running));

    let versions: Vec<&str> = removable.iter().map(|s| s.version.0.as_str()).collect();
    assert_eq!(
        versions,
        vec!["5.15.0-190-generic", "6.8.0-136-generic"],
        "only the genuinely superseded ones, each counted once"
    );
    // And the 5.15 set holds both of its packages, not one each in two sets.
    let old_set = &removable[0];
    assert_eq!(old_set.packages.len(), 2, "{:?}", old_set.packages);
    // Oldest first, so the list a user reads top-down starts with the safest, largest wins.
    assert!(removable[0].version.compare(&removable[1].version) == std::cmp::Ordering::Less);
}

#[test]
fn a_kernel_set_gathers_every_package_belonging_to_it() {
    let packages = parse_installed(REAL_DPKG_OUTPUT);
    let sets = kernel_sets(&packages);
    let newest = sets
        .iter()
        .find(|s| s.version.0 == "6.8.0-138-generic")
        .unwrap();

    let names: Vec<&str> = newest.packages.iter().map(|p| p.name.as_str()).collect();
    assert!(names.contains(&"linux-image-6.8.0-138-generic"));
    assert!(names.contains(&"linux-headers-6.8.0-138-generic"));
    assert!(names.contains(&"linux-modules-6.8.0-138-generic"));
    assert!(names.contains(&"linux-modules-extra-6.8.0-138-generic"));
    // Removing a kernel means removing all of its parts, so the size is the whole set.
    assert!(newest.bytes() > 300 * 1024, "measured {}", newest.bytes());
}

#[test]
fn a_single_installed_kernel_is_never_offered() {
    let only = "linux-image-6.8.0-138-generic\t6.8.0-138\t14893\tinstalled\tinstall\n";
    let packages = parse_installed(only);
    let running = KernelVersion("6.8.0-138-generic".into());
    assert!(
        removable_kernels(&packages, Some(&running)).is_empty(),
        "the only kernel on the machine is both newest and running"
    );
}

#[test]
fn with_no_kernels_at_all_nothing_is_offered() {
    let packages = parse_installed("firefox\t1.0\t228\tinstalled\tinstall\n");
    assert!(removable_kernels(&packages, None).is_empty());
}

/// If the running kernel cannot be determined, the newest rule still protects the boot kernel —
/// but the offer is more dangerous, so this test documents exactly what survives.
#[test]
fn without_a_known_running_kernel_the_newest_is_still_protected() {
    let packages = parse_installed(REAL_DPKG_OUTPUT);
    let removable = removable_kernels(&packages, None);
    assert!(
        removable
            .iter()
            .all(|s| s.version != KernelVersion("6.8.0-138-generic".into())),
        "the newest must be protected even without knowing what is running"
    );
}


// ---- removal simulation ----

#[test]
fn a_removal_simulation_is_parsed_into_a_preview() {
    // Real `apt-get -s remove` shape.
    let output = "\
NOTE: This is only a simulation!
Reading package lists...
The following packages will be REMOVED:
  linux-image-6.8.0-136-generic linux-modules-6.8.0-136-generic
0 upgraded, 0 newly installed, 2 to remove and 0 not upgraded.
Remv linux-image-6.8.0-136-generic [6.8.0-136.136]
Remv linux-modules-6.8.0-136-generic [6.8.0-136.136]
After this operation, 116 MB disk space will be freed.
";
    let preview = parse_removal_simulation(output);
    assert_eq!(
        preview.removing,
        vec![
            "linux-image-6.8.0-136-generic",
            "linux-modules-6.8.0-136-generic"
        ]
    );
    assert!(preview.installing.is_empty());
    // APT reports powers of ten and says so; treating MB as 2^20 overstates by five percent.
    assert_eq!(preview.freed_bytes, 116_000_000);
}

/// A removal that would *install* something is unusual and worth surfacing rather than hiding.
#[test]
fn a_removal_that_installs_something_is_reported() {
    let output = "\
Inst replacement-package (1.0 Ubuntu:22.04 [amd64])
Remv old-package [0.9]
After this operation, 4096 kB disk space will be freed.
";
    let preview = parse_removal_simulation(output);
    assert_eq!(preview.installing, vec!["replacement-package"]);
    assert_eq!(preview.removing, vec!["old-package"]);
    assert_eq!(preview.freed_bytes, 4_096_000);
}

#[test]
fn a_simulation_that_frees_nothing_reports_zero() {
    let output = "Remv thing [1.0]\nAfter this operation, 0 B disk space will be freed.\n";
    assert_eq!(parse_removal_simulation(output).freed_bytes, 0);
}

#[test]
fn an_operation_that_uses_space_is_not_read_as_freeing_it() {
    let output = "Inst thing (1.0)\nAfter this operation, 50.0 MB of additional disk space will be used.\n";
    let preview = parse_removal_simulation(output);
    assert_eq!(
        preview.freed_bytes, 0,
        "an operation that consumes space must not be reported as freeing it"
    );
}

#[test]
fn size_phrases_are_parsed_in_the_units_apt_uses() {
    assert_eq!(
        parse_size_phrase("512 kB disk space will be freed."),
        512_000
    );
    assert_eq!(
        parse_size_phrase("1.5 MB disk space will be freed."),
        1_500_000
    );
    assert_eq!(
        parse_size_phrase("2 GB disk space will be freed."),
        2_000_000_000
    );
    assert_eq!(
        parse_size_phrase("1,024 kB disk space will be freed."),
        1_024_000
    );
    assert_eq!(parse_size_phrase("nonsense"), 0);
}

fn file(blocks: u64) -> PathFact {
    PathFact::File {
        device: 1,
        inode: 2,
        length: 3,
        blocks,
    }
}

#[test]
fn conffiles_that_no_longer_exist_contribute_nothing() {
    // Not there means not reclaimable.
    assert_eq!(conffile_bytes(&vec![PathFact::Unreadable]), 0);
    assert_eq!(
        conffile_bytes(&vec![PathFact::Directory, file(8), PathFact::Other, file(1)]),
        9 * 512
    );
}

/// Whatever the figure is, it must be that of configuration files rather than of the packages they
/// came from.
#[test]
fn residual_configuration_on_this_machine_is_a_plausible_size() {
    let residual = residual_config(&vec![
        Leftover {
            name: "bridge-utils".to_string(),
            files: vec![file(8)],
        },
        Leftover {
            name: "gone".to_string(),
            files: vec![PathFact::Unreadable],
        },
        Leftover {
            name: "none".to_string(),
            files: Vec::new(),
        },
    ]);
    assert_eq!(residual.len(), 1, "nothing left means nothing to reclaim");
    assert_eq!(residual[0].name, "bridge-utils");
    let total: u64 = residual.iter().map(|r| r.bytes).sum();
    assert_eq!(total, 4096);
}

#[test]
fn the_running_kernel_is_what_the_kernel_says() {
    let running = running_kernel(Some("6.8.0-138-generic\n")).unwrap();
    assert_eq!(running.0, "6.8.0-138-generic");
    assert_eq!(running_kernel(None), None);
}

/// A machine that runs an old kernel keeps everything from that kernel on.
#[test]
fn a_kernel_newer_than_the_running_one_is_not_offered() {
    let packages = parse_installed(REAL_DPKG_OUTPUT);
    let running = KernelVersion("5.15.0-190-generic".into());
    assert!(
        removable_kernels(&packages, Some(&running)).is_empty(),
        "6.8.0-136 is newer than what runs, so it is not superseded"
    );
}

#[test]
fn an_empty_removal_asks_the_package_manager_nothing() {
    // No packages means no simulation to run, so no subprocess and no error.
    let backend = DpkgBackend::new();
    assert_eq!(backend.removal_query(&Vec::new()), None);
    assert_eq!(backend.removal_preview(None), RemovalPreview::default());
}

#[test]
fn the_commands_are_fixed_and_the_names_follow() {
    let backend = DpkgBackend::new();
    assert_eq!(backend.manager(), Manager::Apt);
    let listing = backend.installed_query();
    assert_eq!(listing.program, "dpkg-query");
    assert_eq!(listing.args, vec!["-W", INSTALLED_QUERY]);
    assert!(INSTALLED_QUERY.ends_with("${binary:Summary}\n"), "the summary comes last");
    let names = vec!["a".to_string(), "b".to_string()];
    let removal = backend.removal_query(&names).unwrap();
    assert_eq!(removal.program, "apt-get");
    assert_eq!(removal.args, vec!["-s", "remove", "a", "b"]);
    assert_eq!(
        backend.residual_query().args,
        vec!["-W", "-f=${Package}\t${db:Status-Abbrev}\n"]
    );
    assert_eq!(
        backend.conffiles_query(&names).unwrap().args,
        vec!["-W", "-f=${Package}\n${Conffiles}\n", "a", "b"]
    );
    assert_eq!(backend.conffiles_query(&Vec::new()), None);
    assert_eq!(backend.installed(REAL_DPKG_OUTPUT), parse_installed(REAL_DPKG_OUTPUT));
    let preview = backend.removal_preview(Some("Remv x [1]\n"));
    assert_eq!(preview.removing, vec!["x"]);
}

#[test]
fn file_lists_hold_absolute_paths_and_not_the_root() {
    assert_eq!(
        parse_file_list("/.\n/usr\n  /usr/bin/x \nrelative\n\n"),
        vec!["/usr", "/usr/bin/x"]
    );
    assert_eq!(
        list_file("libc6:amd64", "libc6", true, true).as_deref(),
        Some("libc6:amd64.list")
    );
    assert_eq!(list_file("bash:amd64", "bash", false, true).as_deref(), Some("bash.list"));
    assert_eq!(list_file("x", "x", false, false), None);
    assert_eq!(name_of("libc6:amd64"), "libc6");
    assert_eq!(name_of("bash"), "bash");
    let err = no_file_list("nope:amd64");
    assert_eq!(err.message, "dpkg has no file list for nope:amd64.");
    assert!(err.remedy.is_some());
}

#[test]
fn packages_are_dated_one_by_one() {
    let mut packages = parse_installed(REAL_DPKG_OUTPUT);
    let mut times = vec![None; packages.len()];
    times[1] = Some(1_700_000_000);
    fill_changed_at(&mut packages, &times);
    assert_eq!(packages[0].changed_at, None);
    assert_eq!(packages[1].changed_at, Some(1_700_000_000));
}

#[test]
fn conffile_bytes_measures_a_real_file() {
    let seen = PathFact::File { device: 1, inode: 2, length: 4096, blocks: 8 };
    assert!(conffile_bytes(&vec![seen]) >= 4096);
}

#[test]
fn the_running_kernel_is_readable_on_this_machine() {
    let running = running_kernel(Some("6.8.0-138-generic\n")).expect("a kernel names itself");
    assert!(!running.0.is_empty());
    assert!(running.0.chars().next().is_some_and(|c| c.is_ascii_digit()));
}

#[test]
fn dpkg_measures_what_it_lists() {
    let backend = DpkgBackend::new();
    let file = PathFact::File { device: 1, inode: 2, length: 10, blocks: 8 };
    assert_eq!(backend.measure("bash:amd64", Some(&vec![file, file])).unwrap().disk_bytes, 4096);
    let e = backend.measure("ghost:amd64", None).unwrap_err();
    assert_eq!(e.message, "dpkg has no file list for ghost:amd64.");
    assert!(backend.available(&Capabilities { found: vec![Capability::Apt] }));
    assert!(!backend.available(&Capabilities { found: vec![] }));
}

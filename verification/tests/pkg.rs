use nix_core::caps::{Capabilities, Capability};
use nix_core::error::{AppError, Cause, ErrorCode};
use nix_core::pkg::dpkg::parse_installed;
use nix_core::pkg::{
    backends, measure_paths, query, simulation_output, Measured, Package, PathFact, Ran,
};
use nix_core::space::Manager;

fn package(recorded: u64, measured: Option<Measured>) -> Package {
    let mut p = Package::new(
        "thing".into(),
        "amd64".into(),
        "1.0".into(),
        "a thing".into(),
        recorded,
        true,
        Manager::Apt,
    );
    p.measured = measured;
    p.changed_at = Some(1_700_000_000);
    p
}

fn measured(apparent: u64, disk: u64) -> Measured {
    Measured {
        apparent_bytes: apparent,
        disk_bytes: disk,
        files: 1,
        directories: 0,
        unreadable: 0,
    }
}

/// Decision D2: two figures, never conflated.
#[test]
fn recorded_and_measured_sizes_stay_distinct() {
    let unmeasured = package(1000, None);
    assert_eq!(unmeasured.display_bytes(), 1000);
    assert_eq!(
        unmeasured.recorded_error(),
        None,
        "not measured and agrees with the manager are different answers"
    );

    let m = package(1000, Some(measured(2000, 2500)));
    assert_eq!(
        m.recorded_bytes, 1000,
        "the recorded figure must survive measurement"
    );
    assert_eq!(m.display_bytes(), 2500, "display shows committed bytes");
    assert_eq!(m.recorded_error(), Some(1500));
}

/// The common case is the manager's estimate being *higher*, and a difference that cannot go
/// negative would read as agreement.
#[test]
fn a_manager_overestimate_is_reported_as_negative_not_as_agreement() {
    let over = package(2000, Some(measured(1200, 1500)));
    assert_eq!(over.recorded_error(), Some(-500));
    assert_ne!(
        over.recorded_error(),
        Some(0),
        "an overestimate must not be indistinguishable from an exact match"
    );

    let exact = package(1500, Some(measured(1200, 1500)));
    assert_eq!(
        exact.recorded_error(),
        Some(0),
        "and zero must still mean zero"
    );
}

/// Block overhead is the figure the `flat-remix-gtk` measurement made the case for: 30,547 small
/// files containing 76.1 MB and occupying 181.3 MB.
#[test]
fn block_overhead_is_disk_beyond_content() {
    assert_eq!(
        measured(76_129_617, 181_276_672).block_overhead(),
        105_147_055
    );
}

/// A sparse or transparently compressed file occupies less than it contains, so the subtraction
/// saturates rather than wrapping.
#[test]
fn a_file_smaller_on_disk_than_in_content_has_no_negative_overhead() {
    assert_eq!(measured(1_000_000, 4096).block_overhead(), 0);
}

/// This machine has 41 package names installed for two architectures at once, so a name is not an
/// identity.
#[test]
fn identity_is_arch_qualified_where_the_manager_qualifies() {
    let make = |name: &str, arch: &str| {
        Package::new(
            name.into(),
            arch.into(),
            "1".into(),
            String::new(),
            0,
            true,
            Manager::Apt,
        )
    };

    assert_eq!(make("libc6", "amd64").id, "libc6:amd64");
    assert_eq!(make("libc6", "i386").id, "libc6:i386");
    assert_ne!(
        make("libc6", "amd64").id,
        make("libc6", "i386").id,
        "two installed packages, two identities"
    );
    assert_eq!(
        make("libc6", "").id,
        "libc6",
        "a manager without architectures gets a bare name, not a trailing colon"
    );
}

/// `id` is a stored field, so the thing that could go wrong is it disagreeing with the two fields
/// it comes from.
#[test]
fn every_packages_stored_identity_matches_its_name_and_arch() {
    let packages = parse_installed(
        "libc6\tamd64\t2.35\t13594\tinstalled\tinstall\tGNU C Library\n\
         libc6\ti386\t2.35\t12482\tinstalled\tinstall\tGNU C Library\n\
         bare\t\t1\t1\tinstalled\tinstall\tNo architecture\n",
    );
    assert_eq!(packages.len(), 3);
    for p in &packages {
        assert_eq!(
            p.id,
            Package::identity(&p.name, &p.arch),
            "stored identity drifted from name and arch"
        );
    }
}

// ---- the measurement walk ----

fn regular(inode: u64, length: u64, blocks: u64) -> PathFact {
    PathFact::File {
        device: 7,
        inode,
        length,
        blocks,
    }
}

#[test]
fn a_regular_file_contributes_content_and_committed_bytes() {
    let m = measure_paths(&vec![regular(1, 5000, 16)]);
    assert_eq!(m.files, 1);
    assert_eq!(m.apparent_bytes, 5000);
    assert_eq!(m.disk_bytes, 8192);
    assert!(m.is_complete());
}

/// Directories are counted and never measured: they belong to no single package.
#[test]
fn a_directory_is_counted_but_never_measured() {
    let m = measure_paths(&vec![PathFact::Directory]);
    assert_eq!(m.directories, 1);
    assert_eq!(m.files, 0);
    assert_eq!(
        m.apparent_bytes, 0,
        "a directory inode's own size is not the package's bytes"
    );
    assert_eq!(m.disk_bytes, 0);
}

#[test]
fn a_symlink_contributes_nothing() {
    let m = measure_paths(&vec![PathFact::Other]);
    assert_eq!(m.files, 0, "a symlink is not a file this package owns");
    assert_eq!(
        m.apparent_bytes, 0,
        "following it would charge another package's bytes here"
    );
    assert!(m.is_complete(), "and it is not unreadable either");
}

#[test]
fn a_hard_linked_file_is_counted_once() {
    let m = measure_paths(&vec![regular(9, 40_000, 80), regular(9, 40_000, 80)]);
    assert_eq!(m.files, 1, "one inode, one file");
    assert_eq!(m.apparent_bytes, 40_000, "not 80,000");
    // The same number on another device is another file.
    let other = PathFact::File {
        device: 8,
        inode: 9,
        length: 1,
        blocks: 1,
    };
    assert_eq!(measure_paths(&vec![regular(9, 1, 1), other]).files, 2);
}

/// A path that is listed but not there makes the total a floor.
#[test]
fn a_missing_path_is_reported_rather_than_ignored() {
    let m = measure_paths(&vec![regular(1, 100, 8), PathFact::Unreadable]);
    assert_eq!(m.files, 1);
    assert_eq!(m.unreadable, 1);
    assert!(
        !m.is_complete(),
        "an incomplete measurement must not look like a total"
    );
}

/// On-disk comes from the kernel's block count, never from rounding the length up.
#[test]
fn a_sparse_file_occupies_less_than_it_contains() {
    let m = measure_paths(&vec![regular(1, 64 * 1024 * 1024, 0)]);
    assert_eq!(m.apparent_bytes, 64 * 1024 * 1024);
    assert!(m.disk_bytes < m.apparent_bytes);
    assert_eq!(
        m.block_overhead(),
        0,
        "committed less than contained is legitimate, and must not underflow"
    );
}

/// Many small files cost more disk than their contents.
#[test]
fn a_real_package_costs_more_disk_than_its_contents() {
    let facts: Vec<PathFact> = (0..1500).map(|i| regular(i, 200, 8)).collect();
    let m = measure_paths(&facts);
    assert_eq!(m.files, 1500);
    assert_eq!(m.apparent_bytes, 300_000);
    assert!(m.disk_bytes >= m.apparent_bytes);
    assert_eq!(m.block_overhead(), 1500 * 4096 - 300_000);
}

#[test]
fn sums_that_do_not_fit_stay_at_the_limit() {
    let m = measure_paths(&vec![regular(1, u64::MAX, u64::MAX), regular(2, 5, 5)]);
    assert_eq!(m.apparent_bytes, u64::MAX);
    assert_eq!(m.disk_bytes, u64::MAX);
}

// ---- running a query ----

fn ended(success: bool) -> Ran {
    Ran::Ended {
        success,
        status: Some(if success { 0 } else { 1 }),
        stdout: b"some output".to_vec(),
        stderr: b"a complaint".to_vec(),
    }
}

#[test]
fn a_failed_query_is_an_error_not_empty_output() {
    let err = query("false", ended(false)).unwrap_err();
    assert_eq!(err.code, ErrorCode::CommandFailed);
    assert_eq!(err.message, "false did not succeed.");
    assert_eq!(
        err.cause,
        Some(Cause::Command {
            program: "false".to_string(),
            status: Some(1),
            stderr: "a complaint".to_string(),
        })
    );
    assert_eq!(query("true", ended(true)).unwrap(), "some output");
}

#[test]
fn a_missing_program_reports_a_remedy() {
    let err = query(
        "definitely-not-a-real-program",
        Ran::NotStarted(AppError::internal("no such file")),
    )
    .unwrap_err();
    assert_eq!(
        err.remedy.as_deref(),
        Some("Check that definitely-not-a-real-program is installed and on PATH."),
        "an absent tool must say what to do"
    );
    assert_eq!(err.message, "no such file");
}

#[test]
fn backends_are_probed_per_capability() {
    let apt = Capabilities { found: vec![Capability::Snap, Capability::Apt] };
    assert_eq!(backends(&apt), vec![Manager::Apt]);
    let none = Capabilities { found: vec![] };
    assert!(backends(&none).is_empty());
}

#[test]
fn a_directorys_contents_are_not_reached_through_the_directory() {
    let m = measure_paths(&vec![PathFact::Directory]);
    assert_eq!(
        m.apparent_bytes, 0,
        "measuring a directory must not walk into it: its files are listed separately, and \
         counting both would double them"
    );
    assert_eq!(m.directories, 1);
}

/// APT's simulation succeeds; every other manager abandons its own with a
/// failure, and what it printed is read all the same.
#[test]
fn an_abandoned_simulation_is_read_whatever_its_status() {
    let ended = |success: bool| Ran::Ended {
        success,
        status: Some(if success { 0 } else { 1 }),
        stdout: b"Removing:\n".to_vec(),
        stderr: b"no".to_vec(),
    };
    for (manager, program) in [
        (Manager::Dnf, "dnf"),
        (Manager::Zypper, "zypper"),
        (Manager::Pacman, "pacman"),
    ] {
        assert_eq!(simulation_output(manager, program, ended(false)).unwrap(), "Removing:\n");
        assert_eq!(simulation_output(manager, program, ended(true)).unwrap(), "Removing:\n");
        let missing = Ran::NotStarted(AppError::internal("not there"));
        let err = simulation_output(manager, program, missing).unwrap_err();
        assert_eq!(err.remedy, Some(format!("Check that {program} is installed and on PATH.")));
    }
    assert_eq!(simulation_output(Manager::Apt, "apt-get", ended(true)).unwrap(), "Removing:\n");
    let err = simulation_output(Manager::Apt, "apt-get", ended(false)).unwrap_err();
    assert_eq!(err.code, ErrorCode::CommandFailed);
    assert_eq!(err.message, "apt-get did not succeed.");
}

use nix_core::caps::{Capabilities, Capability};
use nix_core::error::AppError;
use nix_core::pkg::dpkg::{kernel_sets, running_kernel, KernelVersion};
use nix_core::pkg::{Package, ResidualConfig};
use nix_core::reclaim::kernels::{OldKernelCategory, ResidualConfigCategory};
use nix_core::reclaim::registry::Category;
use nix_core::space::{Category as SpaceCategory, Manager, ReclaimMethod, RemovableKind, Safety};

fn package(name: &str, bytes: u64) -> Package {
    Package::new(
        name.to_string(),
        "amd64".to_string(),
        "1".to_string(),
        String::new(),
        bytes,
        true,
        Manager::Apt,
    )
}

fn installed() -> Vec<Package> {
    let mut v = Vec::new();
    for version in ["5.15.0-91", "5.15.0-94", "6.2.0-39", "6.5.0-14"] {
        v.push(package(&format!("linux-image-{version}-generic"), 10));
        v.push(package(&format!("linux-modules-{version}-generic"), 20));
        v.push(package(&format!("linux-headers-{version}"), 5));
    }
    v.push(package("bash", 1));
    v
}

fn apt() -> Capabilities {
    Capabilities { found: vec![Capability::Apt] }
}

fn kernels() -> OldKernelCategory {
    OldKernelCategory::at(&apt(), Ok(installed()), Some("6.2.0-39-generic\n".to_string()))
}

#[test]
fn no_offered_kernel_is_the_running_one_or_the_newest() {
    let candidates = kernels().candidates(false).unwrap();
    assert_eq!(candidates.len(), 2);
    let running = running_kernel(Some("6.2.0-39-generic\n")).unwrap();
    let newest = kernel_sets(&installed())
        .into_iter()
        .max_by(|a, b| a.version.compare(&b.version))
        .map(|s| s.version);

    for candidate in &candidates {
        let ReclaimMethod::Packages { names, .. } = &candidate.method else {
            panic!("a kernel must be removed through the package manager");
        };
        for name in names {
            let version = KernelVersion::from_package(name)
                .expect("every package in a kernel set is a kernel package");
            assert_ne!(
                version.base(),
                running.base(),
                "{name} belongs to the running kernel"
            );
            if let Some(newest) = &newest {
                assert_ne!(
                    version.base(),
                    newest.base(),
                    "{name} belongs to the newest installed kernel, which boots next"
                );
            }
        }
    }
}

#[test]
fn a_kernel_is_offered_as_one_decision_covering_all_its_packages() {
    let candidates = kernels().candidates(false).unwrap();
    for candidate in &candidates {
        let ReclaimMethod::Packages { names, kind } = &candidate.method else {
            panic!("unexpected method");
        };
        assert_eq!(*kind, RemovableKind::OldKernel);
        assert!(
            !names.is_empty(),
            "a kernel set with no packages is not a set"
        );
        // Every package in one candidate belongs to the same kernel.
        let versions: std::collections::HashSet<String> = names
            .iter()
            .filter_map(|n| KernelVersion::from_package(n))
            .map(|v| v.base())
            .collect();
        assert_eq!(
            versions.len(),
            1,
            "one candidate must be one kernel: {versions:?}"
        );
    }
    assert_eq!(candidates[0].label, "Linux 5.15.0-91-generic (3 packages)");
    assert_eq!(candidates[0].bytes, 35);
    assert_eq!(candidates[0].path, "kernel 5.15.0-91-generic");
}

#[test]
fn kernels_are_review_and_say_what_is_lost() {
    let candidates = kernels().candidates(false).unwrap();
    for candidate in &candidates {
        assert_eq!(
            candidate.safety,
            Safety::Review,
            "a kernel you cannot boot into is a fallback you no longer have, so never pre-checked"
        );
        let cost = candidate.cost.as_deref().unwrap_or("");
        assert!(
            cost.contains("boot"),
            "the cost must name what is actually lost: {cost}"
        );
    }
}

#[test]
fn residual_configuration_is_one_decision_and_states_its_cost() {
    let residual = vec![
        ResidualConfig { name: "a".into(), bytes: 3 },
        ResidualConfig { name: "b".into(), bytes: 4 },
    ];
    let candidates = ResidualConfigCategory::at(&apt(), Ok(residual)).candidates(false).unwrap();

    // At most one: two hundred entries of 40 KiB each is noise, not a choice.
    assert!(candidates.len() <= 1, "{} candidates", candidates.len());
    for candidate in &candidates {
        assert_eq!(candidate.safety, Safety::Review);
        let cost = candidate.cost.as_deref().unwrap_or("");
        assert!(cost.contains("defaults"), "{cost}");
        let ReclaimMethod::Packages { kind, names } = &candidate.method else {
            panic!("unexpected method");
        };
        assert_eq!(*kind, RemovableKind::ResidualConfig);
        assert!(!names.is_empty());
    }
    assert_eq!(candidates[0].label, "Configuration from 2 removed packages");
    assert_eq!(candidates[0].bytes, 7);
}

#[test]
fn kernels_cancellation_is_honoured() {
    assert!(OldKernelCategory::new().candidates(true).is_err());
    assert!(ResidualConfigCategory::new().candidates(true).is_err());
}

#[test]
fn categories_describe_themselves() {
    assert_eq!(OldKernelCategory::new().id(), "old_kernels");
    assert_eq!(ResidualConfigCategory::new().id(), "residual_config");
    assert_eq!(
        OldKernelCategory::new().space_category(),
        SpaceCategory::PackagePayload
    );
    assert_eq!(
        ResidualConfigCategory::new().space_category(),
        SpaceCategory::OrphanedConfig
    );
}

#[test]
fn a_list_that_could_not_be_read_is_passed_on() {
    let failed = OldKernelCategory::at(&apt(), Err(AppError::internal("dpkg")), None);
    assert!(failed.available());
    assert_eq!(failed.candidates(false).unwrap_err().message, "dpkg");
    let leftovers = ResidualConfigCategory::at(&apt(), Err(AppError::internal("dpkg")));
    assert_eq!(leftovers.candidates(false).unwrap_err().message, "dpkg");
    let one = vec![ResidualConfig { name: "a".into(), bytes: 1 }];
    let single = ResidualConfigCategory::at(&apt(), Ok(one)).candidates(false).unwrap();
    assert_eq!(single[0].label, "Configuration from 1 removed package");
    assert!(ResidualConfigCategory::at(&apt(), Ok(vec![])).candidates(false).unwrap().is_empty());
    assert!(!OldKernelCategory::new().available());
    assert!(!ResidualConfigCategory::new().available());
}

use nix_core::caps::{Capabilities, Capability};
use nix_core::error::{AppError, ErrorCode};
use nix_core::pkg::Ran;
use nix_core::reclaim::containers::{
    container_candidates, docker, is_volume_name, parse_docker_size, parse_reclaimed,
    parse_system_df, parse_volumes, prune, prune_command, remove_volume, usage_from, usage_query,
    volume_query, ContainerCategory, Usage, Volume,
};
use nix_core::reclaim::registry::Category;
use nix_core::space::{PruneScope, ReclaimMethod, Reclaimable, Safety};

const REAL_DF: &str = r#"{"Active":"25","Reclaimable":"17.5GB (60%)","Size":"28.92GB","TotalCount":"75","Type":"Images"}
{"Active":"27","Reclaimable":"94.31kB (0%)","Size":"38.27MB","TotalCount":"28","Type":"Containers"}
{"Active":"7","Reclaimable":"1.494GB (62%)","Size":"2.398GB","TotalCount":"25","Type":"Local Volumes"}
{"Active":"0","Reclaimable":"3.042GB","Size":"3.042GB","TotalCount":"180","Type":"Build Cache"}"#;

const REAL_VERBOSE: &str = "\
Local Volumes space usage:

VOLUME NAME                                                        LINKS     SIZE
359964401c5cb84a1c6ed4391e8c9c495200bc2988e141edb4a688617bad2a5e   1         73.01MB
drugcheck_scraper_postgres_dev_data                                0         198MB
empty_vol                                                          0         0B

Build cache usage: 3.042GB
";

fn seen() -> ContainerCategory {
    let caps = Capabilities { found: vec![Capability::Docker] };
    ContainerCategory::at(&caps, Some(REAL_DF.to_string()), Some(REAL_VERBOSE.to_string()))
}

#[test]
fn docker_sizes_are_powers_of_ten() {
    assert_eq!(parse_docker_size("314MB"), 314_000_000);
    assert_eq!(parse_docker_size("17.5GB"), 17_500_000_000);
    assert_eq!(parse_docker_size("94.31kB"), 94_310);
    assert_eq!(parse_docker_size("0B"), 0);
    assert_eq!(parse_docker_size("2.398GB"), 2_398_000_000);

    // Read as binary, 17.5GB would be 18,790,481,920.
    assert_ne!(parse_docker_size("17.5GB"), 17_500 * 1024 * 1024);
}

#[test]
fn the_reclaimable_percentage_is_not_mistaken_for_a_size() {
    assert_eq!(parse_docker_size("17.5GB (60%)"), 17_500_000_000);
    assert_eq!(parse_docker_size("94.31kB (0%)"), 94_310);
}

#[test]
fn an_unknown_unit_claims_nothing() {
    assert_eq!(parse_docker_size("12ZB"), 0);
    assert_eq!(parse_docker_size("nonsense"), 0);
    assert_eq!(parse_docker_size(""), 0);
}

#[test]
fn system_df_is_parsed_from_real_output() {
    let usage = parse_system_df(REAL_DF);
    assert_eq!(usage.len(), 4);

    let images = usage.iter().find(|u| u.kind == "Images").unwrap();
    assert_eq!(images.total, 75);
    assert_eq!(images.active, 25);
    assert_eq!(images.size, 28_920_000_000);
    assert_eq!(images.reclaimable, 17_500_000_000);

    let cache = usage.iter().find(|u| u.kind == "Build Cache").unwrap();
    assert_eq!(cache.total, 180);
    assert_eq!(cache.reclaimable, 3_042_000_000);
}

#[test]
fn malformed_lines_are_dropped_rather_than_guessed_at() {
    assert!(parse_system_df("not json\n{}\n").is_empty());
    assert!(parse_system_df("").is_empty());
}

#[test]
fn a_field_that_is_no_text_counts_as_missing() {
    let usage = parse_system_df("{\"Type\":\"Images\",\"TotalCount\":75,\"Size\":\"1kB\"}\n[1]\n\"x\"\n");
    assert_eq!(
        usage,
        vec![Usage { kind: "Images".into(), total: 0, active: 0, size: 1000, reclaimable: 0 }]
    );
    assert!(parse_system_df("{\"Type\":7}").is_empty());
}

#[test]
fn a_row_is_made_from_its_fields() {
    assert_eq!(
        usage_from("Images", "75", "x", "28.92GB", "17.5GB (60%)"),
        Some(Usage {
            kind: "Images".into(),
            total: 75,
            active: 0,
            size: 28_920_000_000,
            reclaimable: 17_500_000_000,
        })
    );
    assert_eq!(usage_from("", "75", "1", "1B", "1B"), None);
}

#[test]
fn volumes_are_parsed_with_their_link_counts() {
    let volumes = parse_volumes(REAL_VERBOSE);
    assert_eq!(volumes.len(), 3, "{volumes:?}");

    let used = &volumes[0];
    assert_eq!(used.links, 1);
    assert_eq!(used.bytes, 73_010_000);

    let unused = volumes
        .iter()
        .find(|v| v.name.starts_with("drugcheck"))
        .unwrap();
    assert_eq!(unused.links, 0);
    assert_eq!(unused.bytes, 198_000_000);
}

#[test]
fn the_volume_block_ends_at_the_next_section() {
    let volumes = parse_volumes(REAL_VERBOSE);
    assert!(
        !volumes.iter().any(|v| v.name.starts_with("Build")),
        "the next section's header must not become a volume: {volumes:?}"
    );
    let cut = parse_volumes("Local Volumes space usage:\na 0 1B\nOther space usage:\nb 0 1B\n");
    assert_eq!(cut.len(), 1);
}

#[test]
fn volume_names_are_shape_checked() {
    for good in ["mydata", "a", "app_db-1.0", "359964401c5cb84a"] {
        assert!(is_volume_name(good), "{good} is a valid volume name");
    }
    for bad in [
        "",
        "-leading",
        ".leading",
        "has space",
        "semi;colon",
        "--rm",
        "a/b",
        "$(x)",
    ] {
        assert!(!is_volume_name(bad), "{bad} must be rejected");
    }
    assert!(!is_volume_name(&"a".repeat(300)), "absurd lengths are rejected");
    assert!(is_volume_name(&"a".repeat(255)));
    assert!(!is_volume_name(&"a".repeat(256)));
}

#[test]
fn prune_commands_are_fixed_and_distinct() {
    let mut seen = std::collections::HashSet::new();
    for scope in [
        PruneScope::DanglingImages,
        PruneScope::UnusedImages,
        PruneScope::StoppedContainers,
        PruneScope::BuildCache,
    ] {
        let args = prune_command(scope);
        assert!(
            seen.insert(args.clone()),
            "{scope:?} shares a command with another scope"
        );
        assert!(
            args.contains(&"-f"),
            "{scope:?} must not wait for confirmation nix has already obtained"
        );
        assert!(!scope.name().is_empty());
    }
}

#[test]
fn reclaimed_space_is_read_from_docker_own_report() {
    let output = "deleted: sha256:abc\ndeleted: sha256:def\n\nTotal reclaimed space: 3.042GB\n";
    assert_eq!(parse_reclaimed(output), 3_042_000_000);
    assert_eq!(parse_reclaimed("nothing to do\n"), 0);
}

#[test]
fn containers_cancellation_is_honoured() {
    for category in [ContainerCategory::new(), seen()] {
        match category.candidates(true) {
            Err(e) => assert!(!e.is_fault(), "cancellation is not a fault"),
            Ok(found) => assert!(found.is_empty()),
        }
    }
}

#[test]
fn this_machines_containers_are_read_consistently() {
    let category = seen();
    assert!(category.available());
    let found = category.candidates(false).unwrap();
    assert_eq!(found.len(), 5);

    for c in &found {
        assert!(c.bytes > 0, "{} claims nothing", c.label);
        assert!(
            c.cost.as_deref().is_some_and(|s| !s.is_empty()),
            "{} must say what it costs",
            c.label
        );
        assert_ne!(c.safety, Safety::Safe, "nothing here is pre-checkable");
    }

    // Every volume candidate is its own item, and none may be bulk-selected.
    for c in found
        .iter()
        .filter(|c| matches!(c.method, ReclaimMethod::ContainerVolume { .. }))
    {
        assert_eq!(c.safety, Safety::Risky, "{} must be Risky", c.label);
        assert!(
            !c.safety.bulk_selectable(),
            "a volume must never be swept up by select-all"
        );
    }
}

#[test]
fn the_preview_agrees_with_docker_system_df() {
    let usage = parse_system_df(REAL_DF);
    let found = seen().candidates(false).unwrap();

    for kind in ["Images", "Containers", "Build Cache"] {
        let row = usage.iter().find(|u| u.kind == kind).unwrap();
        assert!(row.reclaimable > 0);
        // Each prune candidate quotes Docker's own reclaimable figure for its kind, so no
        // candidate may claim more than Docker does.
        for c in &found {
            if let ReclaimMethod::ContainerPrune { .. } = c.method {
                assert!(
                    c.bytes <= usage.iter().map(|u| u.reclaimable).max().unwrap_or(0),
                    "{} claims more than any figure docker reported",
                    c.label
                );
            }
        }
    }
}

#[test]
fn offers_come_largest_first_with_their_labels() {
    let found = seen().candidates(false).unwrap();
    let labels: Vec<&str> = found.iter().map(|c| c.label.as_str()).collect();
    assert_eq!(
        labels,
        vec![
            "Dangling image layers",
            "Images no container uses (50 of 75)",
            "Build cache (180 entries)",
            "Volume drugcheck_scraper_postgres_dev_data",
            "Stopped containers (1)",
        ]
    );
    assert_eq!(found[0].reclaimable.promisable(found[0].bytes), 0);
    assert_eq!(found[2].reclaimable, Reclaimable::Exact);
}

#[test]
fn a_volume_in_use_is_not_offered() {
    let volumes = vec![
        Volume { name: "used".into(), bytes: 10, links: 1 },
        Volume { name: "free".into(), bytes: 5, links: 0 },
        Volume { name: "empty".into(), bytes: 0, links: 0 },
    ];
    let found = container_candidates(&vec![], &volumes);
    assert_eq!(found.len(), 1);
    assert_eq!(found[0].path, "docker volume free");
    assert_eq!(
        found[0].cost.as_deref(),
        Some("Deletes the contents of free permanently. If this held a database, that data is gone and nothing else has it.")
    );
}

#[test]
fn a_docker_that_does_not_answer_is_an_error() {
    let failed = Ran::Ended { success: false, status: Some(1), stdout: vec![], stderr: vec![] };
    let e = docker(failed).unwrap_err();
    assert_eq!(e.code, ErrorCode::CommandFailed);
    assert_eq!(e.message, "Docker did not answer.");
    assert!(e.remedy.unwrap().contains("`docker` group"));

    let absent = Ran::NotStarted(AppError::internal("no docker"));
    assert_eq!(docker(absent).unwrap_err().message, "no docker");

    let ended = Ran::Ended {
        success: true,
        status: Some(0),
        stdout: b"Total reclaimed space: 2kB\n".to_vec(),
        stderr: vec![],
    };
    assert_eq!(prune(ended).unwrap(), 2000);
    assert_eq!(usage_query().args, vec!["system", "df", "--format", "{{json .}}"]);
}

#[test]
fn a_volume_is_confirmed_unused_before_it_goes() {
    assert_eq!(volume_query("--rm").unwrap_err().code, ErrorCode::InvalidInput);
    assert_eq!(volume_query("data").unwrap().args, vec!["system", "df", "-v"]);

    let name = "drugcheck_scraper_postgres_dev_data";
    let (command, bytes) = remove_volume(name, Ok(REAL_VERBOSE.to_string())).unwrap();
    assert_eq!(command.args, vec!["volume", "rm", name]);
    assert_eq!(bytes, 198_000_000);

    let used = "359964401c5cb84a1c6ed4391e8c9c495200bc2988e141edb4a688617bad2a5e";
    let e = remove_volume(used, Ok(REAL_VERBOSE.to_string())).unwrap_err();
    assert_eq!(e.code, ErrorCode::HelperRejected);
    assert!(e.message.ends_with("is not an unused volume."));

    let unread = remove_volume(name, Err(AppError::internal("gone"))).unwrap_err();
    assert_eq!(unread.message, "gone");
}

#[test]
fn without_docker_nothing_is_offered() {
    let none = Capabilities { found: vec![] };
    let category = ContainerCategory::at(&none, Some(REAL_DF.to_string()), None);
    assert!(!category.available());
    assert!(category.candidates(false).unwrap().is_empty());
    let caps = Capabilities { found: vec![Capability::Docker] };
    let silent = ContainerCategory::at(&caps, None, None);
    assert!(!silent.available());
    assert!(silent.candidates(false).unwrap().is_empty());
}

/// The heading of the build cache carries a figure behind its name.
#[test]
fn the_build_cache_ends_the_volumes() {
    let output = "Local Volumes space usage:\n\nVOLUME NAME   LINKS     SIZE\ndata          0         198MB\n\nBuild cache usage: 3.042GB\n\nCACHE ID       CACHE TYPE     SIZE      CREATED         LAST USED       USAGE     SHARED\nabc123   regular   10MB   2 days ago   2 days ago   1   false\n";
    let names: Vec<String> = parse_volumes(output).into_iter().map(|v| v.name).collect();
    assert_eq!(names, vec!["data"]);
    let reached = output.replace("Build cache usage: 3.042GB", "Images space usage:");
    assert_eq!(parse_volumes(&reached).len(), 1);
}

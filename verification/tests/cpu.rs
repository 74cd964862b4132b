use nix_core::metrics::cpu::{current_frequency_khz, parse_stat, CpuSampler, CpuTimes};
use nix_core::metrics::Share;

fn value(share: Share) -> f32 {
    share.part as f32 / share.whole as f32
}

/// A machine with eight cores, trimmed to three.
const REAL_STAT: &str = "\
cpu  2328496 18891 759669 25133262 94212 0 14765 0 0 0
cpu0 296233 2251 95784 3128383 11184 0 1973 0 0 0
cpu1 284695 2488 95289 3146041 11470 0 1782 0 0 0
cpu2 290000 2300 95000 3140000 11000 0 1800 0 0 0
intr 412345678 9 0 0 0
ctxt 987654321
btime 1787800000
processes 123456
procs_running 2
procs_blocked 0
softirq 111111111 0 1 2 3
";

#[test]
fn the_aggregate_and_cores_are_parsed_from_real_output() {
    let (aggregate, cores) = parse_stat(REAL_STAT);
    let aggregate = aggregate.unwrap();

    assert_eq!(aggregate.user, 2_328_496);
    assert_eq!(aggregate.nice, 18_891);
    assert_eq!(aggregate.system, 759_669);
    assert_eq!(aggregate.idle, 25_133_262);
    assert_eq!(aggregate.iowait, 94_212);
    assert_eq!(aggregate.softirq, 14_765);

    assert_eq!(cores.len(), 3, "three cpuN lines");
    assert_eq!(cores[0].user, 296_233);
}

/// The lines after the cpu block must not be mistaken for cores.
#[test]
fn non_cpu_lines_are_skipped_by_name_not_by_position() {
    let (_, cores) = parse_stat(REAL_STAT);
    assert_eq!(
        cores.len(),
        3,
        "intr, ctxt, btime and softirq are not cores — softirq even starts with the wrong letters"
    );

    // And a file whose ordering changed must parse identically, which is the whole point of
    // selecting by name.
    let reordered = "\
btime 1787800000
cpu1 284695 2488 95289 3146041 11470 0 1782 0 0 0
intr 412345678 9
cpu  2328496 18891 759669 25133262 94212 0 14765 0 0 0
cpu0 296233 2251 95784 3128383 11184 0 1973 0 0 0
";
    let (aggregate, cores) = parse_stat(reordered);
    assert_eq!(aggregate.unwrap().user, 2_328_496);
    assert_eq!(cores.len(), 2);
    assert_eq!(cores[0].user, 296_233, "sorted by the kernel's own index");
}

#[test]
fn iowait_counts_as_idle_not_busy() {
    let times = CpuTimes {
        user: 10,
        iowait: 90,
        ..CpuTimes::default()
    };
    assert_eq!(times.busy(), 10);
    assert_eq!(times.total(), 100);

    let previous = CpuTimes::default();
    let utilisation = value(times.utilisation_since(&previous).unwrap());
    assert!(
        (utilisation - 0.10).abs() < 0.001,
        "a core waiting on a disk is available to run something else, got {utilisation}"
    );
}

#[test]
fn utilisation_is_a_ratio_of_the_interval_not_of_all_time() {
    let before = CpuTimes {
        user: 1000,
        idle: 9000,
        ..CpuTimes::default()
    };
    let after = CpuTimes {
        user: 1075,
        idle: 9025,
        ..CpuTimes::default()
    };
    // 75 busy of 100 elapsed, regardless of the 10% lifetime average.
    let utilisation = value(after.utilisation_since(&before).unwrap());
    assert!((utilisation - 0.75).abs() < 0.001, "{utilisation}");
}

/// Counters going backwards is a broken assumption, not a small number.
#[test]
fn counters_going_backwards_yield_nothing() {
    let before = CpuTimes {
        user: 1000,
        idle: 9000,
        ..CpuTimes::default()
    };
    let after = CpuTimes {
        user: 10,
        idle: 90,
        ..CpuTimes::default()
    };
    assert_eq!(
        after.utilisation_since(&before),
        None,
        "a suspend or a migration resets these; reporting 0% would hide it"
    );
}

#[test]
fn an_interval_with_no_elapsed_jiffies_yields_nothing() {
    let times = CpuTimes {
        user: 500,
        idle: 500,
        ..CpuTimes::default()
    };
    assert_eq!(
        times.utilisation_since(&times),
        None,
        "dividing by a zero interval is not a zero utilisation"
    );
}

/// The first sample has nothing to compare against, and says so.
#[test]
fn cpu_the_first_sample_is_not_a_measurement() {
    let mut sampler = CpuSampler::new();
    assert!(
        sampler.sample_from(REAL_STAT, None).is_none(),
        "one reading of a cumulative counter is not a rate"
    );

    let later = REAL_STAT.replace("cpu  2328496", "cpu  2328596");
    let reading = sampler
        .sample_from(&later, Some(1_801_548))
        .expect("the second sample has a delta");
    assert!(value(reading.total) > 0.0);
    assert_eq!(reading.frequency_khz, Some(1_801_548));
}

#[test]
fn per_core_figures_appear_once_there_is_a_delta_for_each() {
    let mut sampler = CpuSampler::new();
    sampler.sample_from(REAL_STAT, None);
    let later = REAL_STAT
        .replace("cpu0 296233", "cpu0 296333")
        .replace("cpu  2328496", "cpu  2328596");
    let reading = sampler.sample_from(&later, None).unwrap();
    assert_eq!(reading.per_core.len(), 3);
    assert!(value(reading.per_core[0]) > 0.0, "cpu0 did work");
    assert_eq!(value(reading.per_core[1]), 0.0, "cpu1 did not");
}

/// A machine that gains or loses a core must not produce per-core figures against the wrong core.
#[test]
fn a_changed_core_count_yields_no_per_core_figures_rather_than_mismatched_ones() {
    let mut sampler = CpuSampler::new();
    sampler.sample_from(REAL_STAT, None);

    let fewer = "\
cpu  2328596 18891 759669 25133262 94212 0 14765 0 0 0
cpu0 296333 2251 95784 3128383 11184 0 1973 0 0 0
";
    let reading = sampler.sample_from(fewer, None).unwrap();
    assert!(
        reading.per_core.is_empty(),
        "core 0's delta must not be attributed to a different core"
    );
    assert!(value(reading.total) > 0.0, "the aggregate is still meaningful");
}

#[test]
fn an_empty_or_broken_file_yields_nothing() {
    let mut sampler = CpuSampler::new();
    assert!(sampler.sample_from("", None).is_none());
    assert!(
        sampler
            .sample_from("garbage\nmore garbage\n", None)
            .is_none()
    );
}

#[test]
fn a_missing_frequency_file_is_none_not_zero() {
    assert_eq!(
        current_frequency_khz(None),
        None,
        "a virtual machine has no cpufreq, and zero would read as stopped"
    );
    assert_eq!(current_frequency_khz(Some("1801548\n")), Some(1_801_548));
    assert_eq!(current_frequency_khz(Some("fast\n")), None);
}

/// The busy part may outrun the whole when an idle counter goes back; it is
/// never reported as more than everything.
#[test]
fn utilisation_never_exceeds_everything() {
    let before = CpuTimes {
        user: 10,
        idle: 100,
        ..CpuTimes::default()
    };
    let after = CpuTimes {
        user: 60,
        idle: 60,
        ..CpuTimes::default()
    };
    assert_eq!(
        after.utilisation_since(&before),
        Some(Share { part: 10, whole: 10 })
    );
}

#[test]
fn fields_that_are_missing_or_no_numbers_count_as_zero() {
    let (aggregate, cores) = parse_stat("cpu 1 x 3\ncpu10 5\ncpu2 7\ncpux 9\n  cpu1   8  \n");
    let aggregate = aggregate.unwrap();
    assert_eq!((aggregate.user, aggregate.nice, aggregate.system), (1, 0, 3));
    assert_eq!(aggregate.steal, 0);
    let users: Vec<u64> = cores.iter().map(|c| c.user).collect();
    assert_eq!(users, vec![8, 7, 5]);
}

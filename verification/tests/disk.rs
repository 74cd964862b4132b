use nix_core::double::Seconds;
use nix_core::metrics::disk::{is_real_storage, parse_device_stat, DeviceFiles, DiskSampler};

/// What one `nvme0n1` reports.
const REAL_STAT: &str = " 4601473  1387578 78011750   699237  1287432  1433725 89087210  6020478        0   651845  6882982        0        0        0        0   134886   163266\n";

#[test]
fn a_device_stat_is_parsed_from_real_output() {
    let counters = parse_device_stat(REAL_STAT).unwrap();
    assert_eq!(counters.sectors_read, 78_011_750);
    assert_eq!(counters.sectors_written, 89_087_210);
    assert_eq!(counters.bytes_read(), 78_011_750 * 512);
    assert_eq!(counters.bytes_written(), 89_087_210 * 512);
}

#[test]
fn a_short_line_yields_nothing_rather_than_inventing_traffic() {
    assert!(parse_device_stat("1 2 3").is_none());
    assert!(parse_device_stat("").is_none());
    assert!(parse_device_stat("a b c d e f g").is_none());
}

/// A desktop: 43 loop devices, one real disk.
#[test]
fn loop_devices_are_not_storage() {
    assert!(!is_real_storage("loop0", 8));
    assert!(!is_real_storage("loop42", 1_000_000));
    assert!(is_real_storage("nvme0n1", 1_000_215_216));
}

/// The `device` symlink looks like the right structural filter and excludes every one of these,
/// which on an encrypted or RAID install means the dashboard shows no disk at all. This is the
/// `fuseblk` mistake in another costume.
#[test]
fn mapped_raid_and_compressed_devices_are_storage() {
    for name in ["dm-0", "dm-15", "md0", "md127", "zram0"] {
        assert!(
            is_real_storage(name, 1_000_000),
            "{name} is real storage — LUKS, LVM, RAID and zram all lack a `device` link"
        );
    }
}

#[test]
fn a_device_with_no_size_is_skipped() {
    assert!(
        !is_real_storage("sdb", 0),
        "an empty card reader is not a disk"
    );
}

#[test]
fn a_name_merely_containing_a_prefix_is_still_storage() {
    assert!(
        is_real_storage("nvme0n1-loopback", 1024),
        "the prefix rule must anchor at the start"
    );
}

/// An interval in seconds.
fn seconds(value: f64) -> Seconds {
    let bits = value.to_bits();
    Seconds {
        mantissa: (bits & ((1 << 52) - 1)) | (1 << 52),
        exponent: ((bits >> 52) & 0x7ff) as i32 - 1075,
    }
}

fn device(name: &str, size: u64, read: u64, written: u64) -> DeviceFiles {
    DeviceFiles {
        name: name.to_string(),
        size: Some(format!("{size}\n")),
        stat: Some(format!(
            "1 2 {read} 4 5 6 {written} 8 9 10 11 12 13 14 15 16 17"
        )),
    }
}

#[test]
fn disk_the_first_sample_is_not_a_measurement() {
    let mut sampler = DiskSampler::new();
    assert!(
        sampler
            .sample(&vec![device("sda", 1000, 100, 200)], seconds(1.0))
            .is_none(),
        "one reading of a cumulative counter is not a rate"
    );

    let reading = sampler
        .sample(&vec![device("sda", 1000, 1100, 2200)], seconds(1.0))
        .unwrap();
    assert_eq!(reading.totals.read_per_second, 1000 * 512);
    assert_eq!(reading.totals.written_per_second, 2000 * 512);
}

#[test]
fn loops_do_not_reach_the_totals() {
    let devices = |disk: u64, loops: u64| {
        let mut all = vec![device("nvme0n1", 1000, disk, disk)];
        for i in 0..43 {
            all.push(device(&format!("loop{i}"), 8, loops, loops));
        }
        all
    };
    let mut sampler = DiskSampler::new();
    sampler.sample(&devices(0, 0), seconds(1.0));
    let reading = sampler.sample(&devices(100, 9999), seconds(1.0)).unwrap();
    assert_eq!(
        reading.per_device.len(),
        1,
        "one real disk among forty-four"
    );
    assert_eq!(reading.per_device[0].0, "nvme0n1");
    assert_eq!(reading.totals.read_per_second, 100 * 512);
}

#[test]
fn a_counter_reset_is_skipped_rather_than_reported_as_a_burst() {
    let mut sampler = DiskSampler::new();
    sampler.sample(&vec![device("sda", 1000, 10_000, 10_000)], seconds(1.0));

    // Removed and re-added under the same name: counters start again.
    let reading = sampler
        .sample(&vec![device("sda", 1000, 5, 5)], seconds(1.0))
        .unwrap();
    assert_eq!(
        reading.totals.read_per_second, 0,
        "a negative delta is a reset, not a gigabyte read backwards"
    );
}

#[test]
fn a_new_device_contributes_nothing_until_it_has_a_delta() {
    let mut sampler = DiskSampler::new();
    sampler.sample(&vec![device("sda", 1000, 0, 0)], seconds(1.0));

    // A USB stick appears with a lifetime of counters already on it.
    let reading = sampler
        .sample(
            &vec![
                device("sda", 1000, 0, 0),
                device("sdb", 1000, 5_000_000, 5_000_000),
            ],
            seconds(1.0),
        )
        .unwrap();
    assert_eq!(
        reading.totals.read_per_second, 0,
        "its counters since boot are not throughput in the last second"
    );
}

#[test]
fn rates_account_for_the_actual_elapsed_time() {
    let mut sampler = DiskSampler::new();
    sampler.sample(&vec![device("sda", 1000, 0, 0)], seconds(1.0));

    // Two seconds for the same bytes is half the rate.
    let reading = sampler
        .sample(&vec![device("sda", 1000, 1000, 0)], seconds(2.0))
        .unwrap();
    assert_eq!(reading.totals.read_per_second, 500 * 512);
}

#[test]
fn a_missing_directory_reads_as_no_devices() {
    let mut sampler = DiskSampler::new();
    assert!(sampler.sample(&Vec::new(), seconds(1.0)).is_none());
    assert!(sampler.sample(&Vec::new(), seconds(1.0)).is_none());
}

#[test]
fn devices_are_listed_by_name_and_summed() {
    let mut sampler = DiskSampler::new();
    sampler.sample(
        &vec![device("sdb", 9, 0, 0), device("nvme0n1", 9, 0, 0)],
        seconds(1.0),
    );
    let reading = sampler
        .sample(
            &vec![
                device("sdb", 9, 3, 1),
                DeviceFiles {
                    name: "sdc".to_string(),
                    size: None,
                    stat: None,
                },
                device("nvme0n1", 9, 5, 2),
            ],
            seconds(3.0),
        )
        .unwrap();
    let names: Vec<&str> = reading.per_device.iter().map(|d| d.0.as_str()).collect();
    assert_eq!(names, vec!["nvme0n1", "sdb"]);
    // Each device's rate is rounded down on its own.
    assert_eq!(reading.totals.read_per_second, 5 * 512 / 3 + 512);
    assert_eq!(reading.totals.written_per_second, 2 * 512 / 3 + 512 / 3);
}

#[test]
fn an_interval_too_short_to_measure_does_not_divide_by_zero() {
    let mut sampler = DiskSampler::new();
    sampler.sample(&vec![device("sda", 9, 0, 0)], seconds(1.0));
    let reading = sampler.sample(&vec![device("sda", 9, 100, 0)], seconds(f64::EPSILON)).unwrap();
    assert_eq!(reading.totals.read_per_second, u64::MAX);
    assert_eq!(reading.totals.written_per_second, 0);
}

/// The rate is the quotient as floating point has it, rounded down.
#[test]
fn rates_are_the_floating_point_quotient() {
    for (sectors, interval) in [(1_234_567u64, 1.000123456), (7, 0.1), (999_999_999, 0.3)] {
        let mut sampler = DiskSampler::new();
        sampler.sample(&vec![device("sda", 9, 0, 0)], seconds(1.0));
        let reading = sampler
            .sample(&vec![device("sda", 9, sectors, 0)], seconds(interval))
            .unwrap();
        let expected = ((sectors * 512) as f64 / interval) as u64;
        assert_eq!(reading.totals.read_per_second, expected);
    }
}

#[test]
fn this_machines_block_devices_are_filtered_to_the_real_ones() {
    let devices = [("loop0", 8), ("loop1", 40), ("ram0", 8192), ("sr0", 0), ("nvme0n1", 1_000_215_216)];
    let mut total = 0;
    let mut real = 0;
    for (name, size) in devices {
        total += 1;
        if is_real_storage(name, size) {
            real += 1;
        }
    }
    assert!(total > 0);
    assert!(real < total, "loop devices must be filtered out");
    assert!(real > 0, "and the actual disk must not");
}

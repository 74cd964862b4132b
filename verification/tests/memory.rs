use nix_core::metrics::memory::{parse_meminfo, reading_from, sample};
use nix_core::metrics::Share;

fn value(share: Share) -> f32 {
    share.part as f32 / share.whole as f32
}

/// Read at the same instant as the `free -b` output that the expectations
/// below are taken from.
const REAL_MEMINFO: &str = "\
MemTotal:       32636716 kB
MemFree:         1455408 kB
MemAvailable:   19708324 kB
Buffers:         4616876 kB
Cached:         10171592 kB
SwapCached:        62200 kB
Active:         10864432 kB
Inactive:       13774632 kB
SwapTotal:       2097148 kB
SwapFree:         316128 kB
Shmem:           1251528 kB
SReclaimable:    5247952 kB
HugePages_Total:       0
HugePages_Free:        0
Hugepagesize:       2048 kB
";

/// The acceptance criterion: these figures are `free`'s, to the byte.
///
/// Taken from `free -b` run against the same `/proc/meminfo` contents:
///
/// ```text
///        total        used        free      shared  buff/cache   available
/// Mem:   33419997184 11412365312 1490337792 1281564672 20517294080 20181323776
/// Swap:   2147479552  1823764480  323715072
/// ```
#[test]
fn the_figures_match_free_to_the_byte() {
    let reading = reading_from(&parse_meminfo(REAL_MEMINFO));

    assert_eq!(reading.total, 33_419_997_184);
    assert_eq!(reading.used, 11_412_365_312);
    assert_eq!(reading.free, 1_490_337_792);
    assert_eq!(reading.shared, 1_281_564_672);
    assert_eq!(reading.buffers_cache, 20_517_294_080);
    assert_eq!(reading.available, 20_181_323_776);

    assert_eq!(reading.swap_total, 2_147_479_552);
    assert_eq!(reading.swap_used, 1_823_764_480);
    assert_eq!(reading.swap_free, 323_715_072);
}

/// A kernel that adds a field, as they do, shifts every line below it. Read by
/// line index, every number would stay plausible and describe something else.
#[test]
fn fields_are_found_by_name_however_the_file_is_ordered() {
    let shuffled = "\
SReclaimable:    5247952 kB
Shmem:           1251528 kB
SomethingNewInLinux7:  99999 kB
MemAvailable:   19708324 kB
Cached:         10171592 kB
MemTotal:       32636716 kB
Buffers:         4616876 kB
SwapFree:         316128 kB
MemFree:         1455408 kB
SwapTotal:       2097148 kB
";
    let reading = reading_from(&parse_meminfo(shuffled));
    assert_eq!(reading.total, 33_419_997_184);
    assert_eq!(reading.used, 11_412_365_312);
    assert_eq!(
        reading.available, 20_181_323_776,
        "a new field between the old ones must change nothing"
    );
}

/// **Available is not free plus caches.** That approximation predates Linux 3.14.
#[test]
fn available_is_the_kernels_own_estimate_and_not_a_derivation() {
    let reading = reading_from(&parse_meminfo(REAL_MEMINFO));
    let naive = reading.free + reading.buffers_cache;
    assert_ne!(
        reading.available, naive,
        "free + caches is not what a machine can actually give back"
    );
    assert!(
        reading.available < naive,
        "not all cache is reclaimable, so the naive figure overstates by {} bytes",
        naive - reading.available
    );
}

#[test]
fn a_field_without_a_unit_is_a_count_not_a_size() {
    let fields = parse_meminfo(REAL_MEMINFO);
    assert_eq!(fields.get("HugePages_Total").copied(), Some(0));
    assert_eq!(
        fields.get("Hugepagesize").copied(),
        Some(2048 * 1024),
        "this one does carry kB"
    );
}

#[test]
fn a_missing_field_is_zero_rather_than_a_neighbours_value() {
    let reading = reading_from(&parse_meminfo("MemTotal: 1024 kB\n"));
    assert_eq!(reading.total, 1_048_576);
    assert_eq!(reading.available, 0);
    assert_eq!(reading.buffers_cache, 0);
}

#[test]
fn pressure_is_computed_from_available_not_from_used() {
    let reading = reading_from(&parse_meminfo(REAL_MEMINFO));
    let pressure = value(reading.pressure().unwrap());
    // 1 - 20181323776/33419997184 = 0.396...
    assert!((pressure - 0.396).abs() < 0.01, "{pressure}");

    // And a used-based figure would be a very different number.
    let from_used = reading.used as f32 / reading.total as f32;
    assert!(
        (from_used - pressure).abs() > 0.05,
        "the two differ enough that picking the wrong one matters"
    );
}

/// No swap and empty swap are different facts.
#[test]
fn no_swap_reports_nothing_rather_than_zero_percent() {
    let none = reading_from(&parse_meminfo("MemTotal: 1024 kB\n"));
    assert_eq!(none.swap_pressure(), None);

    let empty = reading_from(&parse_meminfo(
        "MemTotal: 1024 kB\nSwapTotal: 512 kB\nSwapFree: 512 kB\n",
    ));
    assert_eq!(empty.swap_pressure().map(value), Some(0.0));
}

#[test]
fn an_empty_file_divides_by_nothing() {
    let reading = reading_from(&parse_meminfo(""));
    assert_eq!(reading.pressure(), None);
    assert_eq!(reading.swap_pressure(), None);
}

/// The components are read at slightly different moments and can momentarily exceed the total.
#[test]
fn an_inconsistent_instant_does_not_wrap_to_exabytes() {
    let reading = reading_from(&parse_meminfo(
        "MemTotal: 100 kB\nMemFree: 80 kB\nBuffers: 80 kB\n",
    ));
    assert_eq!(reading.used, 0, "saturating, not wrapping");
}

#[test]
fn the_columns_add_up_to_the_total() {
    let reading = sample(Some(REAL_MEMINFO)).unwrap();
    assert_eq!(
        reading.total,
        reading.used + reading.free + reading.buffers_cache
    );
    assert_eq!(reading.swap_used + reading.swap_free, reading.swap_total);
    assert_eq!(sample(None), None);
}

#[test]
fn malformed_lines_are_left_out_and_the_last_of_two_wins() {
    let fields = parse_meminfo(
        "no colon\nEmpty:\nWord: many kB\nHuge: 18446744073709551615 kB\nA: 1 kB\n A : 2 kB\r\n",
    );
    assert_eq!(fields.len(), 1);
    assert_eq!(fields.get("A").copied(), Some(2048));
}

#[test]
fn this_machines_memory_is_internally_consistent() {
    let reading = sample(Some(REAL_MEMINFO)).unwrap();

    assert!(reading.total > 0, "a running machine has memory");
    assert_eq!(
        reading.total,
        reading.used + reading.free + reading.buffers_cache,
        "free's three columns must add up to the total"
    );
    assert!(reading.available <= reading.total);
    assert!(
        reading.free <= reading.available,
        "available includes what is free"
    );
    assert!(reading.swap_used + reading.swap_free == reading.swap_total);
    assert!(reading.pressure().is_some_and(|p| (0.0..=1.0).contains(&value(p))));
}

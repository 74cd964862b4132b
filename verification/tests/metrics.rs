use nix_core::double::Seconds;
use nix_core::metrics::disk::DeviceFiles;
use nix_core::metrics::{parse_loadavg, Observed, Pipeline, Ring, HISTORY, TICK};

const ONE_SECOND: Seconds = Seconds {
    mantissa: 1 << 52,
    exponent: -52,
};

fn observed(busy: u64) -> Observed {
    Observed {
        at: 1_787_800_000,
        seconds: ONE_SECOND,
        stat: Some(format!("cpu  {busy} 0 0 1000 0 0 0 0 0 0\ncpu0 {busy} 0 0 1000 0 0 0\n")),
        frequency: Some("1801548\n".to_string()),
        meminfo: Some("MemTotal: 1024 kB\nMemAvailable: 512 kB\n".to_string()),
        loadavg: Some("2.10 1.26 0.96 2/3144 1953697\n".to_string()),
        devices: vec![DeviceFiles {
            name: "sda".to_string(),
            size: Some("9\n".to_string()),
            stat: Some(format!("1 2 {busy} 4 5 6 0 8")),
        }],
        interfaces: Vec::new(),
        inet6: None,
    }
}

#[test]
fn subscribing_starts_sampling_and_dropping_stops_it() {
    let mut pipeline = Pipeline::new();
    assert!(!pipeline.is_sampling());
    assert!(pipeline.latest().is_none());
    pipeline.subscribe();
    assert!(pipeline.is_sampling());
    pipeline.unsubscribe();
    assert!(
        !pipeline.is_sampling(),
        "a view going away must stop the machine sampling, without anyone remembering to say so"
    );
    pipeline.unsubscribe();
    assert!(!pipeline.is_sampling());
}

#[test]
fn several_subscribers_share_one_pipeline() {
    let mut pipeline = Pipeline::new();
    pipeline.subscribe();
    pipeline.subscribe();
    assert!(pipeline.is_sampling());
    pipeline.unsubscribe();
    assert!(
        pipeline.is_sampling(),
        "one view closing must not stop sampling for another"
    );
    pipeline.unsubscribe();
    assert!(!pipeline.is_sampling());
}

/// A view mounting late gets the window that already exists.
#[test]
fn a_late_subscriber_receives_the_history_already_collected() {
    let mut pipeline = Pipeline::new();
    pipeline.subscribe();
    pipeline.tick(&observed(10));
    pipeline.tick(&observed(20));
    pipeline.tick(&observed(30));
    let before = pipeline.history().len();
    assert_eq!(before, 2);

    pipeline.subscribe();
    assert_eq!(
        pipeline.history().len(),
        before,
        "a second subscriber joins the existing window rather than resetting it"
    );
}

/// After a pause the ring no longer means "the last sixty seconds".
#[test]
fn resuming_after_a_pause_starts_the_window_again() {
    let mut pipeline = Pipeline::new();
    pipeline.subscribe();
    pipeline.tick(&observed(10));
    assert!(pipeline.tick(&observed(20)));
    pipeline.unsubscribe();
    pipeline.subscribe();
    assert!(
        pipeline.history().is_empty(),
        "sixty points spaced a second apart would draw a line through time nobody observed"
    );
    assert!(!pipeline.tick(&observed(30)), "and the samplers start again too");
}

/// The first tick has no delta to work from, so it produces nothing rather than a lifetime average.
#[test]
fn the_first_tick_produces_no_reading() {
    let mut pipeline = Pipeline::new();
    pipeline.subscribe();
    assert!(!pipeline.tick(&observed(10)));
    assert!(
        pipeline.history().is_empty(),
        "one reading of a cumulative counter is not a rate"
    );
}

#[test]
fn readings_carry_every_family_and_a_timestamp() {
    let mut pipeline = Pipeline::new();
    pipeline.subscribe();
    pipeline.tick(&observed(10));
    pipeline.tick(&observed(20));
    pipeline.tick(&observed(50));

    let reading = pipeline.latest().unwrap();
    assert!(reading.at > 0, "a reading is anchored in time");
    assert_eq!((reading.cpu.total.part, reading.cpu.total.whole), (30, 30));
    assert_eq!(reading.cpu.frequency_khz, Some(1_801_548));
    assert!(reading.memory.total > 0);
    assert!(reading.load.total > 0);
    assert_eq!(reading.disk.totals.read_per_second, 30 * 512);
    assert_eq!(reading.network.interfaces.len(), 0);
}

/// A family that cannot be read leaves its figures empty; CPU and memory are needed.
#[test]
fn what_cannot_be_read_is_left_out() {
    let mut pipeline = Pipeline::new();
    pipeline.subscribe();
    pipeline.tick(&observed(10));
    let mut partial = observed(20);
    partial.loadavg = None;
    partial.devices = Vec::new();
    assert!(pipeline.tick(&partial));
    assert_eq!(pipeline.latest().unwrap().load.one, "0");
    let mut blind = observed(30);
    blind.meminfo = None;
    assert!(!pipeline.tick(&blind));
    blind = observed(40);
    blind.stat = None;
    assert!(!pipeline.tick(&blind));
}

/// The history is bounded whatever happens.
#[test]
fn the_history_never_exceeds_its_window() {
    let mut pipeline = Pipeline::new();
    pipeline.subscribe();
    for i in 0..(HISTORY + 20) {
        pipeline.tick(&observed(10 * (i as u64 + 1)));
    }
    assert_eq!(pipeline.history().len(), HISTORY);
}

#[test]
fn an_interval_is_never_shorter_than_a_tenth_of_a_second() {
    assert_eq!(Pipeline::interval(None), TICK);
    assert_eq!(Pipeline::interval(Some(5)), TICK / 10);
    assert_eq!(Pipeline::interval(Some(3 * TICK)), 3 * TICK);
}

#[test]
fn a_ring_forgets_its_oldest_and_never_grows() {
    let mut ring: Ring<u32> = Ring::new(3);
    for i in 0..10 {
        ring.push(i);
    }
    assert_eq!(ring.len(), 3, "the capacity is the whole point");
    assert_eq!(ring.samples(), vec![7, 8, 9], "oldest first, newest last");
    assert_eq!(ring.latest(), Some(&9));
}

#[test]
fn a_ring_reports_a_partial_history_rather_than_padding_it() {
    let mut ring: Ring<u32> = Ring::new(60);
    ring.push(1);
    ring.push(2);
    assert_eq!(ring.len(), 2);
    assert_eq!(
        ring.samples(),
        vec![1, 2],
        "two seconds of history is two points, not sixty with fifty-eight zeros"
    );
    ring.clear();
    assert!(ring.is_empty());
}

#[test]
fn an_empty_ring_has_no_latest() {
    let ring: Ring<u32> = Ring::new(60);
    assert!(ring.is_empty());
    assert_eq!(ring.latest(), None);
    assert!(ring.samples().is_empty());
}

#[test]
fn a_zero_capacity_ring_still_holds_one() {
    // Rather than dividing by zero or holding nothing, which would make `latest` useless.
    let mut ring: Ring<u32> = Ring::new(0);
    ring.push(5);
    assert_eq!(ring.latest(), Some(&5));
}

/// As a desktop writes it.
#[test]
fn loadavg_is_parsed_from_real_output() {
    let load = parse_loadavg("2.10 1.26 0.96 2/3144 1953697\n").unwrap();
    let value = |text: &str| text.parse::<f32>().unwrap();
    assert!((value(&load.one) - 2.10).abs() < 0.001);
    assert!((value(&load.five) - 1.26).abs() < 0.001);
    assert!((value(&load.fifteen) - 0.96).abs() < 0.001);
    assert_eq!(load.running, 2);
    assert_eq!(load.total, 3144);
}

#[test]
fn a_malformed_loadavg_yields_nothing_rather_than_zeros() {
    // Zeros would be indistinguishable from a genuinely idle machine.
    assert!(parse_loadavg("").is_none());
    assert!(parse_loadavg("not numbers here").is_none());
    assert!(parse_loadavg("1.0 2.0").is_none());
}

#[test]
fn a_truncated_entity_count_does_not_lose_the_averages() {
    let load = parse_loadavg("0.50 0.40 0.30").unwrap();
    assert!((load.one.parse::<f32>().unwrap() - 0.5).abs() < 0.001);
    assert_eq!(load.running, 0, "unknown, and said so as zero");
}

#[test]
fn nothing_is_sampled_until_something_subscribes() {
    let mut pipeline = Pipeline::new();
    assert!(!pipeline.is_sampling());

    assert!(!pipeline.tick(&observed(100)));
    assert!(!pipeline.tick(&observed(200)));
    assert!(
        pipeline.history().is_empty(),
        "an unsubscribed pipeline must do no work at all"
    );
    assert_eq!(pipeline.latest(), None);
}

#[test]
fn this_machines_loadavg_parses() {
    let load = parse_loadavg("0.00 0.01 0.05 1/212 4711\n").expect("/proc/loadavg must parse");
    assert!(load.one.parse::<f32>().unwrap() >= 0.0);
    assert!(load.total > 0, "a running machine has tasks");
    assert!(load.running <= load.total);
}

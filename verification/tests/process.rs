use nix_core::double::Seconds;
use nix_core::percent::{is_above, percent, Single};
use nix_core::process::{
    parse_command, parse_passwd, parse_stat, read_cmdline, resolve_user, state_from_stat, ProcEntry,
    Process, ProcessSampler, ProcessState, TABLE_INTERVAL,
};

/// What `/proc/1` says on a desktop.
const INIT: &str = "1 (systemd) S 0 1 1 0 -1 4194560 34457 4598526 92 2433 841 559 70932 6591 20 0 1 0 24 172380160 3216 18446744073709551615 1 1 0 0 0 0 671173123 4096 1260 0 0 0 17 0 0 0 0 0 0 0 0 0 0 0 0 0 0";

#[test]
fn a_stat_line_is_parsed_from_real_output() {
    let stat = parse_stat(INIT).unwrap();
    assert_eq!(stat.pid, 1);
    assert_eq!(stat.comm, "systemd");
    assert_eq!(stat.state, ProcessState::Sleeping);
    assert_eq!(stat.ppid, 0);
    assert_eq!(stat.utime, 841);
    assert_eq!(stat.stime, 559);
    assert_eq!(stat.threads, 1);
    assert_eq!(stat.started_ticks, 24);
    assert_eq!(stat.rss_pages, 3216);
}

/// Both of these are real processes. `next-server (v1` has a
/// space *and* an unmatched opening bracket, which defeats splitting on whitespace and defeats
/// splitting on the first `)`.
#[test]
fn a_name_containing_spaces_and_brackets_survives() {
    let line = "4343 (next-server (v1) S 3554 4343 4343 0 -1 4194560 67584 28 559 0 1287 129 0 0 20 0 11 0 1255 22978703360 61063";
    let stat = parse_stat(line).unwrap();
    assert_eq!(stat.comm, "next-server (v1");
    assert_eq!(stat.pid, 4343);
    assert_eq!(stat.ppid, 3554);
    assert_eq!(
        stat.utime, 1287,
        "the fields after the bracket must still line up"
    );
    assert_eq!(stat.threads, 11);

    let npm = "168264 (npm exec fireba) S 168063 168063 165382 34821 168063 4194304 25364 0 0 0 369 38 0 0 20 0 11 0 266807 1371516928 0";
    let stat = parse_stat(npm).unwrap();
    assert_eq!(stat.comm, "npm exec fireba");
    assert_eq!(stat.utime, 369);
}

/// A closing bracket inside the name is why the *last* one is used.
#[test]
fn a_name_containing_a_closing_bracket_survives() {
    let line = "99 (weird)name) R 1 99 99 0 -1 0 0 0 0 0 7 3 0 0 20 0 2 0 500 100 25";
    let stat = parse_stat(line).unwrap();
    assert_eq!(
        stat.comm, "weird)name",
        "splitting on the first bracket would truncate here"
    );
    assert_eq!(stat.utime, 7);
    assert_eq!(stat.stime, 3);
}

#[test]
fn a_malformed_line_yields_nothing_rather_than_a_wrong_process() {
    assert!(parse_stat("").is_none());
    assert!(parse_stat("no brackets here").is_none());
    assert!(parse_stat("notanumber (thing) S 1").is_none());
    assert!(parse_stat("1 (unclosed S 0 1").is_none());
}

#[test]
fn every_state_letter_the_kernel_uses_is_understood() {
    for (letter, expected) in [
        ("R", ProcessState::Running),
        ("S", ProcessState::Sleeping),
        ("D", ProcessState::DiskSleep),
        ("T", ProcessState::Stopped),
        ("t", ProcessState::Stopped),
        ("Z", ProcessState::Zombie),
        ("I", ProcessState::Idle),
        ("X", ProcessState::Other),
    ] {
        assert_eq!(ProcessState::parse(letter), expected);
    }
}

/// A zombie has already exited, so signalling it cannot do anything.
#[test]
fn a_zombie_is_not_signalable() {
    assert!(!ProcessState::Zombie.is_signalable());
    for alive in [
        ProcessState::Running,
        ProcessState::Sleeping,
        ProcessState::DiskSleep,
        ProcessState::Stopped,
        ProcessState::Idle,
    ] {
        assert!(alive.is_signalable(), "{alive:?}");
    }
}

#[test]
fn passwd_is_parsed_into_uids() {
    let users = parse_passwd(
        "root:x:0:0:root:/root:/bin/bash\ndaemon:x:1:1:daemon:/usr/sbin:/usr/sbin/nologin\nbroken\n",
    );
    assert_eq!(users.get(&0).map(String::as_str), Some("root"));
    assert_eq!(users.get(&1).map(String::as_str), Some("daemon"));
    assert_eq!(users.len(), 2, "a malformed line is skipped");
}

const PASSWD: &str =
    "root:x:0:0:root:/root:/bin/sh\nalice:x:1000:1000::/home/alice:/bin/sh\n";

/// What `/proc/<pid>` holds.
fn process(pid: u32, comm: &str, started: u64, ticks: u64, uid: u32) -> ProcEntry {
    ProcEntry {
        name: pid.to_string(),
        // utime carries the whole figure and stime is zero, which keeps the fixture readable.
        stat: Some(format!(
            "{pid} ({comm}) S 1 {pid} {pid} 0 -1 0 0 0 0 0 {ticks} 0 0 0 20 0 4 0 {started} 100 512"
        )),
        uid: Some(uid),
        cmdline: Some(format!("/usr/bin/{comm}\0--flag\0").into_bytes()),
    }
}

/// A length of time in seconds.
fn seconds(x: f64) -> Seconds {
    if x == 0.0 {
        return Seconds { mantissa: 0, exponent: 0 };
    }
    let bits = x.to_bits();
    let exponent = ((bits >> 52) & 0x7ff) as i32;
    Seconds { mantissa: (bits & 0xf_ffff_ffff_ffff) | (1 << 52), exponent: exponent - 1075 }
}

fn figure(x: Single) -> f32 {
    (x.mantissa as f64 * 2f64.powi(x.exponent as i32)) as f32
}

/// Percentage of one core.
fn cpu_percent(process: &Process) -> f32 {
    figure(process.cpu_percent)
}

/// The first sample has nothing to subtract, so CPU is zero rather than a lifetime average.
#[test]
fn the_first_sample_reports_no_cpu_rather_than_an_average_since_start() {
    // A process that has burned a great deal of CPU over a long life.
    let mut sampler = ProcessSampler::new(Some(PASSWD));
    assert!(!sampler.has_history());
    let first = sampler.sample(Some(&vec![process(100, "hog", 50, 999_999, 1000)]), seconds(1.0));
    assert_eq!(first.len(), 1);
    assert_eq!(
        cpu_percent(&first[0]),
        0.0,
        "999,999 ticks since boot is not what it is doing now"
    );
    assert!(sampler.has_history());
}

#[test]
fn cpu_is_the_delta_over_the_interval() {
    let mut sampler = ProcessSampler::new(Some(PASSWD));
    sampler.sample(Some(&vec![process(100, "worker", 50, 1000, 1000)]), seconds(1.0));
    // 50 more ticks in one second, at 100 ticks a second, is half a core.
    let second = sampler.sample(Some(&vec![process(100, "worker", 50, 1050, 1000)]), seconds(1.0));
    assert!((cpu_percent(&second[0]) - 50.0).abs() < 0.01);
}

/// A threaded process can exceed one core, and the figure says so rather than clamping.
#[test]
fn a_process_using_several_cores_reads_above_one_hundred() {
    let mut sampler = ProcessSampler::new(Some(PASSWD));
    sampler.sample(Some(&vec![process(100, "builder", 50, 0, 1000)]), seconds(1.0));
    // 400 ticks in one second is four cores' worth.
    let second = sampler.sample(Some(&vec![process(100, "builder", 50, 400, 1000)]), seconds(1.0));
    assert!(
        (cpu_percent(&second[0]) - 400.0).abs() < 0.01,
        "clamping to 100 would hide that a build is using four cores"
    );
}

/// Pids are reused. A new process must not inherit the old one's counters.
#[test]
fn a_reused_pid_does_not_inherit_the_previous_processes_cpu() {
    let mut sampler = ProcessSampler::new(Some(PASSWD));
    sampler.sample(Some(&vec![process(100, "old", 50, 500_000, 1000)]), seconds(1.0));
    // Same pid, different start time: a different process entirely.
    let second = sampler.sample(Some(&vec![process(100, "new", 900_000, 10, 1000)]), seconds(1.0));
    assert_eq!(second[0].name, "new");
    assert_eq!(
        cpu_percent(&second[0]),
        0.0,
        "a freshly started process has no history, whatever its pid used to belong to"
    );
}

#[test]
fn counters_going_backwards_report_zero_rather_than_a_wrapped_figure() {
    let mut sampler = ProcessSampler::new(Some(PASSWD));
    sampler.sample(Some(&vec![process(100, "thing", 50, 1000, 1000)]), seconds(1.0));
    let second = sampler.sample(Some(&vec![process(100, "thing", 50, 5, 1000)]), seconds(1.0));
    assert_eq!(cpu_percent(&second[0]), 0.0);
}

#[test]
fn a_uid_resolves_to_a_name_or_to_its_own_number() {
    let users = parse_passwd("root:x:0:0::/root:/bin/sh\nalice:x:1000:1000::/home/alice:/bin/sh\n");
    assert_eq!(resolve_user(0, &users), "root");
    assert_eq!(resolve_user(1000, &users), "alice");
    assert_eq!(
        resolve_user(90210, &users),
        "90210",
        "a uid with no passwd entry — a container's — shows as itself rather than as blank"
    );
}

#[test]
fn a_sampled_process_always_has_a_user_string() {
    let mut sampler = ProcessSampler::new(Some(PASSWD));
    let all = sampler.sample(Some(&vec![process(100, "mine", 50, 0, 1000)]), seconds(1.0));
    assert_eq!(all[0].user, "alice");
    let mut unowned = process(101, "other", 50, 0, 7);
    unowned.uid = None;
    assert_eq!(sampler.sample(Some(&vec![unowned]), seconds(1.0))[0].user, "root");
    let mut strangers = ProcessSampler::new(None);
    assert!(
        !strangers.sample(Some(&vec![process(1, "x", 1, 0, 42)]), seconds(1.0))[0].user.is_empty(),
        "whatever the owner is, the column is never blank"
    );
}

#[test]
fn a_kernel_thread_shows_its_name_in_brackets() {
    let mut sampler = ProcessSampler::new(Some(PASSWD));
    let all = sampler.sample(Some(&vec![ProcEntry {
        name: "2".to_string(),
        stat: Some("2 (kthreadd) S 0 0 0 0 -1 0 0 0 0 0 0 0 0 0 20 0 1 0 24 0 0".to_string()),
        uid: Some(0),
        cmdline: Some(Vec::new()),
    }]), seconds(1.0));
    assert_eq!(
        all[0].command, "[kthreadd]",
        "an empty cmdline means a kernel thread, not a process with no arguments"
    );
}

#[test]
fn non_numeric_entries_in_proc_are_not_processes() {
    let mut sampler = ProcessSampler::new(Some(PASSWD));
    let mut imposter = process(7, "imposter", 50, 0, 1000);
    imposter.name = "self".to_string();
    let all = sampler.sample(Some(&vec![imposter, process(100, "real", 50, 0, 1000)]), seconds(1.0));
    assert_eq!(all.len(), 1, "`self` is not a process");
    assert_eq!(all[0].name, "real");
}

#[test]
fn a_vanished_process_is_skipped_rather_than_failing_the_sample() {
    let mut sampler = ProcessSampler::new(Some(PASSWD));
    let mut gone = process(999, "gone", 1, 0, 0);
    gone.stat = None;
    let all = sampler.sample(Some(&vec![process(100, "alive", 50, 0, 1000), gone]), seconds(1.0));
    assert_eq!(
        all.len(),
        1,
        "one exiting process must not lose the other 651"
    );
}

#[test]
fn a_zero_interval_does_not_divide_into_an_absurd_figure() {
    let mut sampler = ProcessSampler::new(Some(PASSWD));
    sampler.sample(Some(&vec![process(100, "thing", 50, 0, 1000)]), seconds(1.0));
    let second = sampler.sample(Some(&vec![process(100, "thing", 50, 100, 1000)]), seconds(0.0));
    let percent = cpu_percent(&second[0]);
    assert!(percent.is_finite() && percent <= 10_000.0, "got {percent}");
}

#[test]
fn the_table_is_ordered_by_cpu_then_memory() {
    let mut sampler = ProcessSampler::new(Some(PASSWD));
    let all = |ticks: [u64; 3]| {
        vec![
            process(100, "p100", 50, ticks[0], 1000),
            process(101, "p101", 50, ticks[1], 1000),
            process(102, "p102", 50, ticks[2], 1000),
        ]
    };
    sampler.sample(Some(&all([0, 0, 0])), seconds(1.0));
    let rows = sampler.sample(Some(&all([10, 90, 50])), seconds(1.0));
    assert_eq!(rows[0].pid, 101, "busiest first");
    assert_eq!(rows[2].pid, 100);

    let heavy = "7 (heavy) S 1 7 7 0 -1 0 0 0 0 0 0 0 0 0 20 0 4 0 1 100 9999";
    let mut big = process(7, "heavy", 1, 0, 0);
    big.stat = Some(heavy.to_string());
    let rows = ProcessSampler::new(None).sample(Some(&vec![process(8, "light", 1, 0, 0), big]), seconds(1.0));
    assert_eq!(rows[0].pid, 7, "and then by memory");
    assert_eq!(rows[0].memory_bytes, 9999 * 4096);
}

#[test]
fn command_lines_lose_their_separators_and_nothing_else() {
    assert_eq!(
        read_cmdline(&Some(b"/usr/bin/x\0--a\0\0b c\0".to_vec())).as_deref(),
        Some("/usr/bin/x --a b c")
    );
    assert_eq!(read_cmdline(&Some(b"\0\0".to_vec())), None);
    assert_eq!(read_cmdline(&None), None);
    assert_eq!(
        read_cmdline(&Some(vec![b'a', 0xff, b'b'])).as_deref(),
        Some("a\u{fffd}b"),
        "bytes that are no text are replaced"
    );
    assert_eq!(parse_command("été\0x").as_deref(), Some("été x"));
}

#[test]
fn the_state_alone_can_be_read() {
    assert_eq!(state_from_stat(INIT), Some(ProcessState::Sleeping));
    assert_eq!(state_from_stat("1 (x) Z"), Some(ProcessState::Zombie));
    assert_eq!(state_from_stat("1 (x)"), None);
    assert_eq!(TABLE_INTERVAL, 2_000_000_000);
}

/// The figure is the one that floating point gives, to the last bit.
#[test]
fn percentages_are_those_of_floating_point() {
    for ticks in [1u128, 3, 7, 33, 50, 99, 100, 101, 12_345, 999_999_937, 1 << 40, u64::MAX as u128] {
        for elapsed in [0.0f64, 1e-9, 0.004, 0.01, 0.1, 1.0, 1.000123, 2.0, 2.7, 3600.0, 1e15] {
            let span = (elapsed * 100.0).max(1.0);
            let expected = (ticks as f64 / span * 100.0) as f32;
            let found = percent(ticks, seconds(elapsed));
            assert_eq!(figure(found), expected, "{ticks} over {elapsed}");
            assert!(found.mantissa >= 1 << 23 && found.mantissa < 1 << 24);
        }
    }
    assert_eq!(percent(0, seconds(1.0)), Single { mantissa: 0, exponent: 0 });
}

#[test]
fn each_busy_core_is_a_hundred_percent() {
    for cores in [1u128, 3, 4, 64, 4096] {
        for whole in [1.0f64, 2.0, 7.0, 86_400.0] {
            let found = percent(100 * whole as u128 * cores, seconds(whole));
            assert_eq!(figure(found), 100.0 * cores as f32);
        }
    }
}

#[test]
fn percentages_compare_as_numbers() {
    let all = [0u128, 1, 2, 50, 100, 101, 30_000];
    for a in all {
        for b in all {
            let (x, y) = (percent(a, seconds(1.0)), percent(b, seconds(1.0)));
            assert_eq!(is_above(x, y), a > b, "{a} {b}");
        }
    }
}

/// Where `/proc` cannot be listed, the counters of the last sample stand.
#[test]
fn an_unlistable_table_keeps_the_last_sample() {
    let mut sampler = ProcessSampler::default();
    sampler.sample(Some(&vec![process(100, "worker", 50, 1000, 1000)]), seconds(1.0));
    assert!(sampler.sample(None, seconds(1.0)).is_empty());
    assert!(sampler.has_history());
    let later = sampler.sample(Some(&vec![process(100, "worker", 50, 1050, 1000)]), seconds(1.0));
    assert_eq!(cpu_percent(&later[0]), 50.0);
    assert!(sampler.sample(Some(&Vec::new()), seconds(1.0)).is_empty());
    assert!(!sampler.has_history());
}

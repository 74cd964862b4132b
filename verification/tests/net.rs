use nix_core::double::Seconds;
use nix_core::metrics::net::{ipv6_addresses, is_loopback, is_physical, InterfaceFiles, NetSampler};

/// An interval in seconds.
fn seconds(value: f64) -> Seconds {
    let bits = value.to_bits();
    Seconds {
        mantissa: (bits & ((1 << 52) - 1)) | (1 << 52),
        exponent: ((bits >> 52) & 0x7ff) as i32 - 1075,
    }
}

/// `kind` is `"physical"`, `"virtual"` or `"loopback"`.
fn interface(name: &str, kind: &str, rx: u64, tx: u64) -> InterfaceFiles {
    InterfaceFiles {
        name: name.to_string(),
        kind: Some(if kind == "loopback" { "772\n" } else { "1\n" }.to_string()),
        rx_bytes: Some(format!("{rx}\n")),
        tx_bytes: Some(format!("{tx}\n")),
        device: kind == "physical",
        operstate: Some("up\n".to_string()),
        carrier: Some("1\n".to_string()),
        speed: None,
        address: None,
        mtu: None,
    }
}

/// The accuracy point: a container's bytes cross three interfaces.
#[test]
fn only_physical_interfaces_reach_the_totals() {
    let all = |rx: u64, tx: u64| {
        vec![
            interface("wlp0s20f3", "physical", rx, tx),
            interface("docker0", "virtual", rx, tx),
            interface("veth123", "virtual", rx, tx),
            interface("br-abc", "virtual", rx, tx),
        ]
    };
    let mut sampler = NetSampler::new();
    sampler.sample(&all(0, 0), None, seconds(1.0));

    // The same 1000 bytes, counted by all four.
    let reading = sampler.sample(&all(1000, 500), None, seconds(1.0)).unwrap();
    assert_eq!(
        reading.received_per_second, 1000,
        "one byte crossing four interfaces is one byte, not four"
    );
    assert_eq!(reading.sent_per_second, 500);
    assert_eq!(
        reading.interfaces.len(),
        4,
        "all four are still recorded individually"
    );
}

/// Loopback is excluded by its kind, not by being spelled `lo`.
#[test]
fn loopback_is_excluded_by_its_type() {
    let mut sampler = NetSampler::new();
    sampler.sample(
        &vec![
            interface("lo", "loopback", 0, 0),
            interface("eth0", "physical", 0, 0),
        ],
        None,
        seconds(1.0),
    );
    let reading = sampler
        .sample(
            &vec![
                interface("lo", "loopback", 9_000_000, 9_000_000),
                interface("eth0", "physical", 100, 100),
            ],
            None,
            seconds(1.0),
        )
        .unwrap();
    assert!(
        !reading.interfaces.iter().any(|i| i.name == "lo"),
        "traffic a machine sends to itself is not network throughput"
    );
    assert_eq!(reading.received_per_second, 100);
    assert!(is_loopback(&interface("x", "loopback", 0, 0)));
    assert!(!is_loopback(&interface("lo", "virtual", 0, 0)));
}

/// An interface named `lo-something` is not loopback; the kind is what decides.
#[test]
fn a_name_beginning_with_lo_is_not_loopback() {
    let mut sampler = NetSampler::new();
    sampler.sample(&vec![interface("lolan0", "physical", 0, 0)], None, seconds(1.0));
    let reading = sampler
        .sample(&vec![interface("lolan0", "physical", 400, 0)], None, seconds(1.0))
        .unwrap();
    assert_eq!(reading.received_per_second, 400);
}

#[test]
fn net_the_first_sample_is_not_a_measurement() {
    let mut sampler = NetSampler::new();
    assert!(
        sampler
            .sample(
                &vec![interface("eth0", "physical", 5_000_000, 5_000_000)],
                None,
                seconds(1.0)
            )
            .is_none(),
        "lifetime counters are not a rate"
    );
    let reading = sampler
        .sample(
            &vec![interface("eth0", "physical", 5_001_000, 5_000_500)],
            None,
            seconds(1.0),
        )
        .unwrap();
    assert_eq!(reading.received_per_second, 1000);
    assert_eq!(reading.sent_per_second, 500);
}

#[test]
fn an_interface_bouncing_resets_its_counters_without_a_burst() {
    let mut sampler = NetSampler::new();
    sampler.sample(
        &vec![interface("eth0", "physical", 5_000_000, 5_000_000)],
        None,
        seconds(1.0),
    );
    let reading = sampler
        .sample(&vec![interface("eth0", "physical", 12, 12)], None, seconds(1.0))
        .unwrap();
    assert_eq!(
        reading.received_per_second, 0,
        "down and up is a reset, not five megabytes received backwards"
    );
}

#[test]
fn interfaces_are_ordered_by_traffic() {
    let mut sampler = NetSampler::new();
    sampler.sample(
        &vec![
            interface("quiet", "physical", 0, 0),
            interface("busy", "physical", 0, 0),
        ],
        None,
        seconds(1.0),
    );
    let reading = sampler
        .sample(
            &vec![
                interface("quiet", "physical", 10, 10),
                interface("busy", "physical", 9000, 9000),
            ],
            None,
            seconds(1.0),
        )
        .unwrap();
    assert_eq!(reading.interfaces[0].name, "busy");
}

/// From a real `/proc/net/if_inet6`.
#[test]
fn ipv6_addresses_are_parsed_and_grouped_per_interface() {
    let file = "fe80000000000000a71e535bf81de1a5 03 40 20 80 wlp0s20f3\n\
         fe80000000000000cc28fcfffe772f80 21 40 20 80 vetha1cfd38\n\
         20010db8000000000000000000000001 03 40 00 80 wlp0s20f3\n";

    let wifi = ipv6_addresses(Some(file), "wlp0s20f3");
    assert_eq!(wifi.len(), 2, "an interface can hold several addresses");
    assert_eq!(wifi[0], "fe80:0000:0000:0000:a71e:535b:f81d:e1a5");
    assert_eq!(wifi[1], "2001:0db8:0000:0000:0000:0000:0000:0001");
    assert_eq!(ipv6_addresses(Some(file), "vetha1cfd38").len(), 1);
}

#[test]
fn a_malformed_inet6_line_is_skipped() {
    let file = "notlongenough 03 40 20 80 eth0\n\
         zzzz000000000000a71e535bf81de1a5 03 40 20 80 eth0\n\
         fe80000000000000a71e535bf81de1a5 03 40 20 80\n\
         fe80000000000000a71e535bf81de1a5 03 40 20 80 eth0\n";
    assert_eq!(
        ipv6_addresses(Some(file), "eth0").len(),
        1,
        "a short address and a non-hex one are not addresses"
    );
}

#[test]
fn a_missing_inet6_file_yields_no_addresses() {
    assert!(ipv6_addresses(None, "eth0").is_empty());
}

#[test]
fn link_state_is_read_alongside_the_counters() {
    let linked = |bytes: u64| {
        let mut i = interface("eth0", "physical", bytes, bytes);
        i.speed = Some("1000".to_string());
        i.address = Some("60:dd:8e:ed:73:e9".to_string());
        i.mtu = Some("1500".to_string());
        vec![i]
    };
    let mut sampler = NetSampler::new();
    sampler.sample(&linked(0), None, seconds(1.0));
    let inet6 = "fe80000000000000a71e535bf81de1a5 03 40 20 80 eth0\n";
    let reading = sampler.sample(&linked(100), Some(inet6), seconds(1.0)).unwrap();
    let eth = &reading.interfaces[0];
    assert_eq!(eth.operstate, "up");
    assert!(eth.carrier);
    assert_eq!(eth.speed_mbps, Some(1000));
    assert_eq!(eth.mac.as_deref(), Some("60:dd:8e:ed:73:e9"));
    assert_eq!(eth.mtu, Some(1500));
    assert_eq!(eth.ipv6.len(), 1);
    assert!(eth.is_active());
}

/// A wireless driver reports no speed. That is unknown, not zero.
#[test]
fn an_absent_speed_is_unknown_rather_than_zero() {
    let mut sampler = NetSampler::new();
    sampler.sample(&vec![interface("wlan0", "physical", 0, 0)], None, seconds(1.0));
    let mut unreadable = interface("wlan0", "physical", 1, 1);
    unreadable.speed = Some("-1\n".to_string());
    unreadable.operstate = None;
    unreadable.carrier = None;
    let reading = sampler.sample(&vec![unreadable], None, seconds(1.0)).unwrap();
    assert_eq!(reading.interfaces[0].speed_mbps, None);
    assert_eq!(reading.interfaces[0].operstate, "unknown");
    assert!(!reading.interfaces[0].carrier);
}

/// Activity is judged per tick: it follows the link.
#[test]
fn an_interface_losing_its_link_stops_being_active() {
    let mut sampler = NetSampler::new();
    sampler.sample(
        &vec![
            interface("eth0", "physical", 0, 0),
            interface("wlan0", "physical", 0, 0),
        ],
        None,
        seconds(1.0),
    );

    // The cable comes out; the wireless associates.
    let mut cable = interface("eth0", "physical", 0, 0);
    cable.carrier = Some("0".to_string());
    cable.operstate = Some("down".to_string());
    let reading = sampler
        .sample(
            &vec![cable, interface("wlan0", "physical", 5000, 5000)],
            None,
            seconds(1.0),
        )
        .unwrap();
    let eth = reading.interfaces.iter().find(|i| i.name == "eth0").unwrap();
    let wlan = reading.interfaces.iter().find(|i| i.name == "wlan0").unwrap();
    assert!(!eth.is_active(), "no carrier and down is not active");
    assert!(wlan.is_active());
    assert_eq!(
        reading.interfaces.iter().filter(|i| i.is_active()).count(),
        1,
        "the featured interface follows the link, without a restart"
    );
}

/// Activity alone is not enough: most virtual interfaces are "active".
#[test]
fn the_featured_interface_is_physical_and_carrying_traffic() {
    let all = |card: u64, rest: u64| {
        let mut v = vec![
            interface("wlan0", "physical", card, card),
            interface("docker0", "virtual", rest, rest),
        ];
        for i in 0..5 {
            v.push(interface(&format!("veth{i}"), "virtual", rest, rest));
        }
        v
    };
    let mut sampler = NetSampler::new();
    sampler.sample(&all(0, 0), None, seconds(1.0));
    let reading = sampler.sample(&all(1000, 9000), None, seconds(1.0)).unwrap();
    assert_eq!(
        reading.featured().map(|i| i.name.as_str()),
        Some("wlan0"),
        "a Docker veth is not the machine's network connection"
    );
}

#[test]
fn nothing_is_featured_when_no_hardware_has_a_link() {
    let mut sampler = NetSampler::new();
    sampler.sample(&vec![interface("eth0", "physical", 0, 0)], None, seconds(1.0));
    let mut cable = interface("eth0", "physical", 10, 10);
    cable.carrier = Some("0".to_string());
    cable.operstate = Some("down".to_string());
    let reading = sampler.sample(&vec![cable], None, seconds(1.0)).unwrap();
    assert!(
        reading.featured().is_none(),
        "an unplugged machine has no featured interface, rather than a dead one"
    );
}

#[test]
fn a_missing_directory_reads_as_no_interfaces() {
    let mut sampler = NetSampler::new();
    assert!(sampler.sample(&Vec::new(), None, seconds(1.0)).is_none());
}

#[test]
fn hardware_is_what_the_kernel_links_to_a_device() {
    assert!(is_physical(&interface("eth0", "physical", 0, 0)));
    assert!(!is_physical(&interface("docker0", "virtual", 0, 0)));
}

use nix_core::metrics::sensors::{read, ChipFiles, SensorFile, Temperature};
use nix_core::metrics::Share;

fn chip(directory: &str, name: &str, files: &[(&str, &str)]) -> ChipFiles {
    let mut all = vec![SensorFile {
        name: "name".to_string(),
        text: Some(format!("{name}\n")),
    }];
    for (file, text) in files {
        all.push(SensorFile {
            name: file.to_string(),
            text: Some(text.to_string()),
        });
    }
    ChipFiles {
        directory: directory.to_string(),
        files: Some(all),
    }
}

/// What a `coretemp` exposes.
#[test]
fn temperatures_are_read_with_their_labels_and_thresholds() {
    let reading = read(vec![chip(
        "hwmon4",
        "coretemp",
        &[
            ("temp1_input", "60000"),
            ("temp1_label", "Package id 0"),
            ("temp1_max", "100000"),
            ("temp1_crit", "100000"),
        ],
    )]);
    assert_eq!(reading.temperatures.len(), 1);
    let t = &reading.temperatures[0];
    assert_eq!(t.chip, "coretemp");
    assert_eq!(t.label, "Package id 0");
    assert_eq!(t.millicelsius, 60_000, "milli-degrees, not degrees");
    assert_eq!(t.high_millicelsius, Some(100_000));
    assert_eq!(t.critical_millicelsius, Some(100_000));
}

#[test]
fn a_machine_with_no_fans_reports_none_rather_than_zero_rpm() {
    // Exactly what one laptop's vendor chip exposes: a control, and no reading.
    let reading = read(vec![chip("hwmon6", "hp", &[("pwm1_enable", "2")])]);
    assert!(
        reading.fans.is_empty(),
        "a passively cooled machine has nothing to report, not a fan at 0 RPM"
    );
}

/// Sensor numbering is not contiguous.
#[test]
fn a_gap_in_the_numbering_does_not_stop_the_enumeration() {
    let reading = read(vec![chip(
        "hwmon3",
        "nvme",
        &[("temp1_input", "40000"), ("temp3_input", "45000")],
    )]);
    assert_eq!(
        reading.temperatures.len(),
        2,
        "counting up until a miss would stop at temp1"
    );
}

#[test]
fn every_chip_is_read_not_just_the_first() {
    let reading = read(vec![
        chip("hwmon0", "coretemp", &[("temp1_input", "60000")]),
        ChipFiles {
            directory: "hwmon9".to_string(),
            files: None,
        },
        chip("hwmon1", "nvme", &[("temp1_input", "40000")]),
    ]);
    assert_eq!(reading.temperatures.len(), 2);
    let chips: Vec<&str> = reading.temperatures.iter().map(|t| t.chip.as_str()).collect();
    assert!(chips.contains(&"coretemp") && chips.contains(&"nvme"));
}

#[test]
fn a_sensor_without_a_label_falls_back_to_its_number() {
    let reading = read(vec![chip("hwmon1", "acpitz", &[("temp1_input", "42000")])]);
    assert_eq!(reading.temperatures[0].label, "temp1");
}

#[test]
fn severity_uses_the_hardwares_own_threshold_or_says_nothing() {
    let hot = Temperature {
        chip: "coretemp".into(),
        label: "Package id 0".into(),
        millicelsius: 90_000,
        high_millicelsius: Some(100_000),
        critical_millicelsius: Some(100_000),
    };
    let severity = hot.severity().unwrap();
    assert!((severity.part as f32 / severity.whole as f32 - 0.9).abs() < 0.01);

    let unknown = Temperature {
        critical_millicelsius: None,
        ..hot.clone()
    };
    assert_eq!(
        unknown.severity(),
        None,
        "hot for an NVMe controller and for a CPU are different numbers, and neither is 80"
    );
    let freezing = Temperature {
        millicelsius: -5_000,
        ..hot.clone()
    };
    assert_eq!(
        freezing.severity(),
        Some(Share {
            part: 0,
            whole: 100_000
        })
    );
    let absurd = Temperature {
        critical_millicelsius: Some(0),
        ..hot
    };
    assert_eq!(absurd.severity(), None);
}

#[test]
fn the_hottest_sensor_is_the_one_reported() {
    let reading = read(vec![chip(
        "hwmon0",
        "coretemp",
        &[
            ("temp1_input", "60000"),
            ("temp2_input", "75000"),
            ("temp3_input", "55000"),
        ],
    )]);
    assert_eq!(reading.hottest().unwrap().millicelsius, 75_000);
    assert!(
        reading.temperatures[0].millicelsius >= reading.temperatures[1].millicelsius,
        "hottest first"
    );
}

#[test]
fn a_missing_hwmon_directory_is_an_empty_reading() {
    let reading = read(Vec::new());
    assert!(reading.temperatures.is_empty());
    assert!(reading.fans.is_empty());
    assert_eq!(reading.hottest(), None);
}

#[test]
fn an_unreadable_sensor_is_skipped_rather_than_reported_as_zero() {
    let reading = read(vec![chip(
        "hwmon0",
        "coretemp",
        &[("temp1_input", "not a number"), ("temp2_input", "50000")],
    )]);
    assert_eq!(reading.temperatures.len(), 1, "0°C would look like a fault");
}

#[test]
fn fans_are_read_and_listed_by_chip_and_label() {
    let reading = read(vec![
        chip(
            "hwmon1",
            "nct",
            &[
                ("fan2_input", "900\n"),
                ("fan2_label", "Rear"),
                ("fan1_input", "0"),
                ("fan3_input", "-1"),
            ],
        ),
        ChipFiles {
            directory: "hwmon0".to_string(),
            files: Some(vec![SensorFile {
                name: "fan1_input".to_string(),
                text: Some("1200".to_string()),
            }]),
        },
    ]);
    let fans: Vec<(&str, &str, u32)> = reading
        .fans
        .iter()
        .map(|f| (f.chip.as_str(), f.label.as_str(), f.rpm))
        .collect();
    assert_eq!(
        fans,
        vec![("hwmon0", "fan1", 1200), ("nct", "Rear", 900), ("nct", "fan1", 0)]
    );
}

#[test]
fn this_machines_sensors_are_plausible() {
    let reading = read(vec![
        chip("hwmon1", "acpitz", &[("temp1_input", "27800\n")]),
        chip("hwmon4", "coretemp", &[("temp1_input", "60000\n"), ("temp2_input", "-4000\n")]),
    ]);
    assert_eq!(reading.temperatures.len(), 3);
    for t in &reading.temperatures {
        assert!(
            (-50_000..=150_000).contains(&t.millicelsius),
            "{} on {} reads {} thousandths of a degree",
            t.label,
            t.chip,
            t.millicelsius
        );
        assert!(!t.chip.is_empty());
    }
    assert!(reading.hottest().is_some());
}

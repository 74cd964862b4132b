use nix_core::double::Real;
use nix_core::metrics::power::{battery_at, energy_figures, read, ChargeState, SupplyFiles};

fn node(name: &str, fields: &[(&str, &str)]) -> SupplyFiles {
    let get = |file: &str| {
        fields
            .iter()
            .find(|(f, _)| *f == file)
            .map(|(_, value)| value.to_string())
    };
    SupplyFiles {
        name: name.to_string(),
        kind: get("type"),
        online: get("online"),
        status: get("status"),
        capacity: get("capacity"),
        energy_now: get("energy_now"),
        energy_full: get("energy_full"),
        energy_full_design: get("energy_full_design"),
        power_now: get("power_now"),
        voltage_now: get("voltage_now"),
        charge_now: get("charge_now"),
        charge_full: get("charge_full"),
        charge_full_design: get("charge_full_design"),
        current_now: get("current_now"),
        cycle_count: get("cycle_count"),
        technology: get("technology"),
    }
}

fn value(r: Real) -> f64 {
    let size = r.mantissa as f64 * 2f64.powi(r.exponent as i32);
    if r.negative {
        -size
    } else {
        size
    }
}

/// Exactly what one laptop reports. It uses the charge form.
#[test]
fn a_charge_form_battery_is_read_correctly() {
    let reading = read(&vec![node(
        "BAT0",
        &[
            ("type", "Battery"),
            ("status", "Not charging"),
            ("capacity", "97"),
            ("charge_now", "3334000"),
            ("charge_full", "3408000"),
            ("charge_full_design", "4590000"),
            ("current_now", "0"),
            ("voltage_now", "12456000"),
            ("cycle_count", "243"),
            ("technology", "Li-ion"),
        ],
    )]);
    assert_eq!(reading.batteries.len(), 1);
    let battery = &reading.batteries[0];

    assert_eq!(battery.state, ChargeState::NotCharging);
    assert_eq!(battery.percent, 97);
    // 3408000 / 4590000 = 74.2%
    assert_eq!(
        battery.health_percent,
        Some(74),
        "97% charged and 74% healthy are both true and mean different things"
    );
    assert_eq!(battery.cycles, Some(243));
    assert_eq!(battery.technology.as_deref(), Some("Li-ion"));
}

#[test]
fn both_the_energy_and_charge_forms_are_understood() {
    let energy = read(&vec![node(
        "BAT0",
        &[
            ("type", "Battery"),
            ("status", "Discharging"),
            ("energy_now", "30000000"),
            ("energy_full", "60000000"),
            ("energy_full_design", "80000000"),
            ("power_now", "15000000"),
        ],
    )]);
    assert_eq!(energy.batteries[0].percent, 50, "derived from now/full");
    assert!((value(energy.batteries[0].watts) - 15.0).abs() < 0.01);
    // 30 Wh at 15 W is two hours.
    assert_eq!(energy.batteries[0].seconds_remaining, Some(7200));

    let charge = read(&vec![node(
        "BAT0",
        &[
            ("type", "Battery"),
            ("status", "Discharging"),
            ("charge_now", "2000000"),
            ("charge_full", "4000000"),
            ("current_now", "1000000"),
            ("voltage_now", "12000000"),
        ],
    )]);
    assert_eq!(charge.batteries[0].percent, 50);
    // 1 A at 12 V is 12 W.
    assert!(
        (value(charge.batteries[0].watts) - 12.0).abs() < 0.01,
        "amp-hours become watt-hours through voltage"
    );
}

/// A rate of zero is not a time of zero.
#[test]
fn an_idle_battery_reports_no_time_remaining_rather_than_none_left() {
    let reading = read(&vec![node(
        "BAT0",
        &[
            ("type", "Battery"),
            ("status", "Full"),
            ("capacity", "100"),
            ("charge_now", "4000000"),
            ("charge_full", "4000000"),
            ("current_now", "0"),
            ("voltage_now", "12000000"),
        ],
    )]);
    assert_eq!(
        reading.batteries[0].seconds_remaining, None,
        "zero draw means unknowable, not imminent"
    );
}

#[test]
fn charging_counts_down_to_full_not_to_empty() {
    let reading = read(&vec![node(
        "BAT0",
        &[
            ("type", "Battery"),
            ("status", "Charging"),
            ("energy_now", "30000000"),
            ("energy_full", "60000000"),
            ("power_now", "30000000"),
        ],
    )]);
    // 30 Wh still to add at 30 W is one hour.
    assert_eq!(reading.batteries[0].seconds_remaining, Some(3600));
}

/// A desktop has no battery, and that is different from a battery at 0%.
#[test]
fn a_machine_with_no_battery_reports_none() {
    let reading = read(&vec![node("AC", &[("type", "Mains"), ("online", "1")])]);
    assert!(
        !reading.has_battery(),
        "the panel is hidden, not shown empty"
    );
    assert_eq!(reading.on_mains, Some(true));
}

#[test]
fn no_mains_supply_at_all_is_not_the_same_as_unplugged() {
    let reading = read(&vec![node("BAT0", &[("type", "Battery"), ("capacity", "50")])]);
    assert_eq!(
        reading.on_mains, None,
        "a machine with no AC node is not a machine running on battery"
    );
}

#[test]
fn any_online_mains_supply_counts() {
    let empty = node("AC", &[("type", "Mains"), ("online", "0")]);
    let dock = node("ucsi-source", &[("type", "Mains"), ("online", "1")]);
    let silent = node("ghost", &[("type", "Mains")]);
    for order in [
        vec![empty.clone(), dock.clone(), silent.clone()],
        vec![dock.clone(), silent.clone(), empty.clone()],
    ] {
        assert_eq!(
            read(&order).on_mains,
            Some(true),
            "a dock supplying power is mains even when the barrel jack is empty"
        );
    }
    assert_eq!(read(&vec![empty, silent.clone()]).on_mains, Some(false));
    assert_eq!(read(&vec![silent]).on_mains, None);
}

#[test]
fn every_charge_state_the_kernel_reports_is_understood() {
    for (text, expected) in [
        ("Charging", ChargeState::Charging),
        ("Discharging", ChargeState::Discharging),
        ("Full", ChargeState::Full),
        ("Not charging", ChargeState::NotCharging),
        ("Something New", ChargeState::Unknown),
    ] {
        assert_eq!(ChargeState::parse(text), expected);
    }
}

#[test]
fn a_missing_directory_is_an_empty_reading() {
    let reading = read(&Vec::new());
    assert!(!reading.has_battery());
    assert_eq!(reading.on_mains, None);
}

#[test]
fn a_zero_cycle_count_is_treated_as_unreported() {
    let reading = read(&vec![node(
        "BAT0",
        &[
            ("type", "Battery"),
            ("capacity", "50"),
            ("cycle_count", "0"),
        ],
    )]);
    assert_eq!(
        reading.batteries[0].cycles, None,
        "firmware that does not track cycles reports zero, which is not zero cycles"
    );
}

/// Every figure is what floating point makes of it, as the files give it.
#[test]
fn figures_agree_with_the_machines_floating_point() {
    for now in [1i64, 7, 29_000_000, 57_123_456, 99_999_999, 5_000_000_000] {
        for full in [3i64, 100_000_000, 61_000_001, 9_000_000_000_000] {
            let battery = battery_at(&node(
                "BAT0",
                &[
                    ("type", "Battery"),
                    ("status", "Charging"),
                    ("charge_now", &now.to_string()),
                    ("charge_full", &full.to_string()),
                    ("charge_full_design", "77000003"),
                    ("current_now", "-1234567"),
                    ("voltage_now", "12456789"),
                ],
            ))
            .unwrap();
            let unit = |v: i64| v as f64 / 1_000_000.0;
            let volts = unit(12_456_789);
            let (n, f, d) = (
                unit(now) * volts,
                unit(full) * volts,
                unit(77_000_003) * volts,
            );
            let watts = (unit(-1_234_567) * volts).abs();
            assert_eq!(value(battery.watts), watts);
            assert_eq!(battery.percent, ((n / f) * 100.0).clamp(0.0, 100.0) as u8);
            assert_eq!(
                battery.health_percent,
                Some(((f / d) * 100.0).clamp(0.0, 100.0) as u8)
            );
            let expected = (f > n).then(|| ((f - n) / watts * 3600.0).max(0.0) as u64);
            assert_eq!(battery.seconds_remaining, expected, "{now} of {full}");
        }
    }
}

/// 29 of 100 falls just short of 29 per cent when it is divided first.
#[test]
fn percentages_are_divided_before_they_are_scaled() {
    let battery = battery_at(&node(
        "BAT0",
        &[
            ("type", "Battery"),
            ("energy_now", "29000000"),
            ("energy_full", "100000000"),
        ],
    ))
    .unwrap();
    assert_eq!(battery.percent, (29.0 / 100.0 * 100.0) as u8);
}

#[test]
fn a_supply_that_says_too_little_is_no_battery() {
    assert!(battery_at(&node("BAT0", &[("type", "Battery")])).is_none());
    assert!(battery_at(&node("BAT0", &[("capacity", "5")])).is_none());
    assert!(battery_at(&node(
        "BAT0",
        &[
            ("type", "Battery"),
            ("energy_now", "5"),
            ("energy_full", "0")
        ]
    ))
    .is_none());
    let clamped = battery_at(&node("B", &[("type", "Battery"), ("capacity", "250")])).unwrap();
    assert_eq!(clamped.percent, 100);
    assert_eq!(
        energy_figures(&node("B", &[])).watts,
        Real {
            negative: false,
            mantissa: 0,
            exponent: 0
        }
    );
}

#[test]
fn batteries_are_listed_by_name() {
    let battery = |name: &str| node(name, &[("type", "Battery"), ("capacity", "5")]);
    let reading = read(&vec![battery("BAT1"), battery("BAT0")]);
    let names: Vec<&str> = reading.batteries.iter().map(|b| b.name.as_str()).collect();
    assert_eq!(names, vec!["BAT0", "BAT1"]);
}

#[test]
fn this_machines_power_is_plausible() {
    let fields = |status: &'static str, rate: &'static str| {
        node(
            "BAT0",
            &[
                ("type", "Battery\n"),
                ("status", status),
                ("energy_now", "30000000\n"),
                ("energy_full", "50000000\n"),
                ("energy_full_design", "45000000\n"),
                ("power_now", rate),
            ],
        )
    };
    let reading = read(&vec![
        fields("Discharging\n", "-15000000\n"),
        fields("Charging\n", "15000000\n"),
        fields("Full\n", "0\n"),
    ]);
    assert_eq!(reading.batteries.len(), 3);
    for battery in &reading.batteries {
        assert!(battery.percent <= 100);
        assert!(battery.health_percent.is_none_or(|h| h <= 100));
        assert!(
            value(battery.watts) >= 0.0,
            "a rate is a magnitude here, not a direction"
        );
        if value(battery.watts) == 0.0 {
            assert_eq!(battery.seconds_remaining, None);
        }
    }
}

use nix_core::metrics::alerts::{Metric, Outcome, Position, Side};
use nix_core::metrics::alerts::{Alerts as Machine, Rule as Watched};

/// A rule with its figures, and the alerts that are asked with them.
#[derive(Debug, Clone)]
struct Rule {
    metric: Metric,
    threshold: f64,
    hysteresis: f64,
    cooldown_seconds: u64,
    enabled: bool,
}

impl Rule {
    fn fraction(metric: Metric, threshold: f64) -> Self {
        let watched = Watched::fraction(metric);
        Rule {
            metric: watched.metric,
            threshold,
            hysteresis: 0.05,
            cooldown_seconds: watched.cooldown_seconds,
            enabled: watched.enabled,
        }
    }
}

struct Alerts(Machine);

fn side(value: f64, line: f64) -> Side {
    if value < line {
        Side::Below
    } else if value > line {
        Side::Above
    } else if value == line {
        Side::At
    } else {
        Side::Unordered
    }
}

impl Alerts {
    fn new() -> Self {
        Alerts(Machine::new())
    }

    fn evaluate(&mut self, rule: &Rule, value: f64, now: i64) -> Outcome {
        let back = if rule.metric.alarms_when_falling() {
            rule.threshold + rule.hysteresis
        } else {
            rule.threshold - rule.hysteresis
        };
        self.0.evaluate(
            &Watched {
                metric: rule.metric.clone(),
                cooldown_seconds: rule.cooldown_seconds,
                enabled: rule.enabled,
            },
            Position {
                threshold: side(value, rule.threshold),
                margin: side(value, back),
            },
            now,
        )
    }

    fn is_firing(&self, metric: &Metric) -> bool {
        self.0.is_firing(metric)
    }

    fn reset(&mut self) {
        self.0.reset();
    }
}

fn cpu(threshold: f64) -> Rule {
    Rule::fraction(Metric::CpuUsage, threshold)
}

/// A condition that lasts is told of once.
#[test]
fn an_alert_does_not_refire_while_the_condition_persists() {
    let mut alerts = Alerts::new();
    let rule = cpu(0.9);

    assert_eq!(alerts.evaluate(&rule, 0.95, 1000), Outcome::Fired);
    for second in 1..60 {
        assert_eq!(
            alerts.evaluate(&rule, 0.97, 1000 + second),
            Outcome::StillFiring,
            "a build running for a minute is one notification, not sixty"
        );
    }
    assert!(alerts.is_firing(&Metric::CpuUsage));
}

/// Hysteresis: a value sitting on the line must not flap.
#[test]
fn a_value_oscillating_around_the_threshold_fires_once() {
    let mut alerts = Alerts::new();
    let rule = cpu(0.9); // hysteresis 0.05, so it clears below 0.85

    assert_eq!(alerts.evaluate(&rule, 0.91, 1000), Outcome::Fired);
    let mut fires = 0;
    for (i, value) in [0.89, 0.91, 0.88, 0.92, 0.87, 0.90].iter().enumerate() {
        let outcome = alerts.evaluate(&rule, *value, 1000 + i as i64 + 1);
        if outcome.notifies() {
            fires += 1;
        }
    }
    assert_eq!(
        fires, 0,
        "none of those crossed back below 0.85, so the rule never cleared and never re-fired"
    );
}

#[test]
fn clearing_needs_the_full_margin_not_just_the_threshold() {
    let mut alerts = Alerts::new();
    let rule = cpu(0.9);
    alerts.evaluate(&rule, 0.95, 1000);

    assert_eq!(
        alerts.evaluate(&rule, 0.87, 1001),
        Outcome::StillFiring,
        "below the threshold but inside the margin is still firing"
    );
    assert_eq!(alerts.evaluate(&rule, 0.80, 1002), Outcome::Cleared);
    assert!(!alerts.is_firing(&Metric::CpuUsage));
}

/// Cooldown: a condition that genuinely comes and goes still notifies once.
#[test]
fn a_repeating_condition_is_suppressed_until_the_cooldown_expires() {
    let mut alerts = Alerts::new();
    let rule = Rule {
        cooldown_seconds: 300,
        ..cpu(0.9)
    };

    assert_eq!(alerts.evaluate(&rule, 0.95, 1000), Outcome::Fired);
    assert_eq!(alerts.evaluate(&rule, 0.10, 1010), Outcome::Cleared);
    assert_eq!(
        alerts.evaluate(&rule, 0.95, 1020),
        Outcome::Suppressed,
        "ten seconds later is not a new event worth waking someone for"
    );
    assert_eq!(
        alerts.evaluate(&rule, 0.95, 1000 + 301),
        Outcome::Fired,
        "after the cooldown it is news again"
    );
}

/// Free space alarms by falling, which is the one metric that runs the other way.
#[test]
fn free_space_alarms_when_it_falls_through_the_threshold() {
    let mut alerts = Alerts::new();
    let rule = Rule {
        metric: Metric::DiskSpaceRemaining {
            mount: "/".to_string(),
        },
        threshold: 5_000_000_000.0,
        hysteresis: 500_000_000.0,
        cooldown_seconds: 3600,
        enabled: true,
    };

    assert_eq!(
        alerts.evaluate(&rule, 20_000_000_000.0, 1000),
        Outcome::Quiet,
        "plenty of space is not an alert"
    );
    assert_eq!(
        alerts.evaluate(&rule, 4_000_000_000.0, 1001),
        Outcome::Fired
    );
    assert_eq!(
        alerts.evaluate(&rule, 5_200_000_000.0, 1002),
        Outcome::StillFiring,
        "back over the threshold but inside the margin"
    );
    assert_eq!(
        alerts.evaluate(&rule, 6_000_000_000.0, 1003),
        Outcome::Cleared
    );
}

/// Disabling is immediate.
#[test]
fn disabling_silences_a_firing_rule_at_once() {
    let mut alerts = Alerts::new();
    let rule = cpu(0.9);
    assert_eq!(alerts.evaluate(&rule, 0.99, 1000), Outcome::Fired);
    assert!(alerts.is_firing(&Metric::CpuUsage));

    let off = Rule {
        enabled: false,
        ..rule
    };
    assert_eq!(alerts.evaluate(&off, 0.99, 1001), Outcome::Quiet);
    assert!(
        !alerts.is_firing(&Metric::CpuUsage),
        "a disabled rule that delivers one more notification is one the user stops believing"
    );
}

/// Re-enabling must not immediately fire from a cooldown or a firing state that has gone stale.
#[test]
fn re_enabling_starts_from_a_clean_state() {
    let mut alerts = Alerts::new();
    let rule = cpu(0.9);
    alerts.evaluate(&rule, 0.99, 1000);
    alerts.evaluate(
        &Rule {
            enabled: false,
            ..rule.clone()
        },
        0.99,
        1001,
    );

    // The condition ended while the rule was off. Re-enabled and quiet, it stays quiet.
    assert_eq!(alerts.evaluate(&rule, 0.10, 1002), Outcome::Quiet);
    // And a genuinely new crossing is news, rather than being suppressed by the old cooldown.
    assert_eq!(alerts.evaluate(&rule, 0.99, 1003), Outcome::Fired);
}

/// Each metric keeps its own state, including one per mount point.
#[test]
fn rules_do_not_share_state_with_each_other() {
    let mut alerts = Alerts::new();
    let root = Rule {
        metric: Metric::DiskUsage {
            mount: "/".to_string(),
        },
        ..cpu(0.9)
    };
    let home = Rule {
        metric: Metric::DiskUsage {
            mount: "/home".to_string(),
        },
        ..cpu(0.9)
    };

    assert_eq!(alerts.evaluate(&root, 0.95, 1000), Outcome::Fired);
    assert_eq!(
        alerts.evaluate(&home, 0.95, 1000),
        Outcome::Fired,
        "a full root filesystem says nothing about /home"
    );
    assert_eq!(alerts.evaluate(&root, 0.95, 1001), Outcome::StillFiring);
}

#[test]
fn metric_keys_are_distinct_and_stable() {
    let mut seen = std::collections::HashSet::new();
    for metric in [
        Metric::CpuUsage,
        Metric::MemoryPressure,
        Metric::SwapPressure,
        Metric::Temperature,
        Metric::DiskUsage {
            mount: "/".to_string(),
        },
        Metric::DiskUsage {
            mount: "/home".to_string(),
        },
        Metric::DiskSpaceRemaining {
            mount: "/".to_string(),
        },
    ] {
        assert!(seen.insert(metric.key()), "{metric:?} shares a key");
    }
    // Usage and free space on the same mount must not collide: they alarm in opposite directions.
    assert_ne!(
        Metric::DiskUsage {
            mount: "/".to_string()
        }
        .key(),
        Metric::DiskSpaceRemaining {
            mount: "/".to_string()
        }
        .key()
    );
}

#[test]
fn only_a_fresh_firing_notifies() {
    assert!(Outcome::Fired.notifies());
    for quiet in [
        Outcome::StillFiring,
        Outcome::Cleared,
        Outcome::Quiet,
        Outcome::Suppressed,
    ] {
        assert!(!quiet.notifies(), "{quiet:?} must not reach the user");
    }
}

#[test]
fn resetting_forgets_everything() {
    let mut alerts = Alerts::new();
    let rule = cpu(0.9);
    alerts.evaluate(&rule, 0.99, 1000);
    alerts.reset();
    assert!(!alerts.is_firing(&Metric::CpuUsage));
    assert_eq!(
        alerts.evaluate(&rule, 0.99, 1001),
        Outcome::Fired,
        "a resumed session has observed nothing yet, so the first crossing is news"
    );
}

/// A value that cannot be compared neither fires nor clears.
#[test]
fn an_incomparable_value_changes_nothing() {
    let mut alerts = Alerts::new();
    let rule = cpu(0.9);
    assert_eq!(alerts.evaluate(&rule, f64::NAN, 1000), Outcome::Quiet);
    assert_eq!(alerts.evaluate(&rule, 0.95, 1001), Outcome::Fired);
    assert_eq!(alerts.evaluate(&rule, f64::NAN, 1002), Outcome::StillFiring);
}

/// A clock that jumps as far as a clock can does not overflow the cooldown.
#[test]
fn the_cooldown_survives_extreme_clocks() {
    let mut alerts = Alerts::new();
    let rule = Rule {
        cooldown_seconds: u64::MAX,
        ..cpu(0.9)
    };
    assert_eq!(alerts.evaluate(&rule, 0.95, i64::MIN), Outcome::Fired);
    assert_eq!(alerts.evaluate(&rule, 0.10, 0), Outcome::Cleared);
    assert_eq!(alerts.evaluate(&rule, 0.95, i64::MAX), Outcome::Fired);
    assert_eq!(alerts.evaluate(&rule, 0.10, i64::MAX), Outcome::Cleared);
    assert_eq!(alerts.evaluate(&rule, 0.95, i64::MIN), Outcome::Suppressed);
    // Exactly on the threshold counts as over.
    let mut fresh = Alerts::new();
    assert_eq!(fresh.evaluate(&cpu(0.9), 0.9, 0), Outcome::Fired);
}

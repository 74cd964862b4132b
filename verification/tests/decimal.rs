use nix_core::decimal::parse_scaled;
use nix_core::double::{nearest_u64, rate, truncate, Double, Seconds};

fn scaled(text: &str, k: u64) -> Option<u64> {
    let chars: Vec<char> = text.chars().collect();
    parse_scaled(&chars, k)
}

/// What the machine's own floating point makes of the same text.
fn machine(text: &str, k: u64) -> Option<u64> {
    text.parse::<f64>().ok().map(|v| (v * k as f64) as u64)
}

#[test]
fn scaling_agrees_with_the_machines_floating_point() {
    let texts = [
        "0", "1", "17.5", "94.31", "2.398", "1.005", "1.001", "0.29", "8.65", "138.24", "5.", ".5",
        "00012.500", "1e3", "2.5E-3", "1e+2", "123456789012345678901234567890", "0.1", "0.3",
        "4503599627370497.5", "9007199254740993", "1e19", "18446744073709551615", "1e400", "1e-400",
        "1e999999999999999999999999999999999999999", "1e-999999999999999999999999999999999999999",
        "0e999999999999999999999999999999999", "0.00000000000000000000000000000000000000001",
        "3.14159265358979323846264338327950288419716939937510", "-1", "-0", "+7.25", "inf", "-inf",
        "Infinity", "NaN", "", "+", "-", ".", "e5", "1e", "1e+", "1.2.3", "0x10", "1_000", " 1", "1 ",
        "infin", "1e5.5", "٣",
    ];
    for text in texts {
        for k in [
            1,
            1000,
            1024,
            1_000_000,
            1 << 20,
            1_000_000_000,
            1 << 30,
            1_000_000_000_000,
            1 << 40,
            1_000_000_000_000_000,
        ] {
            assert_eq!(scaled(text, k), machine(text, k), "{text:?} times {k}");
        }
    }
}

/// Many values with a few decimals, which is what the tools print.
#[test]
fn ordinary_figures_agree_with_the_machines_floating_point() {
    for whole in [0u32, 1, 2, 7, 9, 99, 511, 1023] {
        for thousandths in (0..1000).step_by(7) {
            let text = format!("{whole}.{thousandths:03}");
            for k in [1000, 1024, 1_000_000, 1 << 20, 1_000_000_000, 1 << 30] {
                assert_eq!(scaled(&text, k), machine(&text, k), "{text} times {k}");
            }
        }
    }
}

/// Dropping digits that do not matter still rounds to the nearest.
#[test]
fn long_figures_round_to_the_nearest() {
    // Exactly between two neighbours, and just beside it.
    for text in [
        "9007199254740993",
        "9007199254740993.0000000000000000000000000001",
        "9007199254740992.9999999999999999999999999999",
        "9007199254740995",
    ] {
        assert_eq!(scaled(text, 1), machine(text, 1), "{text}");
    }
}

#[test]
fn whole_numbers_become_the_nearest_double() {
    for x in [1u64, 3, 1 << 52, (1 << 53) + 1, (1 << 53) + 3, u64::MAX, 1_234_567_890_123_456_789] {
        let d = nearest_u64(x);
        let value = d.mantissa as f64 * 2f64.powi(d.exponent as i32);
        assert_eq!(value, x as f64);
        assert_eq!(truncate(d), x as f64 as u64);
    }
    assert_eq!(
        truncate(Double {
            mantissa: 7,
            exponent: -1
        }),
        3
    );
    assert_eq!(
        truncate(Double {
            mantissa: 1,
            exponent: 64
        }),
        u64::MAX
    );
    assert_eq!(
        truncate(Double {
            mantissa: 5,
            exponent: -1000
        }),
        0
    );
}

#[test]
fn an_interval_of_no_length_is_infinitely_fast() {
    let none = Seconds {
        mantissa: 0,
        exponent: 0,
    };
    assert_eq!(rate(0, none), 0);
    assert_eq!(rate(1, none), u64::MAX);
}

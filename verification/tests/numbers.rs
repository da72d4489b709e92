use token_leaderboard::numbers::{decimal, format_cost, format_tokens};

/// A token count as double-precision arithmetic shows it.
fn tokens_as_double(n: u64) -> String {
    if n >= 1_000_000_000 {
        format!("{:.1}B", n as f64 / 1_000_000_000.0)
    } else if n >= 1_000_000 {
        format!("{:.1}M", n as f64 / 1_000_000.0)
    } else if n >= 1_000 {
        format!("{:.1}K", n as f64 / 1_000.0)
    } else {
        n.to_string()
    }
}

/// A sequence of numbers that covers all magnitudes.
fn spread(count: u64) -> Vec<u64> {
    let mut state: u64 = 0x9E37_79B9_7F4A_7C15;
    let mut all = Vec::new();
    for i in 0..count {
        state = state
            .wrapping_mul(6_364_136_223_846_793_005)
            .wrapping_add(1_442_695_040_888_963_407);
        all.push(state >> (i % 64));
    }
    all
}

#[test]
fn small_counts_are_plain() {
    assert_eq!(format_tokens(0), "0");
    assert_eq!(format_tokens(7), "7");
    assert_eq!(format_tokens(999), "999");
}

#[test]
fn counts_have_units() {
    assert_eq!(format_tokens(1_000), "1.0K");
    assert_eq!(format_tokens(1_234), "1.2K");
    assert_eq!(format_tokens(999_999), "1000.0K");
    assert_eq!(format_tokens(1_000_000), "1.0M");
    assert_eq!(format_tokens(12_345_678), "12.3M");
    assert_eq!(format_tokens(1_000_000_000), "1.0B");
    assert_eq!(format_tokens(u64::MAX), "18446744073.7B");
}

#[test]
fn ties_round_as_doubles_do() {
    assert_eq!(format_tokens(1_050), "1.1K");
    assert_eq!(format_tokens(1_150), "1.1K");
    assert_eq!(format_tokens(1_250), "1.2K");
    assert_eq!(format_tokens(1_350), "1.4K");
    for unit in [1_000u64, 1_000_000, 1_000_000_000] {
        for k in 10..9_999u64 {
            let n = unit / 10 * k + unit / 20;
            assert_eq!(format_tokens(n), tokens_as_double(n));
        }
    }
}

#[test]
fn all_magnitudes_round_as_doubles_do() {
    for n in spread(60_000) {
        assert_eq!(format_tokens(n), tokens_as_double(n));
    }
    for power in 50..64u32 {
        for offset in 0..40u64 {
            let n = (1u64 << power) + offset;
            assert_eq!(format_tokens(n), tokens_as_double(n));
            let n = (1u64 << power) - offset;
            assert_eq!(format_tokens(n), tokens_as_double(n));
        }
    }
}

#[test]
fn amounts_have_cents() {
    assert_eq!(format_cost(0), "$0.00");
    assert_eq!(format_cost(1), "$0.00");
    assert_eq!(format_cost(100_000_000), "$1.00");
    assert_eq!(format_cost(123_456_789), "$1.23");
    assert_eq!(format_cost(99_999_999), "$1.00");
    assert_eq!(format_cost(1_234_500_000_000), "$12345.00");
}

#[test]
fn amounts_round_as_doubles_do() {
    assert_eq!(format_cost(7_500_000), "$0.07");
    assert_eq!(format_cost(12_500_000), "$0.12");
    for n in spread(60_000) {
        let n = n % (1 << 53);
        assert_eq!(
            format_cost(n as u128),
            format!("${:.2}", n as f64 / 100_000_000.0)
        );
    }
    for k in 0..20_000u64 {
        let n = k * 1_000_000 + 500_000;
        assert_eq!(
            format_cost(n as u128),
            format!("${:.2}", n as f64 / 100_000_000.0)
        );
    }
}

#[test]
fn large_amounts_round_as_doubles_do() {
    for power in 53..100u32 {
        for offset in [0u128, 1, 2, 3, 5, 1_025, 4_097] {
            let dollars = (1u128 << power) + offset;
            assert_eq!(
                format_cost(dollars * 100_000_000),
                format!("${:.2}", dollars as f64)
            );
        }
    }
}

#[test]
fn decimal_digits() {
    assert_eq!(decimal(0), "0");
    assert_eq!(decimal(10), "10");
    assert_eq!(decimal(u64::MAX), "18446744073709551615");
    for n in spread(5_000) {
        assert_eq!(decimal(n), n.to_string());
    }
}

/// The number of tokens that a text shows.
fn tokens_shown(text: &str) -> u128 {
    let (number, tenth) = match text.chars().last() {
        Some('B') => (&text[..text.len() - 1], 100_000_000),
        Some('M') => (&text[..text.len() - 1], 100_000),
        Some('K') => (&text[..text.len() - 1], 100),
        _ => (text, 1),
    };
    number.replace('.', "").parse::<u128>().unwrap() * tenth
}

#[test]
fn larger_counts_are_not_shown_as_less() {
    assert_eq!(tokens_shown(&format_tokens(999_999)), 1_000_000);
    assert_eq!(tokens_shown(&format_tokens(1_000_000)), 1_000_000);
    let mut counts = spread(20_000);
    for edge in [1_000, 1_000_000, 1_000_000_000, 1 << 53] {
        counts.extend(edge - 100..edge + 100);
    }
    counts.sort();
    for pair in counts.windows(2) {
        assert!(tokens_shown(&format_tokens(pair[0])) <= tokens_shown(&format_tokens(pair[1])));
    }
}

#[test]
fn larger_amounts_are_not_shown_as_less() {
    let cents = |n: u128| format_cost(n)[1..].replace('.', "").parse::<u128>().unwrap();
    let mut amounts: Vec<u128> = spread(20_000).iter().map(|n| *n as u128 * *n as u128).collect();
    amounts.extend(0..100);
    amounts.sort();
    for pair in amounts.windows(2) {
        assert!(cents(pair[0]) <= cents(pair[1]));
    }
}

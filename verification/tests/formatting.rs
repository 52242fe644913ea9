use oc_stats::binary64::Binary64;
use oc_stats::formatting::{format_tokens, percentage, percentage_text, printable, tokens_comparison_text};

fn reference_tokens(value: u64) -> String {
    match value {
        0..=999 => value.to_string(),
        1_000..=999_999 => format!("{:.2}K", value as f64 / 1_000.0),
        1_000_000..=999_999_999 => format!("{:.2}M", value as f64 / 1_000_000.0),
        _ => format!("{:.2}B", value as f64 / 1_000_000_000.0),
    }
}

fn reference_comparison(total_tokens: u64) -> String {
    let tokens = total_tokens as f64;
    const MIN_READING: f64 = 300.0;
    const HOUR_READING: f64 = MIN_READING * 60.0;
    const DAY_COZY_READING: f64 = HOUR_READING * 4.0;
    const LETTER: f64 = 600.0;
    const NOTEBOOK: f64 = 30_000.0;
    const NOVEL: f64 = 150_000.0;
    const BOOKSHELF: f64 = NOVEL * 40.0;
    const TOWN_LIBRARY: f64 = NOVEL * 50_000.0;
    const NATIONAL_LIBRARY: f64 = NOVEL * 20_000_000.0;
    const YEAR_JOURNALING: f64 = 250_000.0;
    const YEAR_SPEAKING: f64 = 7_500_000.0;
    const LIFETIME_SPEAKING: f64 = YEAR_SPEAKING * 80.0;
    const MILLENNIUM_SPEAKING: f64 = YEAR_SPEAKING * 1000.0;
    const EPOCH_CIVILIZATION: f64 = YEAR_SPEAKING * 100_000.0;
    match total_tokens {
        0 => "No activity yet. Start a conversation!".to_string(),
        1..10_000 => format!(
            "About {:.1} handwritten letters, or {:.0} mins of reading.",
            tokens / LETTER,
            tokens / MIN_READING
        ),
        10_000..250_000 => format!(
            "Roughly {:.1} filled notebooks, or {:.1} hours of reading.",
            tokens / NOTEBOOK,
            tokens / HOUR_READING
        ),
        250_000..5_000_000 => format!(
            "Around {:.1} thick novels, or {:.1} days of cozy reading.",
            tokens / NOVEL,
            tokens / DAY_COZY_READING
        ),
        5_000_000..50_000_000 => format!(
            "Like {:.1} packed bookshelves, or {:.1} years of journaling.",
            tokens / BOOKSHELF,
            tokens / YEAR_JOURNALING
        ),
        50_000_000..5_000_000_000 => format!(
            "About {:.1} years of daily speaking, or {:.2} lifetimes of words.",
            tokens / YEAR_SPEAKING,
            tokens / LIFETIME_SPEAKING
        ),
        5_000_000_000..500_000_000_000 => format!(
            "Like {:.2} town libraries, or {:.1} millennia of human speech.",
            tokens / TOWN_LIBRARY,
            tokens / MILLENNIUM_SPEAKING
        ),
        _ => format!(
            "Roughly {:.2} national libraries, or {:.2} epochs of civilization.",
            tokens / NATIONAL_LIBRARY,
            tokens / EPOCH_CIVILIZATION
        ),
    }
}

/// A small deterministic generator for spreading samples over the u64 range.
fn next(state: &mut u64) -> u64 {
    *state ^= *state << 13;
    *state ^= *state >> 7;
    *state ^= *state << 17;
    *state
}

#[test]
fn format_tokens_exact_values() {
    assert_eq!(format_tokens(0), "0");
    assert_eq!(format_tokens(999), "999");
    assert_eq!(format_tokens(1_000), "1.00K");
    assert_eq!(format_tokens(1_234), "1.23K");
    assert_eq!(format_tokens(1_015), "1.01K");
    assert_eq!(format_tokens(999_999), "1000.00K");
    assert_eq!(format_tokens(1_000_000), "1.00M");
    assert_eq!(format_tokens(2_500_000_000), "2.50B");
    assert_eq!(format_tokens(u64::MAX), "18446744073.71B");
}

#[test]
fn format_tokens_matches_binary64_formatting_below_two_million() {
    for value in 0..2_000_000u64 {
        assert_eq!(format_tokens(value), reference_tokens(value), "value {value}");
    }
}

#[test]
fn format_tokens_matches_binary64_formatting_across_range() {
    let mut state = 0x9e37_79b9_7f4a_7c15u64;
    for _ in 0..300_000 {
        let raw = next(&mut state);
        for value in [raw, raw >> 20, raw >> 34, raw >> 40, raw | 0x5] {
            assert_eq!(format_tokens(value), reference_tokens(value), "value {value}");
        }
    }
}

#[test]
fn tokens_comparison_text_examples() {
    assert_eq!(tokens_comparison_text(0), "No activity yet. Start a conversation!");
    assert_eq!(
        tokens_comparison_text(1),
        "About 0.0 handwritten letters, or 0 mins of reading."
    );
    assert_eq!(
        tokens_comparison_text(150),
        "About 0.2 handwritten letters, or 0 mins of reading."
    );
    assert_eq!(
        tokens_comparison_text(12_345),
        "Roughly 0.4 filled notebooks, or 0.7 hours of reading."
    );
    assert_eq!(
        tokens_comparison_text(1_000_000_000_000),
        "Roughly 0.33 national libraries, or 1.33 epochs of civilization."
    );
}

#[test]
fn tokens_comparison_text_matches_binary64_formatting() {
    for value in 0..300_000u64 {
        assert_eq!(tokens_comparison_text(value), reference_comparison(value), "value {value}");
    }
    let mut state = 0x2545_f491_4f6c_dd1du64;
    for _ in 0..200_000 {
        let raw = next(&mut state);
        for value in [raw, raw >> 16, raw >> 24, raw >> 30, raw >> 36, raw >> 44] {
            assert_eq!(tokens_comparison_text(value), reference_comparison(value), "value {value}");
        }
    }
}

#[test]
fn percentages_are_printable_and_match_binary64() {
    for (part, total) in [(0u64, 0u64), (1, 3), (2, 3), (999, 1000), (u64::MAX, u64::MAX), (1, u64::MAX)] {
        let p = percentage(part, total);
        assert!(printable(p));
        let expected = if total == 0 {
            "0.00".to_string()
        } else {
            format!("{:.2}", (part as f64 / total as f64) * 100.0)
        };
        assert_eq!(percentage_text(p), expected);
    }
    assert!(!printable(Binary64 { mant: 3, exp: 0 }));
    assert!(!printable(Binary64 { mant: 1 << 52, exp: 21 }));
}

#[test]
fn shares_never_exceed_one_hundred() {
    let big = u64::MAX;
    for (part, total) in [(0u64, 1u64), (1, 1), (2, 3), (big, big), (big - 1, big), (1 << 53, (1 << 53) + 1)] {
        let p = percentage(part, total);
        let value = (part as f64 / total as f64) * 100.0;
        assert!(value <= 100.0);
        assert_eq!(percentage_text(p), format!("{:.2}", value));
    }
}

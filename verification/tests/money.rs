use oc_stats::money::{
    format_price_summary, format_usd_precise, prints_as_usd, DecimalValue, PriceSummary,
};
use rust_decimal::Decimal;

fn dv(mantissa: i128, scale: u32) -> DecimalValue {
    DecimalValue { mantissa, scale }
}

fn reference_usd(value: Decimal) -> String {
    if value >= Decimal::ONE {
        format!("${:.2}", value.round_dp(2))
    } else if value == Decimal::ZERO {
        "$0.00".to_string()
    } else {
        format!("${:.4}", value.round_dp(4))
    }
}

#[test]
fn usd_examples() {
    assert_eq!(format_usd_precise(dv(1234, 3)), "$1.23");
    assert_eq!(format_usd_precise(dv(1235, 3)), "$1.24");
    assert_eq!(format_usd_precise(dv(1225, 3)), "$1.22");
    assert_eq!(format_usd_precise(dv(5, 0)), "$5.00");
    assert_eq!(format_usd_precise(dv(0, 7)), "$0.00");
    assert_eq!(format_usd_precise(dv(123456, 7)), "$0.0123");
    assert_eq!(format_usd_precise(dv(5, 5)), "$0.0000");
    assert_eq!(format_usd_precise(dv(15, 5)), "$0.0002");
    assert_eq!(format_usd_precise(dv(-5, 1)), "$-0.5000");
}

#[test]
fn usd_matches_decimal_formatting() {
    let mut state = 0x1234_5678_9abc_def1u64;
    for _ in 0..50_000 {
        state ^= state << 13;
        state ^= state >> 7;
        state ^= state << 17;
        let mantissa = (state % 10_000_000_000) as i128 - 1_000_000;
        let scale = (state >> 40) as u32 % 12;
        let expected = reference_usd(Decimal::from_i128_with_scale(mantissa, scale));
        assert_eq!(format_usd_precise(dv(mantissa, scale)), expected, "{mantissa}e-{scale}");
    }
}

#[test]
fn price_summary_forms() {
    let known = dv(250, 2);
    let p = |has_known, missing| PriceSummary { known, missing, has_known };
    assert_eq!(format_price_summary(&p(false, true)), "--");
    assert_eq!(format_price_summary(&p(false, false)), "$0.00");
    assert_eq!(format_price_summary(&p(true, false)), "$2.50");
    assert_eq!(format_price_summary(&p(true, true)), "$2.50 + ?");
}

#[test]
fn decimal_range_check() {
    assert!(dv(0, 0).in_range());
    assert!(dv(-79_228_162_514_264_337_593_543_950_335, 28).in_range());
    assert!(!dv(79_228_162_514_264_337_593_543_950_336, 0).in_range());
    assert!(!dv(1, 29).in_range());
}

#[test]
fn huge_debts_do_not_print() {
    let e27: i128 = 1_000_000_000_000_000_000_000_000_000;
    let max: i128 = 79_228_162_514_264_337_593_543_950_335;
    assert!(!prints_as_usd(dv(-e27, 0)));
    assert!(!prints_as_usd(dv(-max, 0)));
    assert!(!prints_as_usd(dv(-e27 * 10, 1)));
    assert!(prints_as_usd(dv(max, 0)));
    assert!(prints_as_usd(dv(0, 3)));
    assert!(prints_as_usd(dv(-5, 1)));
    let deepest = dv(-(e27 - 1), 0);
    assert!(prints_as_usd(deepest));
    assert_eq!(
        format_usd_precise(deepest),
        reference_usd(Decimal::from_i128_with_scale(-(e27 - 1), 0))
    );
    assert_eq!(
        format_usd_precise(dv(max, 0)),
        reference_usd(Decimal::from_i128_with_scale(max, 0))
    );
    let mut state = 0x9e37_79b9_7f4a_7c15u64;
    for _ in 0..20_000 {
        state ^= state << 13;
        state ^= state >> 7;
        state ^= state << 17;
        let mantissa = -((state as i128) << 32 | (state >> 11) as i128) % (max + 1);
        let scale = (state >> 50) as u32 % 29;
        let value = dv(mantissa, scale);
        if prints_as_usd(value) {
            let expected = reference_usd(Decimal::from_i128_with_scale(mantissa, scale));
            assert_eq!(format_usd_precise(value), expected, "{mantissa}e-{scale}");
        }
    }
}

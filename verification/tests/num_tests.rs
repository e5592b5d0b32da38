use inspector_core::num::{Num, SCALE, VMAX};
use inspector_core::num_text::{format_fixed, format_trimmed, parse_num};
use inspector_core::text::ascii_text;

fn num(scaled: i128) -> Num {
    Num::new_scaled(scaled).unwrap()
}

fn text(bytes: &Vec<u8>) -> String {
    ascii_text(bytes)
}

#[test]
fn integer_constructors_are_exact() {
    assert_eq!(Num::from_i32(-7).scaled(), -7 * SCALE);
    assert_eq!(Num::from_u32(7).scaled(), 7 * SCALE);
    assert_eq!(Num::from_i64(i64::MIN).scaled(), (i64::MIN as i128) * SCALE);
    assert_eq!(Num::from_u64(u64::MAX).scaled(), (u64::MAX as i128) * SCALE);
}

#[test]
fn addition_is_exact_and_saturates() {
    let a = num(10_500_000_000); // 10.5
    let b = num(-2_250_000_000); // -2.25
    assert_eq!(a.add_clamped(b).scaled(), 8_250_000_000);
    let big = num(VMAX);
    assert_eq!(big.add_clamped(big).scaled(), VMAX);
    assert_eq!(num(-VMAX).add_clamped(num(-VMAX)).scaled(), -VMAX);
}

#[test]
fn multiplication_scales_and_saturates() {
    // 50 * 0.1 = 5 exactly.
    let d = Num::from_i32(50);
    let s = num(100_000_000); // 0.1
    assert_eq!(d.mul_clamped(s).scaled(), 5 * SCALE);
    // 0.3 * 0.2 = 0.06 exactly.
    assert_eq!(num(300_000_000).mul_clamped(num(200_000_000)).scaled(), 60_000_000);
    // Signs.
    assert_eq!(num(-300_000_000).mul_clamped(num(200_000_000)).scaled(), -60_000_000);
    // Saturation at the representable bound.
    let big = num(VMAX);
    assert_eq!(big.mul_clamped(big).scaled(), VMAX);
    assert_eq!(big.mul_clamped(num(-VMAX)).scaled(), -VMAX);
}

#[test]
fn truncation_coerces_toward_zero() {
    // 5.9 truncates to 5.
    assert_eq!(num(5_900_000_000).to_u32_sat(), 5);
    assert_eq!(num(5_900_000_000).to_i32_sat(), 5);
    // -3.0 clamps to 0 for unsigned targets.
    assert_eq!(num(-3 * SCALE).to_u32_sat(), 0);
    assert_eq!(num(-3 * SCALE).to_u64_sat(), 0);
    // -5.9 truncates toward zero for signed targets.
    assert_eq!(num(-5_900_000_000).to_i32_sat(), -5);
    // Range saturation.
    assert_eq!(Num::from_i64(i64::MAX).to_i32_sat(), i32::MAX);
    assert_eq!(Num::from_i64(i64::MIN).to_i32_sat(), i32::MIN);
    assert_eq!(Num::from_u64(u64::MAX).to_u32_sat(), u32::MAX);
}

#[test]
fn clamp_bounds_applies_lower_then_upper() {
    let v = Num::from_i32(15);
    assert_eq!(v.clamp_bounds(Some(Num::from_i32(12)), None).scaled(), 15 * SCALE);
    assert_eq!(v.clamp_bounds(None, Some(Num::from_i32(12))).scaled(), 12 * SCALE);
    let low = Num::from_i32(5);
    assert_eq!(low.clamp_bounds(Some(Num::from_i32(12)), None).scaled(), 12 * SCALE);
}

#[test]
fn fixed_formatting_rounds_at_precision() {
    assert_eq!(text(&format_fixed(num(10_500_000_000), 2)), "10.50");
    assert_eq!(text(&format_fixed(num(-10_500_000_000), 2)), "-10.50");
    assert_eq!(text(&format_fixed(num(1_005_000_000), 2)), "1.01"); // 1.005 rounds half away
    assert_eq!(text(&format_fixed(num(7 * SCALE), 0)), "7");
    assert_eq!(text(&format_fixed(num(123_456_789), 9)), "0.123456789");
}

#[test]
fn trimmed_formatting_drops_trailing_zeros() {
    assert_eq!(text(&format_trimmed(num(5 * SCALE))), "5.0");
    assert_eq!(text(&format_trimmed(num(250_000_000))), "0.25");
    assert_eq!(text(&format_trimmed(num(-42 * SCALE))), "-42.0");
    assert_eq!(text(&format_trimmed(num(1_000_000_001))), "1.000000001");
}

#[test]
fn parsing_plain_decimals() {
    assert_eq!(parse_num(&b"42".to_vec()).unwrap().scaled(), 42 * SCALE);
    assert_eq!(parse_num(&b"5.9".to_vec()).unwrap().scaled(), 5_900_000_000);
    assert_eq!(parse_num(&b"-3.0".to_vec()).unwrap().scaled(), -3 * SCALE);
    assert_eq!(parse_num(&b"+7.25".to_vec()).unwrap().scaled(), 7_250_000_000);
    assert_eq!(parse_num(&b".5".to_vec()).unwrap().scaled(), 500_000_000);
    assert_eq!(parse_num(&b"5.".to_vec()).unwrap().scaled(), 5 * SCALE);
    assert_eq!(parse_num(&b"0".to_vec()).unwrap().scaled(), 0);
    assert_eq!(parse_num(&b"-0.0".to_vec()).unwrap().scaled(), 0);
}

#[test]
fn parsing_exponents() {
    assert_eq!(parse_num(&b"1e3".to_vec()).unwrap().scaled(), 1000 * SCALE);
    assert_eq!(parse_num(&b"2.5e-2".to_vec()).unwrap().scaled(), 25_000_000);
    assert_eq!(parse_num(&b"1E2".to_vec()).unwrap().scaled(), 100 * SCALE);
    assert_eq!(parse_num(&b"12e+1".to_vec()).unwrap().scaled(), 120 * SCALE);
    // A huge exponent saturates; a huge negative one vanishes.
    assert_eq!(parse_num(&b"1e99".to_vec()).unwrap().scaled(), VMAX);
    assert_eq!(parse_num(&b"-1e99".to_vec()).unwrap().scaled(), -VMAX);
    assert_eq!(parse_num(&b"1e-99".to_vec()).unwrap().scaled(), 0);
    // A long fraction cancels a large exponent.
    assert_eq!(parse_num(&b"0.0000000000001e13".to_vec()).unwrap().scaled(), SCALE);
    // Zero mantissa stays zero whatever the exponent.
    assert_eq!(parse_num(&b"0e999999999999999999999".to_vec()).unwrap().scaled(), 0);
}

#[test]
fn parsing_rejects_malformed_literals() {
    assert!(parse_num(&b"".to_vec()).is_none());
    assert!(parse_num(&b"-".to_vec()).is_none());
    assert!(parse_num(&b".".to_vec()).is_none());
    assert!(parse_num(&b"abc".to_vec()).is_none());
    assert!(parse_num(&b"5.5.5".to_vec()).is_none());
    assert!(parse_num(&b"1e".to_vec()).is_none());
    assert!(parse_num(&b"1e+".to_vec()).is_none());
    assert!(parse_num(&b"1ee3".to_vec()).is_none());
    assert!(parse_num(&b"1-2".to_vec()).is_none());
}

#[test]
fn parse_round_trips_fixed_formatting() {
    let v = num(-1_234_560_000); // -1.23456
    let shown = format_fixed(v, 5);
    assert_eq!(parse_num(&shown).unwrap().scaled(), v.scaled());
}

#[test]
fn precision_past_the_ninth_place_pads_with_zeros() {
    assert_eq!(text(&format_fixed(num(10_500_000_000), 12)), "10.500000000000");
    assert_eq!(text(&format_fixed(num(-123_456_789), 11)), "-0.12345678900");
}

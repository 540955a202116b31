use ttn_relay::decimal::push_decimal;
use ttn_relay::influxdb::{decimal_string, reading_string, voltage_string};
use ttn_relay::reading::Reading;

fn b32(x: f32) -> Reading {
    Reading::Binary32(x.to_bits())
}

#[test]
fn decimal_text_of_integers() {
    assert_eq!(decimal_string(0), "0");
    assert_eq!(decimal_string(7), "7");
    assert_eq!(decimal_string(1234567890), "1234567890");
    assert_eq!(decimal_string(u64::MAX), "18446744073709551615");
    let mut s = String::from("n=");
    push_decimal(&mut s, u128::MAX);
    assert_eq!(s, "n=340282366920938463463374607431768211455");
}

#[test]
fn tenths_have_two_decimals() {
    assert_eq!(reading_string(Reading::Tenths(261)), "26.10");
    assert_eq!(reading_string(Reading::Tenths(-193)), "-19.30");
    assert_eq!(reading_string(Reading::Tenths(0)), "0.00");
    assert_eq!(reading_string(Reading::Tenths(-5)), "-0.50");
    assert_eq!(reading_string(Reading::Tenths(i32::MIN)), "-214748364.80");
}

#[test]
fn binary32_has_two_decimals() {
    assert_eq!(reading_string(b32(13.14)), "13.14");
    assert_eq!(reading_string(b32(8.76)), "8.76");
    assert_eq!(reading_string(b32(75.1)), "75.10");
    assert_eq!(reading_string(b32(-19.3)), "-19.30");
    assert_eq!(reading_string(b32(20.0)), "20.00");
    assert_eq!(reading_string(b32(1e10)), "10000000000.00");
    assert_eq!(reading_string(b32(1e-45)), "0.00");
    assert_eq!(reading_string(b32(-0.0)), "-0.00");
    assert_eq!(
        reading_string(b32(f32::MAX)),
        "340282346638528859811704183484516925440.00"
    );
}

#[test]
fn binary32_ties_go_to_even() {
    assert_eq!(reading_string(b32(0.125)), "0.12");
    assert_eq!(reading_string(b32(0.375)), "0.38");
    assert_eq!(reading_string(b32(2.5)), "2.50");
}

#[test]
fn binary32_special_values() {
    assert_eq!(reading_string(b32(f32::NAN)), "NaN");
    assert_eq!(reading_string(b32(f32::INFINITY)), "inf");
    assert_eq!(reading_string(b32(f32::NEG_INFINITY)), "-inf");
}

#[test]
fn voltage_has_three_decimals() {
    assert_eq!(voltage_string(2885), "2.885");
    assert_eq!(voltage_string(3100), "3.100");
    assert_eq!(voltage_string(5), "0.005");
    assert_eq!(voltage_string(0), "0.000");
    assert_eq!(voltage_string(65535), "65.535");
}

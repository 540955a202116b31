use ttn_relay::config::SensorType;
use ttn_relay::payload::{
    decode, parse_payload_dragino, parse_payload_gfroerli_v1, parse_payload_gfroerli_v2,
    DecodeError,
};
use ttn_relay::reading::{millivolts_from_volts, Reading};

/// The value of a reading as the sensors' own float type.
fn value(r: Reading) -> f32 {
    match r {
        Reading::Tenths(n) => n as f32 / 10.0,
        Reading::Binary32(bits) => f32::from_bits(bits),
    }
}

fn opt_value(r: Option<Reading>) -> Option<f32> {
    r.map(value)
}

#[test]
fn test_parse_dragino_payload() {
    // Test values taken from datasheet
    let payload1 = [0x0b, 0x45, 0x01, 0x05, 0, 0, 0, 0, 0, 0, 0];
    let payload2 = [0x0b, 0x49, 0xff, 0x3f, 0, 0, 0, 0, 0, 0, 0];
    let measurement1 = parse_payload_dragino(&payload1).unwrap();
    let measurement2 = parse_payload_dragino(&payload2).unwrap();
    assert_eq!(measurement1.battery_millivolts, 2885);
    assert_eq!(measurement2.battery_millivolts, 2889);
    assert_eq!(value(measurement1.temperature_water), 26.1);
    assert_eq!(value(measurement2.temperature_water), -19.3);
}

#[test]
fn test_parse_gfroerli_v1_payload() {
    // Payload 1: list(iter(struct.pack('<ffff', 13.14, 8.76, 75.1, 3.21)))
    let payload1 = [113, 61, 82, 65, 246, 40, 12, 65, 51, 51, 150, 66, 164, 112, 77, 64];
    // Payload 2: list(iter(struct.pack('<ffff', 20.0, 10.0, 50.5, 3.10)))
    let payload2 = [0, 0, 160, 65, 0, 0, 32, 65, 0, 0, 74, 66, 102, 102, 70, 64];
    let measurement1 = parse_payload_gfroerli_v1(&payload1).unwrap();
    let measurement2 = parse_payload_gfroerli_v1(&payload2).unwrap();
    assert_eq!(value(measurement1.temperature_water), 13.14);
    assert_eq!(value(measurement2.temperature_water), 20.0);
    assert_eq!(opt_value(measurement1.temperature_enclosure), Some(8.76));
    assert_eq!(opt_value(measurement2.temperature_enclosure), Some(10.0));
    assert_eq!(opt_value(measurement1.humidity_enclosure), Some(75.1));
    assert_eq!(opt_value(measurement2.humidity_enclosure), Some(50.5));
    assert_eq!(measurement1.battery_millivolts, 3210);
    assert_eq!(measurement2.battery_millivolts, 3100);
}

#[test]
fn dragino_temperature_is_kept_in_exact_tenths() {
    let m1 = parse_payload_dragino(&[0x0b, 0x45, 0x01, 0x05, 0, 0, 0, 0, 0, 0, 0]).unwrap();
    let m2 = parse_payload_dragino(&[0x0b, 0x49, 0xff, 0x3f, 0, 0, 0, 0, 0, 0, 0]).unwrap();
    assert_eq!(m1.temperature_water, Reading::Tenths(261));
    assert_eq!(m2.temperature_water, Reading::Tenths(-193));
    assert_eq!(m1.temperature_enclosure, None);
    assert_eq!(m1.humidity_enclosure, None);
}

#[test]
fn dragino_sign_flips_exactly_when_top_bits_are_set() {
    // 0x03 & 0xfc == 0: still positive (0x03ff = 1023 tenths).
    let m = parse_payload_dragino(&[0, 0, 0x03, 0xff, 0, 0, 0, 0, 0, 0, 0]).unwrap();
    assert_eq!(m.temperature_water, Reading::Tenths(1023));
    // 0x04 & 0xfc != 0: negative (0x0400 - 65536).
    let m = parse_payload_dragino(&[0, 0, 0x04, 0x00, 0, 0, 0, 0, 0, 0, 0]).unwrap();
    assert_eq!(m.temperature_water, Reading::Tenths(1024 - 65536));
    let m = parse_payload_dragino(&[0xff, 0xff, 0xff, 0xff, 0, 0, 0, 0, 0, 0, 0]).unwrap();
    assert_eq!(m.temperature_water, Reading::Tenths(-1));
    assert_eq!(m.battery_millivolts, 65535);
}

#[test]
fn dragino_rejects_every_other_length() {
    for len in [0usize, 1, 10, 12, 16, 64] {
        let payload = vec![0u8; len];
        assert_eq!(
            parse_payload_dragino(&payload),
            Err(DecodeError::PayloadLengthMismatch { expected: 11, actual: len })
        );
    }
}

#[test]
fn gfroerli_v1_rejects_every_other_length() {
    for len in [0usize, 11, 15, 17] {
        let payload = vec![0u8; len];
        assert_eq!(
            parse_payload_gfroerli_v1(&payload),
            Err(DecodeError::PayloadLengthMismatch { expected: 16, actual: len })
        );
    }
}

#[test]
fn gfroerli_v2_is_always_unsupported() {
    for payload in [vec![], vec![1u8, 2, 3], vec![0u8; 16]] {
        assert_eq!(parse_payload_gfroerli_v2(&payload), Err(DecodeError::UnsupportedCodec));
    }
}

#[test]
fn decode_selects_layout_by_type_and_port() {
    let dragino = [0x0b, 0x45, 0x01, 0x05, 0, 0, 0, 0, 0, 0, 0];
    let gfroerli = [0, 0, 160, 65, 0, 0, 32, 65, 0, 0, 74, 66, 102, 102, 70, 64];
    // Dragino ignores the port.
    for port in [0u16, 1, 2, 99] {
        assert_eq!(decode(SensorType::Dragino, port, &dragino), parse_payload_dragino(&dragino));
    }
    assert_eq!(decode(SensorType::Gfroerli, 1, &gfroerli), parse_payload_gfroerli_v1(&gfroerli));
    assert_eq!(decode(SensorType::Gfroerli, 2, &gfroerli), Err(DecodeError::UnsupportedCodec));
    assert_eq!(
        decode(SensorType::Gfroerli, 3, &gfroerli),
        Err(DecodeError::UnexpectedChannel { channel: 3 })
    );
    assert_eq!(
        decode(SensorType::Gfroerli, 1, &dragino),
        Err(DecodeError::PayloadLengthMismatch { expected: 16, actual: 11 })
    );
}

#[test]
fn millivolts_round_to_nearest_and_saturate() {
    assert_eq!(millivolts_from_volts(3.21f32.to_bits()), 3210);
    assert_eq!(millivolts_from_volts(3.10f32.to_bits()), 3100);
    assert_eq!(millivolts_from_volts(1.0f32.to_bits()), 1000);
    assert_eq!(millivolts_from_volts(0.0f32.to_bits()), 0);
    assert_eq!(millivolts_from_volts((-1.0f32).to_bits()), 0);
    assert_eq!(millivolts_from_volts(f32::NAN.to_bits()), 0);
    assert_eq!(millivolts_from_volts(f32::INFINITY.to_bits()), 65535);
    assert_eq!(millivolts_from_volts(70.0f32.to_bits()), 65535);
    assert_eq!(millivolts_from_volts(65.535f32.to_bits()), 65535);
    assert_eq!(millivolts_from_volts(1e-30f32.to_bits()), 0);
}

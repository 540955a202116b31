//! Decoders of the binary payloads that the sensors send.

use crate::config::SensorType;
use crate::reading::{millivolts_from_volts, millivolts_of, Reading};
use vstd::prelude::*;

verus! {

/// A decoded measurement.
#[derive(Debug, Clone, Copy, PartialEq, Eq)]
pub struct Measurement {
    /// The water temperature in °C.
    pub temperature_water: Reading,
    /// The enclosure temperature in °C.
    pub temperature_enclosure: Option<Reading>,
    /// The enclosure humidity in %RH.
    pub humidity_enclosure: Option<Reading>,
    /// The battery voltage in millivolts.
    pub battery_millivolts: u16,
}

/// Why a payload could not be decoded.
#[derive(Debug, Clone, Copy, PartialEq, Eq)]
pub enum DecodeError {
    /// The payload does not have the fixed length of its layout.
    PayloadLengthMismatch { expected: usize, actual: usize },
    /// The layout is reserved but not implemented.
    UnsupportedCodec,
    /// A Gfroerli device sent on a frame port that selects no layout.
    UnexpectedChannel { channel: u16 },
}

/// Length of a Dragino payload.
pub const DRAGINO_PAYLOAD_LEN: usize = 11;

/// Length of a Gfroerli V1 payload.
pub const GFROERLI_V1_PAYLOAD_LEN: usize = 16;

/// The big-endian 16-bit integer at `i` and `i + 1`.
pub open spec fn be_u16(p: Seq<u8>, i: int) -> nat {
    p[i] as nat * 256 + p[i + 1] as nat
}

/// The little-endian 32-bit integer at `i` to `i + 3`.
pub open spec fn le_u32(p: Seq<u8>, i: int) -> u32 {
    (p[i] as nat + p[i + 1] as nat * 0x100 + p[i + 2] as nat * 0x1_0000 + p[i + 3] as nat
        * 0x100_0000) as u32
}

/// The temperature of a Dragino payload in tenths of °C: the big-endian raw
/// value, read as negative (minus 65536) when any of the top six bits of its
/// first byte is set.
pub open spec fn dragino_tenths(p: Seq<u8>) -> int {
    if p[2] & 0xfc == 0 {
        be_u16(p, 2) as int
    } else {
        be_u16(p, 2) - 65536
    }
}

/// The measurement of an 11-byte Dragino payload.
pub open spec fn dragino_measurement(p: Seq<u8>) -> Measurement {
    Measurement {
        temperature_water: Reading::Tenths(dragino_tenths(p) as i32),
        temperature_enclosure: None,
        humidity_enclosure: None,
        battery_millivolts: be_u16(p, 0) as u16,
    }
}

/// The measurement of a 16-byte Gfroerli V1 payload: four little-endian
/// binary32 values.
pub open spec fn gfroerli_v1_measurement(p: Seq<u8>) -> Measurement {
    Measurement {
        temperature_water: Reading::Binary32(le_u32(p, 0)),
        temperature_enclosure: Some(Reading::Binary32(le_u32(p, 4))),
        humidity_enclosure: Some(Reading::Binary32(le_u32(p, 8))),
        battery_millivolts: millivolts_of(le_u32(p, 12)),
    }
}

/// Which layout a sensor type and a frame port select.
pub open spec fn decode_spec(sensor_type: SensorType, channel: u16, p: Seq<u8>) -> Result<
    Measurement,
    DecodeError,
> {
    match sensor_type {
        SensorType::Dragino => if p.len() == 11 {
            Ok(dragino_measurement(p))
        } else {
            Err(DecodeError::PayloadLengthMismatch { expected: 11, actual: p.len() as usize })
        },
        SensorType::Gfroerli => if channel == 1 {
            if p.len() == 16 {
                Ok(gfroerli_v1_measurement(p))
            } else {
                Err(DecodeError::PayloadLengthMismatch { expected: 16, actual: p.len() as usize })
            }
        } else if channel == 2 {
            Err(DecodeError::UnsupportedCodec)
        } else {
            Err(DecodeError::UnexpectedChannel { channel })
        },
    }
}

/// Decodes a Dragino payload.
///
/// Layout, all multi-byte values big endian: 2 bytes battery voltage in
/// millivolts, 2 bytes temperature, 2 bytes reserved, 1 byte alarm flag,
/// 4 bytes for other temperature sensors (unused).
pub fn parse_payload_dragino(payload: &[u8]) -> (r: Result<Measurement, DecodeError>)
    ensures
        payload@.len() != 11 ==> r == Err::<Measurement, DecodeError>(
            DecodeError::PayloadLengthMismatch { expected: 11, actual: payload@.len() as usize },
        ),
        payload@.len() == 11 ==> r == Ok::<Measurement, DecodeError>(
            dragino_measurement(payload@),
        ),
{
    if payload.len() != DRAGINO_PAYLOAD_LEN {
        return Err(
            DecodeError::PayloadLengthMismatch {
                expected: DRAGINO_PAYLOAD_LEN,
                actual: payload.len(),
            },
        );
    }
    let battery_millivolts: u16 = payload[0] as u16 * 256 + payload[1] as u16;
    let raw: i32 = payload[2] as i32 * 256 + payload[3] as i32;
    let tenths: i32 = if payload[2] & 0xfc == 0 {
        raw
    } else {
        raw - 65536
    };
    Ok(
        Measurement {
            temperature_water: Reading::Tenths(tenths),
            temperature_enclosure: None,
            humidity_enclosure: None,
            battery_millivolts,
        },
    )
}

/// The little-endian 32-bit integer at `i` to `i + 3`.
fn read_le_u32(payload: &[u8], i: usize) -> (r: u32)
    requires
        i + 4 <= payload@.len(),
    ensures
        r == le_u32(payload@, i as int),
{
    payload[i] as u32 + payload[i + 1] as u32 * 0x100 + payload[i + 2] as u32 * 0x1_0000
        + payload[i + 3] as u32 * 0x100_0000
}

/// Decodes a Gfroerli V1 payload: four little-endian binary32 values, the
/// water temperature, the enclosure temperature, the enclosure humidity and
/// the battery voltage in volts.
pub fn parse_payload_gfroerli_v1(payload: &[u8]) -> (r: Result<Measurement, DecodeError>)
    ensures
        payload@.len() != 16 ==> r == Err::<Measurement, DecodeError>(
            DecodeError::PayloadLengthMismatch { expected: 16, actual: payload@.len() as usize },
        ),
        payload@.len() == 16 ==> r == Ok::<Measurement, DecodeError>(
            gfroerli_v1_measurement(payload@),
        ),
{
    if payload.len() != GFROERLI_V1_PAYLOAD_LEN {
        return Err(
            DecodeError::PayloadLengthMismatch {
                expected: GFROERLI_V1_PAYLOAD_LEN,
                actual: payload.len(),
            },
        );
    }
    let voltage = read_le_u32(payload, 12);
    Ok(
        Measurement {
            temperature_water: Reading::Binary32(read_le_u32(payload, 0)),
            temperature_enclosure: Some(Reading::Binary32(read_le_u32(payload, 4))),
            humidity_enclosure: Some(Reading::Binary32(read_le_u32(payload, 8))),
            battery_millivolts: millivolts_from_volts(voltage),
        },
    )
}

/// Decodes a Gfroerli V2 payload, a layout that is reserved but not
/// implemented: every payload is refused.
pub fn parse_payload_gfroerli_v2(payload: &[u8]) -> (r: Result<Measurement, DecodeError>)
    ensures
        r == Err::<Measurement, DecodeError>(DecodeError::UnsupportedCodec),
{
    Err(DecodeError::UnsupportedCodec)
}

/// Decodes a payload by the layout that the sensor type and the frame port
/// select: a Dragino sensor has one layout whatever the port; a Gfroerli
/// sensor sends V1 on port 1 and V2 on port 2, and no other port is valid.
pub fn decode(sensor_type: SensorType, channel: u16, payload: &[u8]) -> (r: Result<
    Measurement,
    DecodeError,
>)
    ensures
        r == decode_spec(sensor_type, channel, payload@),
{
    match sensor_type {
        SensorType::Dragino => parse_payload_dragino(payload),
        SensorType::Gfroerli => if channel == 1 {
            parse_payload_gfroerli_v1(payload)
        } else if channel == 2 {
            parse_payload_gfroerli_v2(payload)
        } else {
            Err(DecodeError::UnexpectedChannel { channel })
        },
    }
}

} // verus!

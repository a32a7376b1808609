//! Decoder for the RuuviTag format-5 manufacturer payload.
//!
//! Format 5 is a fixed 24-byte layout: byte 0 holds the format version,
//! bytes 1-12 hold big-endian fixed-point fields, byte 15 the movement
//! counter; the remaining bytes carry data this pipeline does not use.

use vstd::prelude::*;

use crate::models::RuuviData;

verus! {

/// The only payload format version this decoder accepts.
pub const DATA_FORMAT: u8 = 5;

/// Length in bytes of a format-5 payload.
pub const PAYLOAD_LEN: usize = 24;

/// Big-endian unsigned 16-bit value of two bytes.
pub open spec fn be16(hi: u8, lo: u8) -> int {
    hi * 256 + lo
}

/// Big-endian signed (two's-complement) 16-bit value of two bytes.
pub open spec fn sbe16(hi: u8, lo: u8) -> int {
    if be16(hi, lo) < 32768 {
        be16(hi, lo)
    } else {
        be16(hi, lo) - 65536
    }
}

/// `raw / 2` rounded to the nearest integer, halves away from zero.
///
/// A raw temperature step is 0.005 degrees, so hundredths of a degree are
/// half a raw unit; this is the permanent two-decimal rounding.
pub open spec fn temp_centi_of(raw: int) -> int {
    if raw >= 0 {
        (raw + 1) / 2
    } else {
        -((1 - raw) / 2)
    }
}

/// `raw / 4` rounded to the nearest integer and capped at 10000.
///
/// A raw humidity step is 0.0025 percent, so hundredths of a percent are a
/// quarter of a raw unit; the cap is the 100-percent clamp.
pub open spec fn humid_centi_of(raw: int) -> int {
    if (raw + 2) / 4 > 10000 {
        10000
    } else {
        (raw + 2) / 4
    }
}

/// Pressure in hundredths of a hectopascal: the raw value is in pascal
/// above a fixed 50000 Pa offset, and one pascal is one centi-hectopascal.
pub open spec fn press_centi_of(raw: int) -> int {
    raw + 50000
}

/// The reading a well-formed format-5 payload decodes to, field by field;
/// `None` for a payload of the wrong length or the wrong format byte.
pub open spec fn spec_decode(d: Seq<u8>) -> Option<RuuviData> {
    if d.len() == 24 && d[0] == 5 {
        Some(
            RuuviData {
                temperature: temp_centi_of(sbe16(d[1], d[2])) as i32,
                humidity: humid_centi_of(be16(d[3], d[4])) as u32,
                pressure: press_centi_of(be16(d[5], d[6])) as u32,
                acceleration_x: sbe16(d[7], d[8]) as i32,
                acceleration_y: sbe16(d[9], d[10]) as i32,
                acceleration_z: sbe16(d[11], d[12]) as i32,
                movement_counter: d[15],
            },
        )
    } else {
        None
    }
}

/// Big-endian signed 16-bit value of two bytes, widened to `i32`.
fn signed_be16(hi: u8, lo: u8) -> (r: i32)
    ensures
        r == sbe16(hi, lo),
{
    let m: u32 = (hi as u32) * 256 + (lo as u32);
    if m >= 32768 {
        (m as i32) - 65536
    } else {
        m as i32
    }
}

/// Decode a RuuviTag format-5 manufacturer payload into a reading.
///
/// A payload is rejected exactly when its length is not 24 bytes or its
/// format byte is not 5.  On a well-formed payload every field is returned
/// at its persisted precision: temperature, humidity and pressure in
/// hundredths (humidity capped at 100 percent), acceleration in
/// thousandths, and the movement counter as the raw byte.
pub fn decode_ruuvi_data(data: &[u8]) -> (r: Option<RuuviData>)
    ensures
        r == spec_decode(data@),
        r is Some <==> (data@.len() == 24 && data@[0] == 5),
{
    if data.len() != PAYLOAD_LEN || data[0] != DATA_FORMAT {
        return None;
    }
    let t_raw = signed_be16(data[1], data[2]);
    let temperature: i32 = if t_raw >= 0 {
        (t_raw + 1) / 2
    } else {
        -((1 - t_raw) / 2)
    };
    let h_raw: u32 = (data[3] as u32) * 256 + (data[4] as u32);
    let h0: u32 = (h_raw + 2) / 4;
    let humidity: u32 = if h0 > 10000 {
        10000
    } else {
        h0
    };
    let p_raw: u32 = (data[5] as u32) * 256 + (data[6] as u32);
    let pressure: u32 = p_raw + 50000;
    let acceleration_x = signed_be16(data[7], data[8]);
    let acceleration_y = signed_be16(data[9], data[10]);
    let acceleration_z = signed_be16(data[11], data[12]);
    let movement_counter: u8 = data[15];
    Some(
        RuuviData {
            temperature,
            humidity,
            pressure,
            acceleration_x,
            acceleration_y,
            acceleration_z,
            movement_counter,
        },
    )
}

} // verus!

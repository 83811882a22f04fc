//! Decoder for the one recognized binary sensor-broadcast layout.
//!
//! A validated payload is accepted only if it is at least thirty bytes
//! long and opens with the fixed three-byte format tag. Each of the four
//! quantities has an "absent" sentinel raw value; decoded values are
//! exact fixed-point integers, so no precision is lost before a consumer
//! chooses a floating-point rendering.

use vstd::prelude::*;

verus! {

/// Least payload length the decoder accepts.
pub const MIN_PAYLOAD_LEN: usize = 30;

/// The big-endian 16-bit field starting at a byte offset.
pub open spec fn be16(s: Seq<u8>, i: int) -> u16
    recommends
        0 <= i,
        i + 2 <= s.len(),
{
    ((s[i] as int) * 256 + (s[i + 1] as int)) as u16
}

/// The two's-complement reading of a raw 16-bit field.
pub open spec fn as_signed(raw: u16) -> int {
    if raw < 0x8000 {
        raw as int
    } else {
        raw as int - 0x10000
    }
}

/// Whether a payload carries the supported broadcast layout: long enough
/// and opening with the fixed format tag.
pub open spec fn recognized(p: Seq<u8>) -> bool {
    p.len() >= MIN_PAYLOAD_LEN && p[0] == 0x99 && p[1] == 0x04 && p[2] == 0x05
}

/// Whether the identity field holds the reserved all-ones "no address"
/// value.
pub open spec fn identity_missing(p: Seq<u8>) -> bool {
    forall|i: int| 20 <= i < 26 ==> p[i] == 0xff
}

/// The decoded temperature in thousandths of a degree Celsius: the raw
/// signed value scaled by 0.005 degrees, or absent on the minimum-signed
/// sentinel.
pub open spec fn spec_temperature(p: Seq<u8>) -> Option<i32> {
    let raw = be16(p, 3);
    if raw == 0x8000 {
        None
    } else {
        Some((as_signed(raw) * 5) as i32)
    }
}

/// The decoded relative humidity in ten-thousandths of a percent: the
/// raw value scaled by 0.0025 percent, or absent on the all-ones
/// sentinel.
pub open spec fn spec_humidity(p: Seq<u8>) -> Option<u32> {
    let raw = be16(p, 5);
    if raw == 0xffff {
        None
    } else {
        Some((raw * 25) as u32)
    }
}

/// The decoded air pressure in pascals: the raw value offset by 50000,
/// or absent on the all-ones sentinel.
pub open spec fn spec_pressure(p: Seq<u8>) -> Option<u32> {
    let raw = be16(p, 7);
    if raw == 0xffff {
        None
    } else {
        Some((raw + 50000) as u32)
    }
}

/// The decoded battery level in millivolts: the top eleven bits of the
/// power field offset by 1600, or absent when those bits are all ones.
pub open spec fn spec_battery(p: Seq<u8>) -> Option<u16> {
    let raw = be16(p, 15);
    if raw / 32 == 2047 {
        None
    } else {
        Some((raw / 32 + 1600) as u16)
    }
}

/// Why a validated payload produced no reading.
#[derive(Clone, Copy, Debug, PartialEq, Eq, Structural)]
pub enum DecodeError {
    /// The payload is not the supported broadcast layout; other layouts
    /// are expected in the wild and silently ignored.
    UnrecognizedFormat,
    /// The identity field holds the reserved all-ones value; the message
    /// is dropped whole.
    MissingIdentity,
}

/// One decoded sensor broadcast: the hardware identity and four
/// quantities, each either a fixed-point value or explicitly absent.
#[derive(Clone, Copy, Debug, PartialEq, Eq)]
pub struct SensorReading {
    /// The six-byte hardware identity; never the reserved all-ones value.
    pub mac: [u8; 6],
    /// Temperature in thousandths of a degree Celsius.
    pub temperature: Option<i32>,
    /// Relative humidity in ten-thousandths of a percent.
    pub humidity: Option<u32>,
    /// Air pressure in pascals.
    pub pressure: Option<u32>,
    /// Battery level in millivolts.
    pub battery: Option<u16>,
}

impl SensorReading {
    /// The reading decodes the payload: its identity and quantities are
    /// exactly the payload's fields.
    pub open spec fn decodes(self, p: Seq<u8>) -> bool {
        &&& self.mac@ == p.subrange(20, 26)
        &&& self.temperature == spec_temperature(p)
        &&& self.humidity == spec_humidity(p)
        &&& self.pressure == spec_pressure(p)
        &&& self.battery == spec_battery(p)
    }
}

/// The big-endian 16-bit field at a byte offset of the payload.
fn read_be16(p: &[u8], i: usize) -> (r: u16)
    requires
        i + 2 <= p@.len(),
    ensures
        r == be16(p@, i as int),
{
    (p[i] as u16) * 256 + (p[i + 1] as u16)
}

/// Decodes a validated payload as a sensor broadcast.
///
/// Succeeds exactly on a recognized payload whose identity is not the
/// reserved all-ones value; an unrecognized payload and a missing
/// identity are told apart in the error.
pub fn decode(p: &[u8]) -> (r: Result<SensorReading, DecodeError>)
    ensures
        r is Ok <==> (recognized(p@) && !identity_missing(p@)),
        !recognized(p@) ==> r == Err::<SensorReading, DecodeError>(DecodeError::UnrecognizedFormat),
        recognized(p@) && identity_missing(p@) ==> r == Err::<SensorReading, DecodeError>(
            DecodeError::MissingIdentity,
        ),
        r is Ok ==> r.unwrap().decodes(p@),
{
    if !(p.len() >= MIN_PAYLOAD_LEN && p[0] == 0x99 && p[1] == 0x04 && p[2] == 0x05) {
        return Err(DecodeError::UnrecognizedFormat);
    }
    let mac: [u8; 6] = [p[20], p[21], p[22], p[23], p[24], p[25]];
    if p[20] == 0xff && p[21] == 0xff && p[22] == 0xff && p[23] == 0xff && p[24] == 0xff && p[25]
        == 0xff {
        proof {
            assert(identity_missing(p@));
        }
        return Err(DecodeError::MissingIdentity);
    }
    proof {
        assert(!identity_missing(p@)) by {
            if identity_missing(p@) {
                assert(p@[20] == 0xff && p@[21] == 0xff && p@[22] == 0xff && p@[23] == 0xff
                    && p@[24] == 0xff && p@[25] == 0xff);
            }
        }
        assert(mac@ =~= p@.subrange(20, 26));
    }
    let temp_raw = read_be16(p, 3);
    let temperature: Option<i32> = if temp_raw == 0x8000 {
        None
    } else if temp_raw < 0x8000 {
        Some((temp_raw as i32) * 5)
    } else {
        Some(((temp_raw as i32) - 65536) * 5)
    };
    let hum_raw = read_be16(p, 5);
    let humidity: Option<u32> = if hum_raw == 0xffff {
        None
    } else {
        Some((hum_raw as u32) * 25)
    };
    let pres_raw = read_be16(p, 7);
    let pressure: Option<u32> = if pres_raw == 0xffff {
        None
    } else {
        Some((pres_raw as u32) + 50000)
    };
    let power_raw = read_be16(p, 15);
    let battery: Option<u16> = if power_raw / 32 == 2047 {
        None
    } else {
        Some(power_raw / 32 + 1600)
    };
    Ok(SensorReading { mac, temperature, humidity, pressure, battery })
}

} // verus!

//! The commands of the sensor and the shape of what they carry. Numbers
//! travel most significant byte first.

use vstd::prelude::*;

verus! {

/// Read the CO2 concentration.
pub const READ_CONCENTRATION: u8 = 0x86;

/// Switch automatic baseline correction on or off.
pub const SET_BASELINE_CORRECTION: u8 = 0x79;

/// Calibrate the zero point.
pub const CALIBRATE_ZERO: u8 = 0x87;

/// Calibrate the span point.
pub const CALIBRATE_SPAN: u8 = 0x88;

/// Set the detection range.
pub const SET_RANGE: u8 = 0x99;

/// Read the detection range.
pub const GET_RANGE: u8 = 0x9B;

/// Restart the sensor.
pub const RESET: u8 = 0x8D;

/// Read the bounds of the analog output.
pub const GET_ANALOG_BOUNDS: u8 = 0xA5;

/// Read the firmware version.
pub const GET_FIRMWARE_VERSION: u8 = 0xA0;

/// The byte that switches automatic baseline correction on.
pub const BASELINE_ON: u8 = 0xA0;

/// The byte that switches automatic baseline correction off.
pub const BASELINE_OFF: u8 = 0x00;

/// The number that two bytes spell, most significant first.
pub open spec fn spec_be16(high: u8, low: u8) -> u16 {
    (high * 0x100 + low) as u16
}

/// The number that four bytes spell, most significant first.
pub open spec fn spec_be32(b0: u8, b1: u8, b2: u8, b3: u8) -> u32 {
    (b0 * 0x100_0000 + b1 * 0x1_0000 + b2 * 0x100 + b3) as u32
}

/// The two bytes that spell `value`, most significant first.
pub open spec fn spec_be16_bytes(value: u16) -> Seq<u8> {
    seq![(value / 0x100) as u8, (value % 0x100) as u8]
}

/// The four bytes that spell `value`, most significant first.
pub open spec fn spec_be32_bytes(value: u32) -> Seq<u8> {
    seq![
        (value / 0x100_0000) as u8,
        (value / 0x1_0000 % 0x100) as u8,
        (value / 0x100 % 0x100) as u8,
        (value % 0x100) as u8,
    ]
}

/// The payload that switches automatic baseline correction.
pub open spec fn spec_baseline_payload(enabled: bool) -> Seq<u8> {
    seq![if enabled { BASELINE_ON } else { BASELINE_OFF }]
}

/// The payload that sets the detection range: a zero byte, then the range.
pub open spec fn spec_range_payload(range: u32) -> Seq<u8> {
    seq![0u8] + spec_be32_bytes(range)
}

/// The number that two bytes spell, most significant first.
pub fn be16(high: u8, low: u8) -> (value: u16)
    ensures
        value == spec_be16(high, low),
{
    (high as u16) * 0x100 + (low as u16)
}

/// The number that four bytes spell, most significant first.
pub fn be32(b0: u8, b1: u8, b2: u8, b3: u8) -> (value: u32)
    ensures
        value == spec_be32(b0, b1, b2, b3),
{
    (b0 as u32) * 0x100_0000 + (b1 as u32) * 0x1_0000 + (b2 as u32) * 0x100 + (b3 as u32)
}

/// The two bytes that spell `value`, most significant first.
pub fn be16_bytes(value: u16) -> (bytes: [u8; 2])
    ensures
        bytes@ == spec_be16_bytes(value),
{
    let bytes: [u8; 2] = [(value / 0x100) as u8, (value % 0x100) as u8];
    assert(bytes@ =~= spec_be16_bytes(value));
    bytes
}

/// The payload that switches automatic baseline correction.
pub fn baseline_payload(enabled: bool) -> (payload: [u8; 1])
    ensures
        payload@ == spec_baseline_payload(enabled),
{
    let payload: [u8; 1] = [if enabled { BASELINE_ON } else { BASELINE_OFF }];
    assert(payload@ =~= spec_baseline_payload(enabled));
    payload
}

/// The payload that sets the detection range: a zero byte, then the range.
pub fn range_payload(range: u32) -> (payload: [u8; 5])
    ensures
        payload@ == spec_range_payload(range),
{
    let payload: [u8; 5] = [
        0,
        (range / 0x100_0000) as u8,
        (range / 0x1_0000 % 0x100) as u8,
        (range / 0x100 % 0x100) as u8,
        (range % 0x100) as u8,
    ];
    assert(payload@ =~= spec_range_payload(range));
    payload
}

/// Two bytes and the number they spell determine each other.
pub proof fn lemma_be16_round_trip(value: u16, high: u8, low: u8)
    ensures
        spec_be16(spec_be16_bytes(value)[0], spec_be16_bytes(value)[1]) == value,
        spec_be16_bytes(spec_be16(high, low)) == seq![high, low],
{
    assert(spec_be16_bytes(spec_be16(high, low)) =~= seq![high, low]);
}

/// The four bytes that spell a number spell that number.
pub proof fn lemma_be32_of_bytes(value: u32)
    ensures
        spec_be32(
            spec_be32_bytes(value)[0],
            spec_be32_bytes(value)[1],
            spec_be32_bytes(value)[2],
            spec_be32_bytes(value)[3],
        ) == value,
{
    let x0: u32 = value / 0x100_0000;
    let x1: u32 = value / 0x1_0000 % 0x100;
    let x2: u32 = value / 0x100 % 0x100;
    let x3: u32 = value % 0x100;
    assert(x0 < 0x100 && x1 < 0x100 && x2 < 0x100 && x3 < 0x100 && x0 * 0x100_0000 + x1 * 0x1_0000
        + x2 * 0x100 + x3 == value) by (bit_vector)
        requires
            x0 == value / 0x100_0000,
            x1 == value / 0x1_0000 % 0x100,
            x2 == value / 0x100 % 0x100,
            x3 == value % 0x100,
    ;
}

/// The number that four bytes spell is spelled by those four bytes.
pub proof fn lemma_be32_bytes_of(b0: u8, b1: u8, b2: u8, b3: u8)
    ensures
        spec_be32_bytes(spec_be32(b0, b1, b2, b3)) == seq![b0, b1, b2, b3],
{
    let x0: u32 = b0 as u32;
    let x1: u32 = b1 as u32;
    let x2: u32 = b2 as u32;
    let x3: u32 = b3 as u32;
    let value: u32 = spec_be32(b0, b1, b2, b3);
    assert(value == x0 * 0x100_0000 + x1 * 0x1_0000 + x2 * 0x100 + x3);
    assert(value / 0x100_0000 == x0 && value / 0x1_0000 % 0x100 == x1 && value / 0x100 % 0x100
        == x2 && value % 0x100 == x3) by (bit_vector)
        requires
            x0 < 0x100,
            x1 < 0x100,
            x2 < 0x100,
            x3 < 0x100,
            value == x0 * 0x100_0000 + x1 * 0x1_0000 + x2 * 0x100 + x3,
    ;
    assert(spec_be32_bytes(value) =~= seq![b0, b1, b2, b3]);
}

} // verus!

//! The raw sample formats and what their bytes mean.

use vstd::prelude::*;
use crate::bytes::{le_bytes, le_value, be_value, signed_of, unsigned_of};

verus! {

/// The supported raw sample formats.
#[derive(Clone, Copy, Debug, PartialEq, Eq, Structural)]
pub enum SampleFormat {
    /// 16 bit signed integer, little endian.
    S16LE,
    /// 16 bit signed integer, big endian.
    S16BE,
    /// 24 bit signed integer, little endian, stored as 3 bytes.
    S24LE3,
    /// 24 bit signed integer, big endian, stored as 3 bytes.
    S24BE3,
    /// 24 bit signed integer, little endian, stored as 4 bytes: the data is
    /// in the lower 3 bytes and the most significant byte is padding.
    S24LE4,
    /// 24 bit signed integer, big endian, stored as 4 bytes: the data is in
    /// the lower 3 bytes and the most significant byte is padding.
    S24BE4,
    /// 32 bit signed integer, little endian.
    S32LE,
    /// 32 bit signed integer, big endian.
    S32BE,
    /// 32 bit floating point, little endian.
    F32LE,
    /// 32 bit floating point, big endian.
    F32BE,
    /// 64 bit floating point, little endian.
    F64LE,
    /// 64 bit floating point, big endian.
    F64BE,
}

/// The number of bytes that `format` uses for each sample.
pub open spec fn format_width(format: SampleFormat) -> nat {
    match format {
        SampleFormat::S16LE | SampleFormat::S16BE => 2,
        SampleFormat::S24LE3 | SampleFormat::S24BE3 => 3,
        SampleFormat::F64LE | SampleFormat::F64BE => 8,
        _ => 4,
    }
}

impl SampleFormat {
    /// The number of bytes that the format uses to store each sample.
    pub fn bytes_per_sample(&self) -> (r: usize)
        ensures
            r == format_width(*self),
    {
        match self {
            SampleFormat::S16LE => 2,
            SampleFormat::S16BE => 2,
            SampleFormat::S24LE3 => 3,
            SampleFormat::S24BE3 => 3,
            SampleFormat::S24LE4 => 4,
            SampleFormat::S24BE4 => 4,
            SampleFormat::S32LE => 4,
            SampleFormat::S32BE => 4,
            SampleFormat::F32LE => 4,
            SampleFormat::F32BE => 4,
            SampleFormat::F64LE => 8,
            SampleFormat::F64BE => 8,
        }
    }
}

/// One of the integer formats.
pub open spec fn is_int_format(format: SampleFormat) -> bool {
    !(format is F32LE || format is F32BE || format is F64LE || format is F64BE)
}

/// The power of two by which an integer format scales a normalized value
/// before storing it: `2^15` for 16 bit, `2^31` for 24 and 32 bit (the 24 bit
/// formats store the upper three bytes of the 32 bit result).
pub open spec fn encode_scale(format: SampleFormat) -> nat {
    if format is S16LE || format is S16BE {
        15
    } else {
        31
    }
}

/// The bytes that an integer format stores for the scaled integer `v`.
pub open spec fn int_bytes(format: SampleFormat, v: int) -> Seq<u8> {
    match format {
        SampleFormat::S16LE => le_bytes(unsigned_of(v, 16), 2),
        SampleFormat::S16BE => le_bytes(unsigned_of(v, 16), 2).reverse(),
        SampleFormat::S24LE3 => le_bytes(unsigned_of(v, 32) / 256, 3),
        SampleFormat::S24BE3 => le_bytes(unsigned_of(v, 32) / 256, 3).reverse(),
        SampleFormat::S24LE4 => le_bytes(unsigned_of(v, 32) / 256, 3).push(0u8),
        SampleFormat::S24BE4 => seq![0u8] + le_bytes(unsigned_of(v, 32) / 256, 3).reverse(),
        SampleFormat::S32LE => le_bytes(unsigned_of(v, 32), 4),
        SampleFormat::S32BE => le_bytes(unsigned_of(v, 32), 4).reverse(),
        _ => seq![],
    }
}

/// The signed integer that the bytes `b` of an integer format hold; the
/// sample they stand for is that integer divided by `2^decode_scale(format)`.
/// The padding byte of the 4-byte 24 bit formats is ignored.
pub open spec fn int_value(format: SampleFormat, b: Seq<u8>) -> int {
    match format {
        SampleFormat::S16LE => signed_of(le_value(b), 16),
        SampleFormat::S16BE => signed_of(be_value(b), 16),
        SampleFormat::S24LE3 => signed_of(le_value(b), 24),
        SampleFormat::S24BE3 => signed_of(be_value(b), 24),
        SampleFormat::S24LE4 => signed_of(le_value(b.subrange(0, 3)), 24),
        SampleFormat::S24BE4 => signed_of(be_value(b.subrange(1, 4)), 24),
        SampleFormat::S32LE => signed_of(le_value(b), 32),
        SampleFormat::S32BE => signed_of(be_value(b), 32),
        _ => 0,
    }
}

/// The power of two that divides the stored integer of an integer format.
pub open spec fn decode_scale(format: SampleFormat) -> nat {
    if format is S16LE || format is S16BE {
        15
    } else if format is S32LE || format is S32BE {
        31
    } else {
        23
    }
}

} // verus!

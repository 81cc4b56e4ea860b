//! Samples in the normalized floating-point domain, held as IEEE-754 bit
//! patterns, and their conversion to and from the raw formats.

use vstd::prelude::*;
use vstd::arithmetic::power2::{pow2, lemma2_to64};
use crate::bytes::{
    le_bytes, unsigned_of, signed_of, le_bytes2, le_bytes3, le_bytes4, le_value2, le_value3,
    le_value4, reversed2, reversed3, reversed4, le_bytes8, le_value8, reversed8, le_value,
    be_value,
};
use crate::float::{
    scale_to_int, quantize, f64_neg, f64_is_nan, f64_is_inf, f64_mant, f64_exp, f32_neg,
    f32_is_nan, f32_is_inf, f32_mant, f32_exp, f64_denotes, f32_denotes, exact_to_f64,
    exact_to_f32, f64_clamped, f32_clamped, clamp_f64, clamp_f32, f64_widened, widen, f32_narrowed,
    narrow, f32_round, round_to_f32,
};
use crate::format::{SampleFormat, int_bytes, int_value, decode_scale};

verus! {

/// `|x|`.
pub open spec fn abs(x: int) -> nat {
    if x < 0 {
        (-x) as nat
    } else {
        x as nat
    }
}

/// The scaled integer, and whether clamping changed it, that an integer
/// format stores for the binary64 sample `b`, scaled by `2^k`: not-a-number
/// stores zero, an infinity clips to the nearest end of the range.
pub open spec fn f64_to_int(b: u64, k: nat) -> (int, bool) {
    if f64_is_nan(b) {
        (0, false)
    } else if f64_is_inf(b) {
        if f64_neg(b) {
            (-pow2(k), true)
        } else {
            (pow2(k) - 1, true)
        }
    } else {
        scale_to_int(f64_neg(b), f64_mant(b), f64_exp(b), k)
    }
}

/// As `f64_to_int`, for the binary32 sample `b`.
pub open spec fn f32_to_int(b: u32, k: nat) -> (int, bool) {
    if f32_is_nan(b) {
        (0, false)
    } else if f32_is_inf(b) {
        if f32_neg(b) {
            (-pow2(k), true)
        } else {
            (pow2(k) - 1, true)
        }
    } else {
        scale_to_int(f32_neg(b), f32_mant(b), f32_exp(b), k)
    }
}

/// `b` is the binary64 pattern of the sample that the bytes `raw` of the
/// integer format `format` hold: the stored integer over its scale.
pub open spec fn f64_from_int_bytes(format: SampleFormat, raw: Seq<u8>, b: u64) -> bool {
    f64_denotes(
        b,
        int_value(format, raw) < 0,
        abs(int_value(format, raw)),
        -(decode_scale(format) as int),
    )
}

/// As `f64_from_int_bytes`, for a binary32 pattern.
pub open spec fn f32_from_int_bytes(format: SampleFormat, raw: Seq<u8>, b: u32) -> bool {
    f32_denotes(
        b,
        int_value(format, raw) < 0,
        abs(int_value(format, raw)),
        -(decode_scale(format) as int),
    )
}

/// The scaled, clamped integer for a binary64 sample, as `f64_to_int` says.
fn f64_scaled(b: u64, k: u32) -> (r: (i64, bool))
    requires
        k == 15 || k == 31,
    ensures
        (r.0 as int, r.1) == f64_to_int(b, k as nat),
        k == 15 ==> -0x8000 <= r.0 < 0x8000,
        k == 31 ==> -0x8000_0000 <= r.0 < 0x8000_0000,
{
    proof {
        lemma2_to64();
    }
    let neg = (b >> 63u64) == 1;
    let ex = (b >> 52u64) & 0x7ff;
    let fr = b & 0xf_ffff_ffff_ffff;
    assert(fr < 0x10_0000_0000_0000) by (bit_vector)
        requires fr == b & 0xf_ffff_ffff_ffff;
    assert(ex < 0x800) by (bit_vector)
        requires ex == (b >> 52u64) & 0x7ff;
    let p: i64 = if k == 15 { 0x8000 } else { 0x8000_0000 };
    if ex == 0x7ff {
        if fr != 0 {
            return (0, false);
        }
        if neg {
            return (-p, true);
        }
        return (p - 1, true);
    }
    let m: u64 = if ex == 0 { fr } else { fr + 0x10_0000_0000_0000 };
    let e: i32 = if ex == 0 { -1074 } else { ex as i32 - 1075 };
    quantize(neg, m, e, k)
}

/// The scaled, clamped integer for a binary32 sample, as `f32_to_int` says.
fn f32_scaled(b: u32, k: u32) -> (r: (i64, bool))
    requires
        k == 15 || k == 31,
    ensures
        (r.0 as int, r.1) == f32_to_int(b, k as nat),
        k == 15 ==> -0x8000 <= r.0 < 0x8000,
        k == 31 ==> -0x8000_0000 <= r.0 < 0x8000_0000,
{
    proof {
        lemma2_to64();
    }
    let neg = (b >> 31u32) == 1;
    let ex = (b >> 23u32) & 0xff;
    let fr = b & 0x7f_ffff;
    assert(fr < 0x80_0000) by (bit_vector)
        requires fr == b & 0x7f_ffff;
    assert(ex < 0x100) by (bit_vector)
        requires ex == (b >> 23u32) & 0xff;
    let p: i64 = if k == 15 { 0x8000 } else { 0x8000_0000 };
    if ex == 0xff {
        if fr != 0 {
            return (0, false);
        }
        if neg {
            return (-p, true);
        }
        return (p - 1, true);
    }
    let m: u64 = if ex == 0 { fr as u64 } else { fr as u64 + 0x80_0000 };
    let e: i32 = if ex == 0 { -149 } else { ex as i32 - 150 };
    quantize(neg, m, e, k)
}

/// The 16 bit two's complement bytes of `v`, least significant first.
fn int_bytes2(v: i64) -> (r: [u8; 2])
    requires
        -0x8000 <= v < 0x8000,
    ensures
        r@ == le_bytes(unsigned_of(v as int, 16), 2),
{
    proof {
        lemma2_to64();
    }
    let u: u32 = if v < 0 { (v + 0x1_0000) as u32 } else { v as u32 };
    le_bytes2(u)
}

/// The upper three bytes of the 32 bit two's complement pattern of `v`,
/// least significant first.
fn int_bytes3(v: i64) -> (r: [u8; 3])
    requires
        -0x8000_0000 <= v < 0x8000_0000,
    ensures
        r@ == le_bytes(unsigned_of(v as int, 32) / 256, 3),
{
    proof {
        lemma2_to64();
    }
    let u: u32 = if v < 0 { (v + 0x1_0000_0000) as u32 } else { v as u32 };
    le_bytes3(u / 256)
}

/// The 32 bit two's complement bytes of `v`, least significant first.
fn int_bytes4(v: i64) -> (r: [u8; 4])
    requires
        -0x8000_0000 <= v < 0x8000_0000,
    ensures
        r@ == le_bytes(unsigned_of(v as int, 32), 4),
{
    proof {
        lemma2_to64();
    }
    let u: u32 = if v < 0 { (v + 0x1_0000_0000) as u32 } else { v as u32 };
    le_bytes4(u)
}

/// The value of the `bits`-wide two's complement pattern `u`.
fn signed(u: u32, bits: u32) -> (r: i64)
    requires
        bits == 16 || bits == 24 || bits == 32,
        bits == 16 ==> u < 0x1_0000,
        bits == 24 ==> u < 0x100_0000,
    ensures
        r == signed_of(u as nat, bits as nat),
        -0x8000_0000 <= r < 0x8000_0000,
        bits == 16 ==> -0x8000 <= r < 0x8000,
        bits == 24 ==> -0x80_0000 <= r < 0x80_0000,
{
    proof {
        lemma2_to64();
    }
    let half: i64 = if bits == 16 { 0x8000 } else if bits == 24 { 0x80_0000 } else { 0x8000_0000 };
    if u as i64 >= half {
        u as i64 - 2 * half
    } else {
        u as i64
    }
}

/// The binary64 pattern of `num / 2^k`.
fn int_to_f64(num: i64, k: u32) -> (b: u64)
    requires
        -0x8000_0000 <= num < 0x8000_0000,
        k <= 31,
    ensures
        f64_denotes(b, num < 0, abs(num as int), -(k as int)),
{
    if num < 0 {
        exact_to_f64(true, (-num) as u64, -(k as i32))
    } else {
        exact_to_f64(false, num as u64, -(k as i32))
    }
}

/// The binary32 pattern of `num / 2^k`, for a `num` that binary32 holds exactly.
fn int_to_f32(num: i64, k: u32) -> (b: u32)
    requires
        -0x100_0000 < num < 0x100_0000,
        k <= 31,
    ensures
        f32_denotes(b, num < 0, abs(num as int), -(k as int)),
{
    if num < 0 {
        exact_to_f32(true, (-num) as u64, -(k as i32))
    } else {
        exact_to_f32(false, num as u64, -(k as i32))
    }
}

/// A sample held as the bit pattern of an IEEE-754 binary64 value.
#[derive(Clone, Copy, Debug, PartialEq, Eq, Structural)]
pub struct F64 {
    pub bits: u64,
}

/// A sample held as the bit pattern of an IEEE-754 binary32 value.
#[derive(Clone, Copy, Debug, PartialEq, Eq, Structural)]
pub struct F32 {
    pub bits: u32,
}

impl F64 {
    /// Encodes the sample as S16LE, and tells whether it was clipped.
    pub fn to_s16_le(&self) -> (r: ([u8; 2], bool))
        ensures
            r.0@ == int_bytes(SampleFormat::S16LE, f64_to_int(self.bits, 15).0),
            r.1 == f64_to_int(self.bits, 15).1,
    {
        let (v, clipped) = f64_scaled(self.bits, 15);
        let out: [u8; 2] = int_bytes2(v);
        proof {
            assert(out@ =~= int_bytes(SampleFormat::S16LE, v as int));
        }
        (out, clipped)
    }

    /// Encodes the sample as S16BE, and tells whether it was clipped.
    pub fn to_s16_be(&self) -> (r: ([u8; 2], bool))
        ensures
            r.0@ == int_bytes(SampleFormat::S16BE, f64_to_int(self.bits, 15).0),
            r.1 == f64_to_int(self.bits, 15).1,
    {
        let (v, clipped) = f64_scaled(self.bits, 15);
        let out: [u8; 2] = reversed2(int_bytes2(v));
        proof {
            assert(out@ =~= int_bytes(SampleFormat::S16BE, v as int));
        }
        (out, clipped)
    }

    /// Encodes the sample as S24LE3, and tells whether it was clipped.
    pub fn to_s24_3_le(&self) -> (r: ([u8; 3], bool))
        ensures
            r.0@ == int_bytes(SampleFormat::S24LE3, f64_to_int(self.bits, 31).0),
            r.1 == f64_to_int(self.bits, 31).1,
    {
        let (v, clipped) = f64_scaled(self.bits, 31);
        let out: [u8; 3] = int_bytes3(v);
        proof {
            assert(out@ =~= int_bytes(SampleFormat::S24LE3, v as int));
        }
        (out, clipped)
    }

    /// Encodes the sample as S24BE3, and tells whether it was clipped.
    pub fn to_s24_3_be(&self) -> (r: ([u8; 3], bool))
        ensures
            r.0@ == int_bytes(SampleFormat::S24BE3, f64_to_int(self.bits, 31).0),
            r.1 == f64_to_int(self.bits, 31).1,
    {
        let (v, clipped) = f64_scaled(self.bits, 31);
        let out: [u8; 3] = reversed3(int_bytes3(v));
        proof {
            assert(out@ =~= int_bytes(SampleFormat::S24BE3, v as int));
        }
        (out, clipped)
    }

    /// Encodes the sample as S24LE4, and tells whether it was clipped.
    pub fn to_s24_4_le(&self) -> (r: ([u8; 4], bool))
        ensures
            r.0@ == int_bytes(SampleFormat::S24LE4, f64_to_int(self.bits, 31).0),
            r.1 == f64_to_int(self.bits, 31).1,
    {
        let (v, clipped) = f64_scaled(self.bits, 31);
        let out: [u8; 4] = { let t = int_bytes3(v); [t[0], t[1], t[2], 0] };
        proof {
            assert(out@ =~= int_bytes(SampleFormat::S24LE4, v as int));
        }
        (out, clipped)
    }

    /// Encodes the sample as S24BE4, and tells whether it was clipped.
    pub fn to_s24_4_be(&self) -> (r: ([u8; 4], bool))
        ensures
            r.0@ == int_bytes(SampleFormat::S24BE4, f64_to_int(self.bits, 31).0),
            r.1 == f64_to_int(self.bits, 31).1,
    {
        let (v, clipped) = f64_scaled(self.bits, 31);
        let out: [u8; 4] = { let t = int_bytes3(v); [0, t[2], t[1], t[0]] };
        proof {
            assert(out@ =~= int_bytes(SampleFormat::S24BE4, v as int));
        }
        (out, clipped)
    }

    /// Encodes the sample as S32LE, and tells whether it was clipped.
    pub fn to_s32_le(&self) -> (r: ([u8; 4], bool))
        ensures
            r.0@ == int_bytes(SampleFormat::S32LE, f64_to_int(self.bits, 31).0),
            r.1 == f64_to_int(self.bits, 31).1,
    {
        let (v, clipped) = f64_scaled(self.bits, 31);
        let out: [u8; 4] = int_bytes4(v);
        proof {
            assert(out@ =~= int_bytes(SampleFormat::S32LE, v as int));
        }
        (out, clipped)
    }

    /// Encodes the sample as S32BE, and tells whether it was clipped.
    pub fn to_s32_be(&self) -> (r: ([u8; 4], bool))
        ensures
            r.0@ == int_bytes(SampleFormat::S32BE, f64_to_int(self.bits, 31).0),
            r.1 == f64_to_int(self.bits, 31).1,
    {
        let (v, clipped) = f64_scaled(self.bits, 31);
        let out: [u8; 4] = reversed4(int_bytes4(v));
        proof {
            assert(out@ =~= int_bytes(SampleFormat::S32BE, v as int));
        }
        (out, clipped)
    }

    /// Decodes a S16LE sample.
    pub fn from_s16_le(bytes: [u8; 2]) -> (r: Self)
        ensures
            f64_from_int_bytes(SampleFormat::S16LE, bytes@, r.bits),
    {
        proof {
            
        }
        let num = signed(le_value2(bytes), 16);
        F64 { bits: int_to_f64(num, 15) }
    }

    /// Decodes a S16BE sample.
    pub fn from_s16_be(bytes: [u8; 2]) -> (r: Self)
        ensures
            f64_from_int_bytes(SampleFormat::S16BE, bytes@, r.bits),
    {
        proof {
            
        }
        let num = signed(le_value2(reversed2(bytes)), 16);
        F64 { bits: int_to_f64(num, 15) }
    }

    /// Decodes a S24LE3 sample.
    pub fn from_s24_3_le(bytes: [u8; 3]) -> (r: Self)
        ensures
            f64_from_int_bytes(SampleFormat::S24LE3, bytes@, r.bits),
    {
        proof {
            
        }
        let num = signed(le_value3(bytes), 24);
        F64 { bits: int_to_f64(num, 23) }
    }

    /// Decodes a S24BE3 sample.
    pub fn from_s24_3_be(bytes: [u8; 3]) -> (r: Self)
        ensures
            f64_from_int_bytes(SampleFormat::S24BE3, bytes@, r.bits),
    {
        proof {
            
        }
        let num = signed(le_value3(reversed3(bytes)), 24);
        F64 { bits: int_to_f64(num, 23) }
    }

    /// Decodes a S24LE4 sample.
    pub fn from_s24_4_le(bytes: [u8; 4]) -> (r: Self)
        ensures
            f64_from_int_bytes(SampleFormat::S24LE4, bytes@, r.bits),
    {
        proof {
            assert(seq![bytes[0], bytes[1], bytes[2]] =~= bytes@.subrange(0, 3));
        }
        let num = signed(le_value3([bytes[0], bytes[1], bytes[2]]), 24);
        F64 { bits: int_to_f64(num, 23) }
    }

    /// Decodes a S24BE4 sample.
    pub fn from_s24_4_be(bytes: [u8; 4]) -> (r: Self)
        ensures
            f64_from_int_bytes(SampleFormat::S24BE4, bytes@, r.bits),
    {
        proof {
            assert(seq![bytes[3], bytes[2], bytes[1]] =~= bytes@.subrange(1, 4).reverse());
        }
        let num = signed(le_value3([bytes[3], bytes[2], bytes[1]]), 24);
        F64 { bits: int_to_f64(num, 23) }
    }

    /// Decodes a S32LE sample.
    pub fn from_s32_le(bytes: [u8; 4]) -> (r: Self)
        ensures
            f64_from_int_bytes(SampleFormat::S32LE, bytes@, r.bits),
    {
        proof {
            
        }
        let num = signed(le_value4(bytes), 32);
        F64 { bits: int_to_f64(num, 31) }
    }

    /// Decodes a S32BE sample.
    pub fn from_s32_be(bytes: [u8; 4]) -> (r: Self)
        ensures
            f64_from_int_bytes(SampleFormat::S32BE, bytes@, r.bits),
    {
        proof {
            
        }
        let num = signed(le_value4(reversed4(bytes)), 32);
        F64 { bits: int_to_f64(num, 31) }
    }

}

impl F32 {
    /// Encodes the sample as S16LE, and tells whether it was clipped.
    pub fn to_s16_le(&self) -> (r: ([u8; 2], bool))
        ensures
            r.0@ == int_bytes(SampleFormat::S16LE, f32_to_int(self.bits, 15).0),
            r.1 == f32_to_int(self.bits, 15).1,
    {
        let (v, clipped) = f32_scaled(self.bits, 15);
        let out: [u8; 2] = int_bytes2(v);
        proof {
            assert(out@ =~= int_bytes(SampleFormat::S16LE, v as int));
        }
        (out, clipped)
    }

    /// Encodes the sample as S16BE, and tells whether it was clipped.
    pub fn to_s16_be(&self) -> (r: ([u8; 2], bool))
        ensures
            r.0@ == int_bytes(SampleFormat::S16BE, f32_to_int(self.bits, 15).0),
            r.1 == f32_to_int(self.bits, 15).1,
    {
        let (v, clipped) = f32_scaled(self.bits, 15);
        let out: [u8; 2] = reversed2(int_bytes2(v));
        proof {
            assert(out@ =~= int_bytes(SampleFormat::S16BE, v as int));
        }
        (out, clipped)
    }

    /// Encodes the sample as S24LE3, and tells whether it was clipped.
    pub fn to_s24_3_le(&self) -> (r: ([u8; 3], bool))
        ensures
            r.0@ == int_bytes(SampleFormat::S24LE3, f32_to_int(self.bits, 31).0),
            r.1 == f32_to_int(self.bits, 31).1,
    {
        let (v, clipped) = f32_scaled(self.bits, 31);
        let out: [u8; 3] = int_bytes3(v);
        proof {
            assert(out@ =~= int_bytes(SampleFormat::S24LE3, v as int));
        }
        (out, clipped)
    }

    /// Encodes the sample as S24BE3, and tells whether it was clipped.
    pub fn to_s24_3_be(&self) -> (r: ([u8; 3], bool))
        ensures
            r.0@ == int_bytes(SampleFormat::S24BE3, f32_to_int(self.bits, 31).0),
            r.1 == f32_to_int(self.bits, 31).1,
    {
        let (v, clipped) = f32_scaled(self.bits, 31);
        let out: [u8; 3] = reversed3(int_bytes3(v));
        proof {
            assert(out@ =~= int_bytes(SampleFormat::S24BE3, v as int));
        }
        (out, clipped)
    }

    /// Encodes the sample as S24LE4, and tells whether it was clipped.
    pub fn to_s24_4_le(&self) -> (r: ([u8; 4], bool))
        ensures
            r.0@ == int_bytes(SampleFormat::S24LE4, f32_to_int(self.bits, 31).0),
            r.1 == f32_to_int(self.bits, 31).1,
    {
        let (v, clipped) = f32_scaled(self.bits, 31);
        let out: [u8; 4] = { let t = int_bytes3(v); [t[0], t[1], t[2], 0] };
        proof {
            assert(out@ =~= int_bytes(SampleFormat::S24LE4, v as int));
        }
        (out, clipped)
    }

    /// Encodes the sample as S24BE4, and tells whether it was clipped.
    pub fn to_s24_4_be(&self) -> (r: ([u8; 4], bool))
        ensures
            r.0@ == int_bytes(SampleFormat::S24BE4, f32_to_int(self.bits, 31).0),
            r.1 == f32_to_int(self.bits, 31).1,
    {
        let (v, clipped) = f32_scaled(self.bits, 31);
        let out: [u8; 4] = { let t = int_bytes3(v); [0, t[2], t[1], t[0]] };
        proof {
            assert(out@ =~= int_bytes(SampleFormat::S24BE4, v as int));
        }
        (out, clipped)
    }

    /// Encodes the sample as S32LE, and tells whether it was clipped.
    pub fn to_s32_le(&self) -> (r: ([u8; 4], bool))
        ensures
            r.0@ == int_bytes(SampleFormat::S32LE, f32_to_int(self.bits, 31).0),
            r.1 == f32_to_int(self.bits, 31).1,
    {
        let (v, clipped) = f32_scaled(self.bits, 31);
        let out: [u8; 4] = int_bytes4(v);
        proof {
            assert(out@ =~= int_bytes(SampleFormat::S32LE, v as int));
        }
        (out, clipped)
    }

    /// Encodes the sample as S32BE, and tells whether it was clipped.
    pub fn to_s32_be(&self) -> (r: ([u8; 4], bool))
        ensures
            r.0@ == int_bytes(SampleFormat::S32BE, f32_to_int(self.bits, 31).0),
            r.1 == f32_to_int(self.bits, 31).1,
    {
        let (v, clipped) = f32_scaled(self.bits, 31);
        let out: [u8; 4] = reversed4(int_bytes4(v));
        proof {
            assert(out@ =~= int_bytes(SampleFormat::S32BE, v as int));
        }
        (out, clipped)
    }

    /// Decodes a S16LE sample.
    pub fn from_s16_le(bytes: [u8; 2]) -> (r: Self)
        ensures
            f32_from_int_bytes(SampleFormat::S16LE, bytes@, r.bits),
    {
        proof {
            
        }
        let num = signed(le_value2(bytes), 16);
        F32 { bits: int_to_f32(num, 15) }
    }

    /// Decodes a S16BE sample.
    pub fn from_s16_be(bytes: [u8; 2]) -> (r: Self)
        ensures
            f32_from_int_bytes(SampleFormat::S16BE, bytes@, r.bits),
    {
        proof {
            
        }
        let num = signed(le_value2(reversed2(bytes)), 16);
        F32 { bits: int_to_f32(num, 15) }
    }

    /// Decodes a S24LE3 sample.
    pub fn from_s24_3_le(bytes: [u8; 3]) -> (r: Self)
        ensures
            f32_from_int_bytes(SampleFormat::S24LE3, bytes@, r.bits),
    {
        proof {
            
        }
        let num = signed(le_value3(bytes), 24);
        F32 { bits: int_to_f32(num, 23) }
    }

    /// Decodes a S24BE3 sample.
    pub fn from_s24_3_be(bytes: [u8; 3]) -> (r: Self)
        ensures
            f32_from_int_bytes(SampleFormat::S24BE3, bytes@, r.bits),
    {
        proof {
            
        }
        let num = signed(le_value3(reversed3(bytes)), 24);
        F32 { bits: int_to_f32(num, 23) }
    }

    /// Decodes a S24LE4 sample.
    pub fn from_s24_4_le(bytes: [u8; 4]) -> (r: Self)
        ensures
            f32_from_int_bytes(SampleFormat::S24LE4, bytes@, r.bits),
    {
        proof {
            assert(seq![bytes[0], bytes[1], bytes[2]] =~= bytes@.subrange(0, 3));
        }
        let num = signed(le_value3([bytes[0], bytes[1], bytes[2]]), 24);
        F32 { bits: int_to_f32(num, 23) }
    }

    /// Decodes a S24BE4 sample.
    pub fn from_s24_4_be(bytes: [u8; 4]) -> (r: Self)
        ensures
            f32_from_int_bytes(SampleFormat::S24BE4, bytes@, r.bits),
    {
        proof {
            assert(seq![bytes[3], bytes[2], bytes[1]] =~= bytes@.subrange(1, 4).reverse());
        }
        let num = signed(le_value3([bytes[3], bytes[2], bytes[1]]), 24);
        F32 { bits: int_to_f32(num, 23) }
    }

}



impl F64 {
    /// Encodes the sample as F64LE, clamped to `[-1.0, 1.0]`, and tells
    /// whether it was clipped.
    pub fn to_f64_le(&self) -> (r: ([u8; 8], bool))
        ensures
            r.0@ == le_bytes(f64_clamped(self.bits).0 as nat, 8),
            r.1 == f64_clamped(self.bits).1,
    {
        let (c, clipped) = clamp_f64(self.bits);
        (le_bytes8(c), clipped)
    }

    /// Encodes the sample as F64BE, clamped to `[-1.0, 1.0]`, and tells
    /// whether it was clipped.
    pub fn to_f64_be(&self) -> (r: ([u8; 8], bool))
        ensures
            r.0@ == le_bytes(f64_clamped(self.bits).0 as nat, 8).reverse(),
            r.1 == f64_clamped(self.bits).1,
    {
        let (c, clipped) = clamp_f64(self.bits);
        (reversed8(le_bytes8(c)), clipped)
    }

    /// Encodes the sample as F32LE: narrowed to binary32, then clamped to
    /// `[-1.0, 1.0]`; tells whether it was clipped.
    pub fn to_f32_le(&self) -> (r: ([u8; 4], bool))
        ensures
            r.0@ == le_bytes(f32_clamped(f32_narrowed(self.bits)).0 as nat, 4),
            r.1 == f32_clamped(f32_narrowed(self.bits)).1,
    {
        let (c, clipped) = clamp_f32(narrow(self.bits));
        (le_bytes4(c), clipped)
    }

    /// Encodes the sample as F32BE: narrowed to binary32, then clamped to
    /// `[-1.0, 1.0]`; tells whether it was clipped.
    pub fn to_f32_be(&self) -> (r: ([u8; 4], bool))
        ensures
            r.0@ == le_bytes(f32_clamped(f32_narrowed(self.bits)).0 as nat, 4).reverse(),
            r.1 == f32_clamped(f32_narrowed(self.bits)).1,
    {
        let (c, clipped) = clamp_f32(narrow(self.bits));
        (reversed4(le_bytes4(c)), clipped)
    }

    /// Decodes an F64LE sample, as it is: no clamping.
    pub fn from_f64_le(bytes: [u8; 8]) -> (r: Self)
        ensures
            r.bits == le_value(bytes@),
    {
        F64 { bits: le_value8(bytes) }
    }

    /// Decodes an F64BE sample, as it is: no clamping.
    pub fn from_f64_be(bytes: [u8; 8]) -> (r: Self)
        ensures
            r.bits == be_value(bytes@),
    {
        F64 { bits: le_value8(reversed8(bytes)) }
    }

    /// Decodes an F32LE sample, widened without loss.
    pub fn from_f32_le(bytes: [u8; 4]) -> (r: Self)
        ensures
            r.bits == f64_widened(le_value(bytes@) as u32),
    {
        F64 { bits: widen(le_value4(bytes)) }
    }

    /// Decodes an F32BE sample, widened without loss.
    pub fn from_f32_be(bytes: [u8; 4]) -> (r: Self)
        ensures
            r.bits == f64_widened(be_value(bytes@) as u32),
    {
        F64 { bits: widen(le_value4(reversed4(bytes))) }
    }
}

impl F32 {
    /// Encodes the sample as F32LE, clamped to `[-1.0, 1.0]`, and tells
    /// whether it was clipped.
    pub fn to_f32_le(&self) -> (r: ([u8; 4], bool))
        ensures
            r.0@ == le_bytes(f32_clamped(self.bits).0 as nat, 4),
            r.1 == f32_clamped(self.bits).1,
    {
        let (c, clipped) = clamp_f32(self.bits);
        (le_bytes4(c), clipped)
    }

    /// Encodes the sample as F32BE, clamped to `[-1.0, 1.0]`, and tells
    /// whether it was clipped.
    pub fn to_f32_be(&self) -> (r: ([u8; 4], bool))
        ensures
            r.0@ == le_bytes(f32_clamped(self.bits).0 as nat, 4).reverse(),
            r.1 == f32_clamped(self.bits).1,
    {
        let (c, clipped) = clamp_f32(self.bits);
        (reversed4(le_bytes4(c)), clipped)
    }

    /// Encodes the sample as F64LE: widened, then clamped to `[-1.0, 1.0]`;
    /// tells whether it was clipped.
    pub fn to_f64_le(&self) -> (r: ([u8; 8], bool))
        ensures
            r.0@ == le_bytes(f64_clamped(f64_widened(self.bits)).0 as nat, 8),
            r.1 == f64_clamped(f64_widened(self.bits)).1,
    {
        let w = widen(self.bits);
        let (c, clipped) = clamp_f64(w);
        (le_bytes8(c), clipped)
    }

    /// Encodes the sample as F64BE: widened, then clamped to `[-1.0, 1.0]`;
    /// tells whether it was clipped.
    pub fn to_f64_be(&self) -> (r: ([u8; 8], bool))
        ensures
            r.0@ == le_bytes(f64_clamped(f64_widened(self.bits)).0 as nat, 8).reverse(),
            r.1 == f64_clamped(f64_widened(self.bits)).1,
    {
        let w = widen(self.bits);
        let (c, clipped) = clamp_f64(w);
        (reversed8(le_bytes8(c)), clipped)
    }

    /// Decodes an F32LE sample, as it is: no clamping.
    pub fn from_f32_le(bytes: [u8; 4]) -> (r: Self)
        ensures
            r.bits == le_value(bytes@),
    {
        F32 { bits: le_value4(bytes) }
    }

    /// Decodes an F32BE sample, as it is: no clamping.
    pub fn from_f32_be(bytes: [u8; 4]) -> (r: Self)
        ensures
            r.bits == be_value(bytes@),
    {
        F32 { bits: le_value4(reversed4(bytes)) }
    }

    /// Decodes an F64LE sample, rounded to binary32.
    pub fn from_f64_le(bytes: [u8; 8]) -> (r: Self)
        ensures
            r.bits == f32_narrowed(le_value(bytes@) as u64),
    {
        F32 { bits: narrow(le_value8(bytes)) }
    }

    /// Decodes an F64BE sample, rounded to binary32.
    pub fn from_f64_be(bytes: [u8; 8]) -> (r: Self)
        ensures
            r.bits == f32_narrowed(be_value(bytes@) as u64),
    {
        F32 { bits: narrow(le_value8(reversed8(bytes))) }
    }

    /// Decodes an S32LE sample, rounded to binary32.
    pub fn from_s32_le(bytes: [u8; 4]) -> (r: Self)
        ensures
            r.bits == f32_round(
                int_value(SampleFormat::S32LE, bytes@) < 0,
                abs(int_value(SampleFormat::S32LE, bytes@)),
                -31,
            ),
    {
        let num = signed(le_value4(bytes), 32);
        let a: u64 = if num < 0 { (-num) as u64 } else { num as u64 };
        F32 { bits: round_to_f32(num < 0, a, -31) }
    }

    /// Decodes an S32BE sample, rounded to binary32.
    pub fn from_s32_be(bytes: [u8; 4]) -> (r: Self)
        ensures
            r.bits == f32_round(
                int_value(SampleFormat::S32BE, bytes@) < 0,
                abs(int_value(SampleFormat::S32BE, bytes@)),
                -31,
            ),
    {
        let num = signed(le_value4(reversed4(bytes)), 32);
        let a: u64 = if num < 0 { (-num) as u64 } else { num as u64 };
        F32 { bits: round_to_f32(num < 0, a, -31) }
    }
}

} // verus!

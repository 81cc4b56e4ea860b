//! The sample capability: encoding into and decoding from any raw format,
//! and the bulk conversions built on it.

use vstd::prelude::*;
use crate::bytes::{le_bytes, le_value, be_value};
use crate::float::{f64_clamped, f32_clamped, f32_narrowed, f64_widened, f32_round};
use crate::format::{
    SampleFormat, format_width, encode_scale, int_bytes, int_value,
};
use crate::sample::{F32, F64, abs, f64_to_int, f32_to_int, f64_from_int_bytes, f32_from_int_bytes};

verus! {

/// The bytes, and whether clamping changed the value, that encoding the
/// binary64 sample `b` in `format` gives.
pub open spec fn f64_encoded(b: u64, format: SampleFormat) -> (Seq<u8>, bool) {
    match format {
        SampleFormat::F64LE => (le_bytes(f64_clamped(b).0 as nat, 8), f64_clamped(b).1),
        SampleFormat::F64BE => (le_bytes(f64_clamped(b).0 as nat, 8).reverse(), f64_clamped(b).1),
        SampleFormat::F32LE => (
            le_bytes(f32_clamped(f32_narrowed(b)).0 as nat, 4),
            f32_clamped(f32_narrowed(b)).1,
        ),
        SampleFormat::F32BE => (
            le_bytes(f32_clamped(f32_narrowed(b)).0 as nat, 4).reverse(),
            f32_clamped(f32_narrowed(b)).1,
        ),
        _ => (
            int_bytes(format, f64_to_int(b, encode_scale(format)).0),
            f64_to_int(b, encode_scale(format)).1,
        ),
    }
}

/// As `f64_encoded`, for the binary32 sample `b`.
pub open spec fn f32_encoded(b: u32, format: SampleFormat) -> (Seq<u8>, bool) {
    match format {
        SampleFormat::F32LE => (le_bytes(f32_clamped(b).0 as nat, 4), f32_clamped(b).1),
        SampleFormat::F32BE => (le_bytes(f32_clamped(b).0 as nat, 4).reverse(), f32_clamped(b).1),
        SampleFormat::F64LE => (
            le_bytes(f64_clamped(f64_widened(b)).0 as nat, 8),
            f64_clamped(f64_widened(b)).1,
        ),
        SampleFormat::F64BE => (
            le_bytes(f64_clamped(f64_widened(b)).0 as nat, 8).reverse(),
            f64_clamped(f64_widened(b)).1,
        ),
        _ => (
            int_bytes(format, f32_to_int(b, encode_scale(format)).0),
            f32_to_int(b, encode_scale(format)).1,
        ),
    }
}

/// `b` is the binary64 sample that the bytes `raw` of `format` hold.
pub open spec fn f64_decodes(format: SampleFormat, raw: Seq<u8>, b: u64) -> bool {
    match format {
        SampleFormat::F64LE => b == le_value(raw),
        SampleFormat::F64BE => b == be_value(raw),
        SampleFormat::F32LE => b == f64_widened(le_value(raw) as u32),
        SampleFormat::F32BE => b == f64_widened(be_value(raw) as u32),
        _ => f64_from_int_bytes(format, raw, b),
    }
}

/// `b` is the binary32 sample that the bytes `raw` of `format` hold.
pub open spec fn f32_decodes(format: SampleFormat, raw: Seq<u8>, b: u32) -> bool {
    match format {
        SampleFormat::F32LE => b == le_value(raw),
        SampleFormat::F32BE => b == be_value(raw),
        SampleFormat::F64LE => b == f32_narrowed(le_value(raw) as u64),
        SampleFormat::F64BE => b == f32_narrowed(be_value(raw) as u64),
        SampleFormat::S32LE | SampleFormat::S32BE => b == f32_round(
            int_value(format, raw) < 0,
            abs(int_value(format, raw)),
            -31,
        ),
        _ => f32_from_int_bytes(format, raw, b),
    }
}

/// A copy of `b` in a vector.
fn bytes_vec(b: &[u8]) -> (r: Vec<u8>)
    ensures
        r@ == b@,
{
    let mut r: Vec<u8> = Vec::new();
    let mut i: usize = 0;
    while i < b.len()
        invariant
            i <= b@.len(),
            r@ == b@.subrange(0, i as int),
        decreases b@.len() - i,
    {
        r.push(b[i]);
        i = i + 1;
        assert(r@ =~= b@.subrange(0, i as int));
    }
    assert(b@.subrange(0, b@.len() as int) =~= b@);
    r
}

/// A normalized floating-point sample that can be encoded in, and decoded
/// from, every raw format.
pub trait Sample: Sized + Copy {
    /// The bytes, and whether clamping changed the value, that encoding `s`
    /// in `format` gives.
    spec fn spec_encoded(s: Self, format: SampleFormat) -> (Seq<u8>, bool);

    /// `s` is what decoding the bytes `raw` of `format` gives.
    spec fn spec_decodes(format: SampleFormat, raw: Seq<u8>, s: Self) -> bool;

    /// Encodes the sample in `format`, and tells whether it was clipped.
    fn encode(&self, format: SampleFormat) -> (r: (Vec<u8>, bool))
        ensures
            (r.0@, r.1) == Self::spec_encoded(*self, format),
            r.0@.len() == format_width(format),
    ;

    /// Decodes the sample that `raw` holds at `at` in `format`.
    fn decode(raw: &[u8], at: usize, format: SampleFormat) -> (r: Self)
        requires
            at + format_width(format) <= raw@.len(),
        ensures
            Self::spec_decodes(format, raw@.subrange(at as int, at + format_width(format)), r),
    ;
}

impl Sample for F64 {
    open spec fn spec_encoded(s: Self, format: SampleFormat) -> (Seq<u8>, bool) {
        f64_encoded(s.bits, format)
    }

    open spec fn spec_decodes(format: SampleFormat, raw: Seq<u8>, s: Self) -> bool {
        f64_decodes(format, raw, s.bits)
    }

    fn encode(&self, format: SampleFormat) -> (Vec<u8>, bool) {
        proof {
            reveal_with_fuel(le_bytes, 9);
        }
        match format {
            SampleFormat::S16LE => {
                let (b, c) = self.to_s16_le();
                (bytes_vec(&b), c)
            },
            SampleFormat::S16BE => {
                let (b, c) = self.to_s16_be();
                (bytes_vec(&b), c)
            },
            SampleFormat::S24LE3 => {
                let (b, c) = self.to_s24_3_le();
                (bytes_vec(&b), c)
            },
            SampleFormat::S24BE3 => {
                let (b, c) = self.to_s24_3_be();
                (bytes_vec(&b), c)
            },
            SampleFormat::S24LE4 => {
                let (b, c) = self.to_s24_4_le();
                (bytes_vec(&b), c)
            },
            SampleFormat::S24BE4 => {
                let (b, c) = self.to_s24_4_be();
                (bytes_vec(&b), c)
            },
            SampleFormat::S32LE => {
                let (b, c) = self.to_s32_le();
                (bytes_vec(&b), c)
            },
            SampleFormat::S32BE => {
                let (b, c) = self.to_s32_be();
                (bytes_vec(&b), c)
            },
            SampleFormat::F32LE => {
                let (b, c) = self.to_f32_le();
                (bytes_vec(&b), c)
            },
            SampleFormat::F32BE => {
                let (b, c) = self.to_f32_be();
                (bytes_vec(&b), c)
            },
            SampleFormat::F64LE => {
                let (b, c) = self.to_f64_le();
                (bytes_vec(&b), c)
            },
            SampleFormat::F64BE => {
                let (b, c) = self.to_f64_be();
                (bytes_vec(&b), c)
            },
        }
    }

    fn decode(raw: &[u8], at: usize, format: SampleFormat) -> Self {
        match format {
            SampleFormat::S16LE => {
                let b: [u8; 2] = [raw[at], raw[at + 1]];
                assert(b@ =~= raw@.subrange(at as int, at + 2));
                F64::from_s16_le(b)
            },
            SampleFormat::S16BE => {
                let b: [u8; 2] = [raw[at], raw[at + 1]];
                assert(b@ =~= raw@.subrange(at as int, at + 2));
                F64::from_s16_be(b)
            },
            SampleFormat::S24LE3 => {
                let b: [u8; 3] = [raw[at], raw[at + 1], raw[at + 2]];
                assert(b@ =~= raw@.subrange(at as int, at + 3));
                F64::from_s24_3_le(b)
            },
            SampleFormat::S24BE3 => {
                let b: [u8; 3] = [raw[at], raw[at + 1], raw[at + 2]];
                assert(b@ =~= raw@.subrange(at as int, at + 3));
                F64::from_s24_3_be(b)
            },
            SampleFormat::S24LE4 => {
                let b: [u8; 4] = [raw[at], raw[at + 1], raw[at + 2], raw[at + 3]];
                assert(b@ =~= raw@.subrange(at as int, at + 4));
                F64::from_s24_4_le(b)
            },
            SampleFormat::S24BE4 => {
                let b: [u8; 4] = [raw[at], raw[at + 1], raw[at + 2], raw[at + 3]];
                assert(b@ =~= raw@.subrange(at as int, at + 4));
                F64::from_s24_4_be(b)
            },
            SampleFormat::S32LE => {
                let b: [u8; 4] = [raw[at], raw[at + 1], raw[at + 2], raw[at + 3]];
                assert(b@ =~= raw@.subrange(at as int, at + 4));
                F64::from_s32_le(b)
            },
            SampleFormat::S32BE => {
                let b: [u8; 4] = [raw[at], raw[at + 1], raw[at + 2], raw[at + 3]];
                assert(b@ =~= raw@.subrange(at as int, at + 4));
                F64::from_s32_be(b)
            },
            SampleFormat::F32LE => {
                let b: [u8; 4] = [raw[at], raw[at + 1], raw[at + 2], raw[at + 3]];
                assert(b@ =~= raw@.subrange(at as int, at + 4));
                F64::from_f32_le(b)
            },
            SampleFormat::F32BE => {
                let b: [u8; 4] = [raw[at], raw[at + 1], raw[at + 2], raw[at + 3]];
                assert(b@ =~= raw@.subrange(at as int, at + 4));
                F64::from_f32_be(b)
            },
            SampleFormat::F64LE => {
                let b: [u8; 8] = [raw[at], raw[at + 1], raw[at + 2], raw[at + 3], raw[at + 4], raw[at + 5], raw[at + 6], raw[at + 7]];
                assert(b@ =~= raw@.subrange(at as int, at + 8));
                F64::from_f64_le(b)
            },
            SampleFormat::F64BE => {
                let b: [u8; 8] = [raw[at], raw[at + 1], raw[at + 2], raw[at + 3], raw[at + 4], raw[at + 5], raw[at + 6], raw[at + 7]];
                assert(b@ =~= raw@.subrange(at as int, at + 8));
                F64::from_f64_be(b)
            },
        }
    }
}

impl Sample for F32 {
    open spec fn spec_encoded(s: Self, format: SampleFormat) -> (Seq<u8>, bool) {
        f32_encoded(s.bits, format)
    }

    open spec fn spec_decodes(format: SampleFormat, raw: Seq<u8>, s: Self) -> bool {
        f32_decodes(format, raw, s.bits)
    }

    fn encode(&self, format: SampleFormat) -> (Vec<u8>, bool) {
        proof {
            reveal_with_fuel(le_bytes, 9);
        }
        match format {
            SampleFormat::S16LE => {
                let (b, c) = self.to_s16_le();
                (bytes_vec(&b), c)
            },
            SampleFormat::S16BE => {
                let (b, c) = self.to_s16_be();
                (bytes_vec(&b), c)
            },
            SampleFormat::S24LE3 => {
                let (b, c) = self.to_s24_3_le();
                (bytes_vec(&b), c)
            },
            SampleFormat::S24BE3 => {
                let (b, c) = self.to_s24_3_be();
                (bytes_vec(&b), c)
            },
            SampleFormat::S24LE4 => {
                let (b, c) = self.to_s24_4_le();
                (bytes_vec(&b), c)
            },
            SampleFormat::S24BE4 => {
                let (b, c) = self.to_s24_4_be();
                (bytes_vec(&b), c)
            },
            SampleFormat::S32LE => {
                let (b, c) = self.to_s32_le();
                (bytes_vec(&b), c)
            },
            SampleFormat::S32BE => {
                let (b, c) = self.to_s32_be();
                (bytes_vec(&b), c)
            },
            SampleFormat::F32LE => {
                let (b, c) = self.to_f32_le();
                (bytes_vec(&b), c)
            },
            SampleFormat::F32BE => {
                let (b, c) = self.to_f32_be();
                (bytes_vec(&b), c)
            },
            SampleFormat::F64LE => {
                let (b, c) = self.to_f64_le();
                (bytes_vec(&b), c)
            },
            SampleFormat::F64BE => {
                let (b, c) = self.to_f64_be();
                (bytes_vec(&b), c)
            },
        }
    }

    fn decode(raw: &[u8], at: usize, format: SampleFormat) -> Self {
        match format {
            SampleFormat::S16LE => {
                let b: [u8; 2] = [raw[at], raw[at + 1]];
                assert(b@ =~= raw@.subrange(at as int, at + 2));
                F32::from_s16_le(b)
            },
            SampleFormat::S16BE => {
                let b: [u8; 2] = [raw[at], raw[at + 1]];
                assert(b@ =~= raw@.subrange(at as int, at + 2));
                F32::from_s16_be(b)
            },
            SampleFormat::S24LE3 => {
                let b: [u8; 3] = [raw[at], raw[at + 1], raw[at + 2]];
                assert(b@ =~= raw@.subrange(at as int, at + 3));
                F32::from_s24_3_le(b)
            },
            SampleFormat::S24BE3 => {
                let b: [u8; 3] = [raw[at], raw[at + 1], raw[at + 2]];
                assert(b@ =~= raw@.subrange(at as int, at + 3));
                F32::from_s24_3_be(b)
            },
            SampleFormat::S24LE4 => {
                let b: [u8; 4] = [raw[at], raw[at + 1], raw[at + 2], raw[at + 3]];
                assert(b@ =~= raw@.subrange(at as int, at + 4));
                F32::from_s24_4_le(b)
            },
            SampleFormat::S24BE4 => {
                let b: [u8; 4] = [raw[at], raw[at + 1], raw[at + 2], raw[at + 3]];
                assert(b@ =~= raw@.subrange(at as int, at + 4));
                F32::from_s24_4_be(b)
            },
            SampleFormat::S32LE => {
                let b: [u8; 4] = [raw[at], raw[at + 1], raw[at + 2], raw[at + 3]];
                assert(b@ =~= raw@.subrange(at as int, at + 4));
                F32::from_s32_le(b)
            },
            SampleFormat::S32BE => {
                let b: [u8; 4] = [raw[at], raw[at + 1], raw[at + 2], raw[at + 3]];
                assert(b@ =~= raw@.subrange(at as int, at + 4));
                F32::from_s32_be(b)
            },
            SampleFormat::F32LE => {
                let b: [u8; 4] = [raw[at], raw[at + 1], raw[at + 2], raw[at + 3]];
                assert(b@ =~= raw@.subrange(at as int, at + 4));
                F32::from_f32_le(b)
            },
            SampleFormat::F32BE => {
                let b: [u8; 4] = [raw[at], raw[at + 1], raw[at + 2], raw[at + 3]];
                assert(b@ =~= raw@.subrange(at as int, at + 4));
                F32::from_f32_be(b)
            },
            SampleFormat::F64LE => {
                let b: [u8; 8] = [raw[at], raw[at + 1], raw[at + 2], raw[at + 3], raw[at + 4], raw[at + 5], raw[at + 6], raw[at + 7]];
                assert(b@ =~= raw@.subrange(at as int, at + 8));
                F32::from_f64_le(b)
            },
            SampleFormat::F64BE => {
                let b: [u8; 8] = [raw[at], raw[at + 1], raw[at + 2], raw[at + 3], raw[at + 4], raw[at + 5], raw[at + 6], raw[at + 7]];
                assert(b@ =~= raw@.subrange(at as int, at + 8));
                F32::from_f64_be(b)
            },
        }
    }
}


/// The bytes of `values`, each encoded in `format`, one after another.
pub open spec fn encoded_all<S: Sample>(values: Seq<S>, format: SampleFormat) -> Seq<u8>
    decreases values.len(),
{
    if values.len() == 0 {
        seq![]
    } else {
        encoded_all(values.drop_last(), format) + S::spec_encoded(values.last(), format).0
    }
}

/// How many of `values` are clipped when encoded in `format`.
pub open spec fn clipped_count<S: Sample>(values: Seq<S>, format: SampleFormat) -> nat
    decreases values.len(),
{
    if values.len() == 0 {
        0
    } else {
        clipped_count(values.drop_last(), format) + if S::spec_encoded(values.last(), format).1 {
            1nat
        } else {
            0nat
        }
    }
}

/// `i * w` is where the `i`-th sample of width `w` starts; a run of whole
/// samples that fits in `len` bytes is at most `len / w` long.
proof fn lemma_sample_offsets(i: int, w: int, len: int)
    requires
        0 <= i,
        1 <= w,
        0 <= len,
    ensures
        (i + 1) * w == i * w + w,
        i * w + w <= len ==> i + 1 <= len / w,
        i * w <= len < i * w + w ==> i == len / w,
{
    assert((i + 1) * w == i * w + w) by (nonlinear_arith);
    assert(i * w + w <= len ==> i + 1 <= len / w) by (nonlinear_arith)
        requires 0 <= i, 1 <= w, 0 <= len;
    assert(i * w <= len < i * w + w ==> i == len / w) by (nonlinear_arith)
        requires 0 <= i, 1 <= w, 0 <= len;
}

/// Encoding many samples at once.
pub trait SampleWriter: Sample {
    /// Encodes `values` in `format`, one after another, and returns the
    /// bytes and how many of the values were clipped.
    fn write_samples(values: &[Self], format: SampleFormat) -> (r: (Vec<u8>, usize))
        ensures
            r.0@ == encoded_all(values@, format),
            r.1 == clipped_count(values@, format),
    {
        let mut out: Vec<u8> = Vec::new();
        let mut clipped: usize = 0;
        let mut i: usize = 0;
        while i < values.len()
            invariant
                i <= values@.len(),
                clipped <= i,
                out@ == encoded_all(values@.subrange(0, i as int), format),
                clipped == clipped_count(values@.subrange(0, i as int), format),
            decreases values@.len() - i,
        {
            let (bytes, c) = values[i].encode(format);
            let ghost before = out@;
            let mut j: usize = 0;
            while j < bytes.len()
                invariant
                    j <= bytes@.len(),
                    out@ == before + bytes@.subrange(0, j as int),
                decreases bytes@.len() - j,
            {
                out.push(bytes[j]);
                j = j + 1;
                assert(out@ =~= before + bytes@.subrange(0, j as int));
            }
            assert(bytes@.subrange(0, bytes@.len() as int) =~= bytes@);
            if c {
                clipped = clipped + 1;
            }
            assert(values@.subrange(0, i + 1).drop_last() =~= values@.subrange(0, i as int));
            i = i + 1;
        }
        assert(values@.subrange(0, values@.len() as int) =~= values@);
        (out, clipped)
    }
}

/// Decoding many samples at once.
pub trait SampleReader: Sample {
    /// Decodes samples of `format` from the start of `raw` into `samples`,
    /// until `samples` is full or no whole sample is left, and returns how
    /// many were decoded. The rest of `samples` is left as it was.
    fn read_samples(raw: &[u8], samples: &mut [Self], format: SampleFormat) -> (n: usize)
        ensures
            n == if old(samples)@.len() < raw@.len() / format_width(format) {
                old(samples)@.len()
            } else {
                raw@.len() / format_width(format)
            },
            final(samples)@.len() == old(samples)@.len(),
            forall|i: int|
                0 <= i < n ==> Self::spec_decodes(
                    format,
                    raw@.subrange(i * format_width(format), i * format_width(format) + format_width(format)),
                    #[trigger] final(samples)@[i],
                ),
            forall|i: int| n <= i < old(samples)@.len() ==> #[trigger] final(samples)@[i] == old(samples)@[i],
    {
        let w = format.bytes_per_sample();
        let mut i: usize = 0;
        let mut at: usize = 0;
        while i < samples.len() && w <= raw.len() - at
            invariant
                w == format_width(format),
                i <= samples@.len(),
                samples@.len() == old(samples)@.len(),
                at == i * w,
                at <= raw@.len(),
                i <= raw@.len() / (w as nat),
                forall|k: int|
                    0 <= k < i ==> Self::spec_decodes(
                        format,
                        raw@.subrange(k * w, k * w + w),
                        #[trigger] samples@[k],
                    ),
                forall|k: int| i <= k < old(samples)@.len() ==> #[trigger] samples@[k] == old(samples)@[k],
            decreases samples@.len() - i,
        {
            proof {
                lemma_sample_offsets(i as int, w as int, raw@.len() as int);
            }
            let s = Self::decode(raw, at, format);
            samples[i] = s;
            i = i + 1;
            at = at + w;
        }
        proof {
            lemma_sample_offsets(i as int, w as int, raw@.len() as int);
        }
        i
    }

    /// Decodes every whole sample of `format` in `raw` and appends them to
    /// `samples`; returns how many were appended.
    fn read_all_samples(raw: &[u8], samples: &mut Vec<Self>, format: SampleFormat) -> (n: usize)
        ensures
            n == raw@.len() / format_width(format),
            final(samples)@.len() == old(samples)@.len() + n,
            forall|i: int| 0 <= i < old(samples)@.len() ==> #[trigger] final(samples)@[i] == old(samples)@[i],
            forall|i: int|
                0 <= i < n ==> Self::spec_decodes(
                    format,
                    raw@.subrange(i * format_width(format), i * format_width(format) + format_width(format)),
                    #[trigger] final(samples)@[old(samples)@.len() + i],
                ),
    {
        let w = format.bytes_per_sample();
        let start = samples.len();
        let mut i: usize = 0;
        let mut at: usize = 0;
        while w <= raw.len() - at
            invariant
                w == format_width(format),
                start == old(samples)@.len(),
                samples@.len() == start + i,
                at == i * w,
                at <= raw@.len(),
                i <= raw@.len() / (w as nat),
                forall|k: int| 0 <= k < start ==> #[trigger] samples@[k] == old(samples)@[k],
                forall|k: int|
                    0 <= k < i ==> Self::spec_decodes(
                        format,
                        raw@.subrange(k * w, k * w + w),
                        #[trigger] samples@[start + k],
                    ),
            decreases raw@.len() - at,
        {
            proof {
                lemma_sample_offsets(i as int, w as int, raw@.len() as int);
            }
            let s = Self::decode(raw, at, format);
            samples.push(s);
            i = i + 1;
            at = at + w;
        }
        proof {
            lemma_sample_offsets(i as int, w as int, raw@.len() as int);
        }
        i
    }
}

impl SampleWriter for F64 {}

impl SampleWriter for F32 {}

impl SampleReader for F64 {}

impl SampleReader for F32 {}

} // verus!

//! Properties that relate several operations of the library.

use vstd::prelude::*;
use vstd::arithmetic::power2::{pow2, lemma_pow2_adds, lemma_pow2_pos, lemma2_to64};
use vstd::arithmetic::div_mod::lemma_fundamental_div_mod_converse;
use crate::buffer::AudioBuffer;
use crate::bytes::{le_bytes, le_value, be_value, signed_of, unsigned_of};
use crate::direct::{SequentialSlice, InterleavedSlice, sequential_index};
use crate::float::{
    shifted, exceeds, same_value, at_least_one, f64_denotes, f64_neg, f64_mant, f64_exp,
    f64_is_nan, f64_is_inf, f64_clamped, f32_denotes, f32_neg, f32_mant, f32_exp, f32_is_nan,
    f32_is_inf, f32_clamped, f64_widened, f32_exp_field, f32_frac_field, lemma_compare_one,
    lemma_f64_pack, lemma_f32_pack, f32_narrowed, f32_pattern, f32_round, f32_rounded,
    f32_quantum, bit_length, lemma_bit_length, lemma_pow2_below, lemma_bit_length_is,
};
use crate::format::{SampleFormat, is_int_format, encode_scale, decode_scale, int_bytes, int_value};
use crate::sample::{abs, f64_to_int, f32_to_int};
use crate::codec::{f64_encoded, f64_decodes, f32_encoded, f32_decodes};

verus! {

/// Layout equivalence: a sequential and an interleaved flat buffer with the
/// same extents, whose storage holds the same samples each in its own order
/// (slot `k` of the interleaved one holds channel `k % channels` of frame
/// `k / channels`), give the same sample at every position.
pub proof fn lemma_layout_equivalence<'a, 'b, T: Copy>(
    seq: SequentialSlice<&'a [T]>,
    inter: InterleavedSlice<&'b [T]>,
)
    requires
        seq.valid(),
        inter.valid(),
        seq.spec_channels() == inter.spec_channels(),
        seq.spec_frames() == inter.spec_frames(),
        forall|k: int|
            0 <= k < seq.spec_channels() * seq.spec_frames() ==> #[trigger] inter.data()[k]
                == seq.data()[sequential_index(
                k % seq.spec_channels() as int,
                k / seq.spec_channels() as int,
                seq.spec_frames() as int,
            )],
    ensures
        forall|c: int, f: int|
            0 <= c < seq.spec_channels() && 0 <= f < seq.spec_frames() ==> #[trigger] seq.spec_sample(c, f)
                == inter.spec_sample(c, f),
{
    let ch = seq.spec_channels() as int;
    let fr = seq.spec_frames() as int;
    assert forall|c: int, f: int| 0 <= c < ch && 0 <= f < fr implies #[trigger] seq.spec_sample(c, f)
        == inter.spec_sample(c, f) by {
        let k = f * ch + c;
        lemma_fundamental_div_mod_converse(k, ch, f, c);
        crate::direct::lemma_row_major_in_bounds(f, c, fr, ch);
        vstd::arithmetic::mul::lemma_mul_is_commutative(fr, ch);
        assert(inter.data()[k] == seq.data()[sequential_index(c, f, fr)]);
    }
}

/// Reading back the `n` little-endian bytes of a number below `2^(8n)` gives
/// the number.
pub proof fn lemma_le_round_trip(u: nat, n: nat)
    requires
        u < pow2(8 * n),
    ensures
        le_value(le_bytes(u, n)) == u,
        le_bytes(u, n).len() == n,
    decreases n,
{
    lemma2_to64();
    if n == 0 {
        assert(le_bytes(u, n) =~= Seq::<u8>::empty());
    } else {
        let s = le_bytes(u, n);
        let m = (n - 1) as nat;
        assert(s.drop_first() =~= le_bytes(u / 256, m));
        lemma_pow2_adds(8, 8 * m);
        assert(8 * n == 8 + 8 * m);
        lemma_pow2_pos(8 * m);
        assert(u / 256 < pow2(8 * m)) by (nonlinear_arith)
            requires u < 256 * pow2(8 * m), pow2(8 * m) > 0;
        lemma_le_round_trip(u / 256, m);
        assert(s[0] as nat == u % 256);
    }
}

/// Reading back, most significant first, the `n` bytes of a number below
/// `2^(8n)` written least significant first and then reversed gives the number.
pub proof fn lemma_be_round_trip(u: nat, n: nat)
    requires
        u < pow2(8 * n),
    ensures
        be_value(le_bytes(u, n).reverse()) == u,
{
    assert(le_bytes(u, n).reverse().reverse() =~= le_bytes(u, n));
    lemma_le_round_trip(u, n);
}

/// Two's complement of a value in range, read back, is the value.
pub proof fn lemma_twos_complement(v: int, bits: nat)
    requires
        bits >= 1,
        -pow2((bits - 1) as nat) <= v < pow2((bits - 1) as nat),
    ensures
        unsigned_of(v, bits) < pow2(bits),
        signed_of(unsigned_of(v, bits), bits) == v,
{
    lemma_pow2_adds((bits - 1) as nat, 1);
    lemma2_to64();
    assert(pow2(bits) == 2 * pow2((bits - 1) as nat)) by {
        assert(((bits - 1) as nat) + 1 == bits);
    }
}


/// A value `a / 2^k0` scaled by `2^ks`, with `k0 <= ks`, is the whole number
/// `a * 2^(ks - k0)`: scaling rounds nothing away.
proof fn lemma_scale_exact(m: nat, e: int, a: nat, k0: nat, ks: nat, lim: nat)
    requires
        same_value(m, e, a, -(k0 as int)),
        k0 <= ks,
    ensures
        shifted(m, e + ks) == a * pow2((ks - k0) as nat),
        exceeds(m, e + ks, lim) <==> a * pow2((ks - k0) as nat) > lim,
{
    let t = (ks - k0) as nat;
    lemma_pow2_pos(t);
    if e <= -(k0 as int) {
        let d1 = (-(k0 as int) - e) as nat;
        if e + ks >= 0 {
            let s = (e + ks) as nat;
            lemma_pow2_adds(d1, s);
            assert(d1 + s == t);
            assert(m * pow2(s) == a * pow2(t)) by (nonlinear_arith)
                requires m == a * pow2(d1), pow2(d1) * pow2(s) == pow2(t);
        } else {
            let d = (-(e + ks)) as nat;
            lemma_pow2_adds(t, d);
            assert(t + d == d1);
            lemma_pow2_pos(d);
            let x = a * pow2(t);
            assert(m == x * pow2(d)) by (nonlinear_arith)
                requires m == a * pow2(d1), pow2(t) * pow2(d) == pow2(d1), x == a * pow2(t);
            assert(m / pow2(d) == x) by (nonlinear_arith)
                requires m == x * pow2(d), pow2(d) > 0;
            assert(m > lim * pow2(d) <==> x > lim) by (nonlinear_arith)
                requires m == x * pow2(d), pow2(d) > 0;
        }
    } else {
        let d2 = (e + k0) as nat;
        let s = (e + ks) as nat;
        lemma_pow2_adds(d2, t);
        assert(d2 + t == s);
        assert(m * pow2(s) == a * pow2(t)) by (nonlinear_arith)
            requires m * pow2(d2) == a, pow2(d2) * pow2(t) == pow2(s);
    }
}

/// Round trip through an integer format: a binary64 sample whose value lies
/// on the format's grid (`num / 2^decode_scale(format)`, with `num` in the
/// format's range) is encoded without clipping, to bytes that hold `num`;
/// decoding them gives a sample of the same value.
pub proof fn lemma_round_trip_int_f64(format: SampleFormat, b: u64, num: int)
    requires
        is_int_format(format),
        -pow2(decode_scale(format)) <= num < pow2(decode_scale(format)),
        f64_denotes(b, num < 0, abs(num), -(decode_scale(format) as int)),
    ensures
        !f64_encoded(b, format).1,
        int_value(format, f64_encoded(b, format).0) == num,
        forall|r: u64|
            f64_decodes(format, f64_encoded(b, format).0, r) ==> f64_denotes(
                r,
                num < 0,
                abs(num),
                -(decode_scale(format) as int),
            ),
{
    lemma2_to64();
    let k0 = decode_scale(format);
    let ks = encode_scale(format);
    let t = (ks - k0) as nat;
    let neg = num < 0;
    let lim: nat = if neg { pow2(ks) } else { (pow2(ks) - 1) as nat };
    lemma_pow2_adds(k0, t);
    assert(k0 + t == ks);
    lemma_pow2_pos(t);
    assert(abs(num) * pow2(t) <= lim) by (nonlinear_arith)
        requires
            neg ==> abs(num) <= pow2(k0),
            !neg ==> abs(num) + 1 <= pow2(k0),
            pow2(k0) * pow2(t) == pow2(ks),
            pow2(t) >= 1,
            lim == if neg { pow2(ks) } else { (pow2(ks) - 1) as nat },
    ;
    lemma_scale_exact(f64_mant(b), f64_exp(b), abs(num), k0, ks, lim);
    let v = num * pow2(t);
    assert(f64_to_int(b, ks) == (v, false)) by {
        if neg {
            assert(-(abs(num) * pow2(t)) == num * pow2(t)) by (nonlinear_arith)
                requires abs(num) == -num;
        }
    }
    assert(f64_encoded(b, format) == (int_bytes(format, v), false));
    if ks == k0 {
        assert(pow2(0) == 1);
        assert(v == num);
        if format is S16LE || format is S16BE {
            lemma_twos_complement(num, 16);
            lemma_le_round_trip(unsigned_of(num, 16), 2);
            lemma_be_round_trip(unsigned_of(num, 16), 2);
        } else {
            lemma_twos_complement(num, 32);
            lemma_le_round_trip(unsigned_of(num, 32), 4);
            lemma_be_round_trip(unsigned_of(num, 32), 4);
        }
    } else {
        assert(t == 8);
        assert(v == num * 256);
        assert(unsigned_of(v, 32) / 256 == unsigned_of(num, 24));
        let u = unsigned_of(num, 24);
        lemma_twos_complement(num, 24);
        lemma_le_round_trip(u, 3);
        lemma_be_round_trip(u, 3);
        let le3 = le_bytes(u, 3);
        assert(le3.push(0u8).subrange(0, 3) =~= le3);
        assert((seq![0u8] + le3.reverse()).subrange(1, 4) =~= le3.reverse());
    }
}


/// Round trip through an integer format: a binary32 sample whose value lies
/// on the format's grid (`num / 2^decode_scale(format)`, with `num` in the
/// format's range) is encoded without clipping, to bytes that hold `num`;
/// decoding them gives a sample of the same value.
pub proof fn lemma_round_trip_int_f32(format: SampleFormat, b: u32, num: int)
    requires
        is_int_format(format),
        -pow2(decode_scale(format)) <= num < pow2(decode_scale(format)),
        f32_denotes(b, num < 0, abs(num), -(decode_scale(format) as int)),
    ensures
        !f32_encoded(b, format).1,
        int_value(format, f32_encoded(b, format).0) == num,
        !(format is S32LE || format is S32BE) ==> forall|r: u32|
            f32_decodes(format, f32_encoded(b, format).0, r) ==> f32_denotes(
                r,
                num < 0,
                abs(num),
                -(decode_scale(format) as int),
            ),
        format is S32LE || format is S32BE ==> f32_decodes(format, f32_encoded(b, format).0, b),
{
    lemma2_to64();
    let k0 = decode_scale(format);
    let ks = encode_scale(format);
    let t = (ks - k0) as nat;
    let neg = num < 0;
    let lim: nat = if neg { pow2(ks) } else { (pow2(ks) - 1) as nat };
    lemma_pow2_adds(k0, t);
    assert(k0 + t == ks);
    lemma_pow2_pos(t);
    assert(abs(num) * pow2(t) <= lim) by (nonlinear_arith)
        requires
            neg ==> abs(num) <= pow2(k0),
            !neg ==> abs(num) + 1 <= pow2(k0),
            pow2(k0) * pow2(t) == pow2(ks),
            pow2(t) >= 1,
            lim == if neg { pow2(ks) } else { (pow2(ks) - 1) as nat },
    ;
    lemma_scale_exact(f32_mant(b), f32_exp(b), abs(num), k0, ks, lim);
    let v = num * pow2(t);
    assert(f32_to_int(b, ks) == (v, false)) by {
        if neg {
            assert(-(abs(num) * pow2(t)) == num * pow2(t)) by (nonlinear_arith)
                requires abs(num) == -num;
        }
    }
    assert(f32_encoded(b, format) == (int_bytes(format, v), false));
    if ks == k0 {
        assert(pow2(0) == 1);
        assert(v == num);
        if format is S16LE || format is S16BE {
            lemma_twos_complement(num, 16);
            lemma_le_round_trip(unsigned_of(num, 16), 2);
            lemma_be_round_trip(unsigned_of(num, 16), 2);
        } else {
            lemma_twos_complement(num, 32);
            lemma_le_round_trip(unsigned_of(num, 32), 4);
            lemma_be_round_trip(unsigned_of(num, 32), 4);
            lemma_same_value_symmetric(f32_mant(b), f32_exp(b), abs(num), -31);
            lemma_round_representable(b, abs(num), -31);
        }
    } else {
        assert(t == 8);
        assert(v == num * 256);
        assert(unsigned_of(v, 32) / 256 == unsigned_of(num, 24));
        let u = unsigned_of(num, 24);
        lemma_twos_complement(num, 24);
        lemma_le_round_trip(u, 3);
        lemma_be_round_trip(u, 3);
        let le3 = le_bytes(u, 3);
        assert(le3.push(0u8).subrange(0, 3) =~= le3);
        assert((seq![0u8] + le3.reverse()).subrange(1, 4) =~= le3.reverse());
    }
}


/// Round trip through a binary64 format: a binary64 sample that encoding
/// does not clip decodes back to the very same bit pattern.
pub proof fn lemma_round_trip_f64_float(b: u64)
    requires
        !f64_encoded(b, SampleFormat::F64LE).1,
    ensures
        !f64_encoded(b, SampleFormat::F64BE).1,
        f64_decodes(SampleFormat::F64LE, f64_encoded(b, SampleFormat::F64LE).0, b),
        f64_decodes(SampleFormat::F64BE, f64_encoded(b, SampleFormat::F64BE).0, b),
{
    lemma2_to64();
    assert(f64_clamped(b).0 == b);
    lemma_le_round_trip(b as nat, 8);
    lemma_be_round_trip(b as nat, 8);
}

/// Round trip through a binary32 format: a binary32 sample that encoding
/// does not clip decodes back to the very same bit pattern.
pub proof fn lemma_round_trip_f32_float(b: u32)
    requires
        !f32_encoded(b, SampleFormat::F32LE).1,
    ensures
        !f32_encoded(b, SampleFormat::F32BE).1,
        f32_decodes(SampleFormat::F32LE, f32_encoded(b, SampleFormat::F32LE).0, b),
        f32_decodes(SampleFormat::F32BE, f32_encoded(b, SampleFormat::F32BE).0, b),
{
    lemma2_to64();
    assert(f32_clamped(b).0 == b);
    lemma_le_round_trip(b as nat, 4);
    lemma_be_round_trip(b as nat, 4);
}

/// A value of at least 1, scaled by `2^k`, exceeds `2^k - 1`.
proof fn lemma_one_exceeds(m: nat, e: int, k: nat)
    requires
        at_least_one(m, e),
    ensures
        exceeds(m, e + k, (pow2(k) - 1) as nat),
{
    lemma_pow2_pos(k);
    if e >= 0 {
        lemma_pow2_adds(e as nat, k);
        lemma_pow2_pos(e as nat);
        assert(m * pow2((e + k) as nat) >= pow2(k)) by (nonlinear_arith)
            requires m * pow2(e as nat) >= 1, pow2(e as nat) * pow2(k) == pow2((e + k) as nat), pow2(k) > 0;
    } else if e + k >= 0 {
        let d = (-e) as nat;
        let s = (e + k) as nat;
        lemma_pow2_adds(d, s);
        lemma_pow2_pos(s);
        assert(m * pow2(s) >= pow2(k)) by (nonlinear_arith)
            requires m >= pow2(d), pow2(d) * pow2(s) == pow2(k), pow2(s) > 0;
    } else {
        let d = (-(e + k)) as nat;
        lemma_pow2_adds(k, d);
        lemma_pow2_pos(d);
        assert(m > (pow2(k) - 1) * pow2(d)) by (nonlinear_arith)
            requires m >= pow2((-e) as nat), pow2(k) * pow2(d) == pow2((-e) as nat), pow2(d) > 0;
    }
}

/// Clipping boundary for binary64 samples: 1.0, any larger value and
/// +infinity are reported clipped by every format.
pub proof fn lemma_clips_from_one_f64(b: u64, format: SampleFormat)
    requires
        !f64_is_nan(b),
        !f64_neg(b),
        f64_is_inf(b) || at_least_one(f64_mant(b), f64_exp(b)),
    ensures
        f64_encoded(b, format).1,
{
    if !f64_is_inf(b) && is_int_format(format) {
        lemma_one_exceeds(f64_mant(b), f64_exp(b), encode_scale(format));
    }
    if format is F32LE || format is F32BE {
        lemma_narrowed_from_one(b);
    }
}

/// The binary32 pattern with a positive exponent field `ex` below 255 and a
/// fraction `f` stands for 1.0 or more exactly when `ex >= 127`.
proof fn lemma_f32_pattern_from_one(ex: u32, f: u32)
    requires
        127 <= ex < 255,
        f < 0x80_0000,
    ensures
        !f32_is_nan(f32_pattern(false, ex as nat, f as nat)),
        !f32_neg(f32_pattern(false, ex as nat, f as nat)),
        at_least_one(
            f32_mant(f32_pattern(false, ex as nat, f as nat)),
            f32_exp(f32_pattern(false, ex as nat, f as nat)),
        ),
{
    lemma2_to64();
    lemma_f32_pack(0, ex, f);
    lemma_compare_one(ex as int, f as nat, 23, 127);
}

/// The binary32 rounding of a binary64 sample of 1.0 or more, or of
/// +infinity, is clamped with clipping.
proof fn lemma_narrowed_from_one(b: u64)
    requires
        !f64_is_nan(b),
        !f64_neg(b),
        f64_is_inf(b) || at_least_one(f64_mant(b), f64_exp(b)),
    ensures
        f32_clamped(f32_narrowed(b)).1,
{
    lemma2_to64();
    if f64_is_inf(b) {
        lemma_f32_pack(0, 255, 0);
        return;
    }
    let m = f64_mant(b);
    let e = f64_exp(b);
    lemma_pow2_pos(0);
    if m == 0 {
        if e >= 0 {
            assert(m * pow2(e as nat) == 0);
        } else {
            lemma_pow2_pos((-e) as nat);
        }
        return;
    }
    lemma_bit_length(m);
    let l = bit_length(m);
    if e < 0 {
        lemma_pow2_below((-e) as nat, l, m);
    }
    assert(e + l >= 1);
    let qe = f32_quantum(m, e);
    assert(qe == e + l - 24);
    let q = f32_rounded(m, e);
    if qe <= e {
        let sh = (e - qe) as nat;
        assert(sh + (l - 1) == 23);
        lemma_pow2_adds((l - 1) as nat, sh);
        lemma_pow2_pos(sh);
        assert(q >= pow2(23)) by (nonlinear_arith)
            requires q == m * pow2(sh), m >= pow2((l - 1) as nat), pow2((l - 1) as nat) * pow2(sh) == pow2(23), pow2(sh) > 0;
    } else {
        let d = (qe - e) as nat;
        assert(d + 23 == l - 1);
        lemma_pow2_adds(23, d);
        lemma_pow2_pos(d);
        assert(m / pow2(d) >= pow2(23)) by (nonlinear_arith)
            requires m >= pow2((l - 1) as nat), pow2(23) * pow2(d) == pow2((l - 1) as nat), pow2(d) > 0;
        assert(q >= m / pow2(d));
    }
    assert(q >= 0x80_0000);
    lemma_bit_length(q);
    let lq = bit_length(q);
    if lq < 24 {
        lemma_pow2_below(23, lq, q);
    }
    if q != 0 && qe + lq >= 129 {
        lemma_f32_pack(0, 255, 0);
    } else if q >= 0x100_0000 {
        if lq < 25 {
            lemma_pow2_below(24, lq, q);
        }
        lemma_f32_pattern_from_one((qe + 151) as u32, 0);
    } else {
        lemma_f32_pattern_from_one((qe + 150) as u32, (q - 0x80_0000) as u32);
    }
}

/// Clipping boundary for binary32 samples: 1.0, any larger value and
/// +infinity are reported clipped by every format.
pub proof fn lemma_clips_from_one_f32(b: u32, format: SampleFormat)
    requires
        !f32_is_nan(b),
        !f32_neg(b),
        f32_is_inf(b) || at_least_one(f32_mant(b), f32_exp(b)),
    ensures
        f32_encoded(b, format).1,
{
    if !f32_is_inf(b) && is_int_format(format) {
        lemma_one_exceeds(f32_mant(b), f32_exp(b), encode_scale(format));
    }
    if format is F64LE || format is F64BE {
        lemma_widened_from_one(b);
    }
}

/// The binary64 widening of a binary32 sample of 1.0 or more, or of
/// +infinity, is clamped with clipping.
proof fn lemma_widened_from_one(b: u32)
    requires
        !f32_is_nan(b),
        !f32_neg(b),
        f32_is_inf(b) || at_least_one(f32_mant(b), f32_exp(b)),
    ensures
        f64_clamped(f64_widened(b)).1,
{
    lemma2_to64();
    let ex = f32_exp_field(b);
    let fr = f32_frac_field(b);
    assert(fr < 0x80_0000) by (bit_vector)
        requires fr == b & 0x7f_ffff;
    assert(ex < 0x100) by (bit_vector)
        requires ex == (b >> 23u32) & 0xff;
    if ex == 0xff {
        lemma_f64_pack(0, 0x7ff, 0);
    } else {
        lemma_compare_one(ex as int, fr as nat, 23, 127);
        let f = ((fr as u64) << 29u64);
        assert(f < 0x10_0000_0000_0000) by (bit_vector)
            requires fr < 0x80_0000, f == ((fr as u64) << 29u64);
        lemma_f64_pack(0, (ex + 896) as u64, f);
        vstd::arithmetic::power2::lemma2_to64_rest();
        lemma_compare_one((ex + 896) as int, f as nat, 52, 1023);
    }
}

/// Clipping boundary, other side: the largest value on an integer format's
/// grid, `(2^K - 1) / 2^K`, and the smallest, -1.0, are encoded without
/// clipping.
pub proof fn lemma_grid_ends_not_clipped_f64(format: SampleFormat, top: u64, bottom: u64)
    requires
        is_int_format(format),
        f64_denotes(top, false, (pow2(decode_scale(format)) - 1) as nat, -(decode_scale(format) as int)),
        f64_denotes(bottom, true, pow2(decode_scale(format)), -(decode_scale(format) as int)),
    ensures
        !f64_encoded(top, format).1,
        !f64_encoded(bottom, format).1,
{
    lemma_pow2_pos(decode_scale(format));
    lemma_round_trip_int_f64(format, top, pow2(decode_scale(format)) - 1);
    lemma_round_trip_int_f64(format, bottom, -pow2(decode_scale(format)));
}


/// Scaling a positive number by `2^k` adds `k` to its bit length.
proof fn lemma_bit_length_shift(x: nat, k: nat)
    requires
        x > 0,
    ensures
        bit_length(x * pow2(k)) == bit_length(x) + k,
{
    lemma_bit_length(x);
    let l = bit_length(x);
    lemma_pow2_adds((l - 1) as nat, k);
    lemma_pow2_adds(l, k);
    lemma_pow2_pos(k);
    assert(pow2((l - 1) as nat) * pow2(k) <= x * pow2(k)) by (nonlinear_arith)
        requires pow2((l - 1) as nat) <= x, pow2(k) > 0;
    assert(x * pow2(k) < pow2(l) * pow2(k)) by (nonlinear_arith)
        requires x < pow2(l), pow2(k) > 0;
    assert(((l - 1) as nat) + k == ((l + k - 1) as nat));
    lemma_bit_length_is(x * pow2(k), l + k);
}

/// Rounding to binary32 a value that a binary32 pattern `b` holds exactly,
/// however it is written as `m * 2^e`, gives `b` back.
pub proof fn lemma_round_representable(b: u32, m: nat, e: int)
    requires
        !f32_is_nan(b),
        !f32_is_inf(b),
        same_value(m, e, f32_mant(b), f32_exp(b)),
    ensures
        f32_round(f32_neg(b), m, e) == b,
{
    lemma2_to64();
    let mm = f32_mant(b);
    let ee = f32_exp(b);
    let ex = f32_exp_field(b);
    let fr = f32_frac_field(b);
    let s: u32 = if f32_neg(b) { 1 } else { 0 };
    assert(fr < 0x80_0000) by (bit_vector)
        requires fr == b & 0x7f_ffff;
    assert(ex < 0x100) by (bit_vector)
        requires ex == (b >> 23u32) & 0xff;
    assert(s <= 1);
    assert(b == (s << 31u32) | (ex << 23u32) | fr) by (bit_vector)
        requires
            fr == b & 0x7f_ffff,
            ex == (b >> 23u32) & 0xff,
            s == (if (b >> 31u32) == 1 { 1u32 } else { 0u32 }),
    ;
    if mm == 0 {
        if e <= ee {
            assert(m == 0) by (nonlinear_arith)
                requires m == mm * pow2((ee - e) as nat), mm == 0;
        } else {
            lemma_pow2_pos((e - ee) as nat);
            assert(m == 0) by (nonlinear_arith)
                requires m * pow2((e - ee) as nat) == 0, pow2((e - ee) as nat) > 0;
        }
        assert(f32_rounded(m, e) == 0) by {
            let qe = f32_quantum(m, e);
            if qe > e {
                lemma_pow2_pos((qe - e) as nat);
                assert(0nat / pow2((qe - e) as nat) == 0) by (nonlinear_arith)
                    requires pow2((qe - e) as nat) > 0;
                assert(0nat % pow2((qe - e) as nat) == 0) by (nonlinear_arith)
                    requires pow2((qe - e) as nat) > 0;
                lemma_pow2_pos((qe - e - 1) as nat);
            }
        }
        assert(ex == 0 && fr == 0);
        return;
    }
    // The value's bit length and exponent determine the quantum.
    let lm = bit_length(mm);
    lemma_bit_length(mm);
    if ex == 0 {
        if lm > 23 {
            lemma_pow2_below((lm - 1) as nat, 23, mm);
        }
    } else {
        lemma_bit_length_is(mm, 24);
    }
    if e <= ee {
        lemma_bit_length_shift(mm, (ee - e) as nat);
    } else {
        assert(m > 0) by (nonlinear_arith)
            requires m * pow2((e - ee) as nat) == mm, mm > 0;
        lemma_bit_length_shift(m, (e - ee) as nat);
    }
    assert(bit_length(m) + e == lm + ee);
    let qe = f32_quantum(m, e);
    assert(qe == ee);
    let q = f32_rounded(m, e);
    if qe <= e {
        let sh = (e - qe) as nat;
        if sh == 0 {
            assert(m == mm) by (nonlinear_arith)
                requires m == mm * pow2(0), pow2(0) == 1;
            assert(q == m * pow2(0));
            assert(q == mm) by (nonlinear_arith)
                requires q == m * pow2(0), pow2(0) == 1, m == mm;
        } else {
            assert(q == mm);
        }
    } else {
        let d = (qe - e) as nat;
        lemma_pow2_pos(d);
        lemma_pow2_pos((d - 1) as nat);
        assert(m / pow2(d) == mm && m % pow2(d) == 0) by (nonlinear_arith)
            requires m == mm * pow2(d), pow2(d) > 0;
        assert(q == mm);
    }
    if ex != 0 {
        assert(lm == 24);
        assert(!(q != 0 && qe + bit_length(q) >= 129));
        assert(f32_pattern(f32_neg(b), (qe + 150) as nat, (q - 0x80_0000) as nat) == b);
    } else {
        if lm > 23 {
            lemma_pow2_below((lm - 1) as nat, 23, mm);
        }
        assert(f32_pattern(f32_neg(b), 0, q) == b);
    }
}


/// `same_value` does not depend on the order of its two values.
proof fn lemma_same_value_symmetric(m1: nat, e1: int, m2: nat, e2: int)
    requires
        same_value(m1, e1, m2, e2),
    ensures
        same_value(m2, e2, m1, e1),
{
    if e1 == e2 {
        lemma2_to64();
        assert(m1 == m2) by (nonlinear_arith)
            requires m1 == m2 * pow2(0), pow2(0) == 1;
        assert(m2 * pow2(0) == m1) by (nonlinear_arith)
            requires m1 == m2, pow2(0) == 1;
    }
}

/// The binary64 widening of a finite binary32 sample holds the same value.
pub proof fn lemma_widened_value(b: u32)
    requires
        !f32_is_nan(b),
        !f32_is_inf(b),
    ensures
        f64_denotes(f64_widened(b), f32_neg(b), f32_mant(b), f32_exp(b)),
{
    lemma2_to64();
    vstd::arithmetic::power2::lemma2_to64_rest();
    let ex = f32_exp_field(b);
    let fr = f32_frac_field(b);
    let s: u64 = if f32_neg(b) { 1 } else { 0 };
    assert(fr < 0x80_0000) by (bit_vector)
        requires fr == b & 0x7f_ffff;
    assert(ex < 0x100) by (bit_vector)
        requires ex == (b >> 23u32) & 0xff;
    let w = f64_widened(b);
    if ex != 0 {
        let f = (fr as u64) << 29u64;
        assert(f == fr * 0x2000_0000 && f < 0x10_0000_0000_0000) by (bit_vector)
            requires fr < 0x80_0000, f == (fr as u64) << 29u64;
        lemma_f64_pack(s, (ex + 896) as u64, f);
        assert(f64_mant(w) == f32_mant(b) * pow2(29));
    } else if fr == 0 {
        lemma_f64_pack(s, 0, 0);
        assert(f64_mant(w) == 0);
        assert(0 == 0 * pow2((-149 - f64_exp(w)) as nat));
    } else {
        let l = bit_length(fr as nat);
        lemma_bit_length(fr as nat);
        if l > 23 {
            lemma_pow2_below((l - 1) as nat, 23, fr as nat);
        }
        vstd::bits::lemma_u64_pow2_no_overflow((53 - l) as nat);
        lemma_pow2_adds((l - 1) as nat, (53 - l) as nat);
        lemma_pow2_adds(l as nat, (53 - l) as nat);
        lemma_pow2_pos((53 - l) as nat);
        assert(fr * pow2((53 - l) as nat) >= pow2((l - 1) as nat) * pow2((53 - l) as nat)) by (nonlinear_arith)
            requires fr >= pow2((l - 1) as nat);
        assert(fr * pow2((53 - l) as nat) < pow2(l as nat) * pow2((53 - l) as nat)) by (nonlinear_arith)
            requires fr < pow2(l as nat), pow2((53 - l) as nat) > 0;
        vstd::bits::lemma_u64_shl_is_mul(fr as u64, (53 - l) as u64);
        let mw = (fr as u64) << ((53 - l) as u64);
        lemma_f64_pack(s, (l + 873) as u64, (mw - 0x10_0000_0000_0000) as u64);
        assert(f64_mant(w) == fr * pow2((53 - l) as nat));
        assert(f64_exp(w) == l - 202);
    }
}

/// Round trip of a binary32 sample through a binary64 format: a sample in
/// `[-1.0, 1.0)` (one that the binary32 formats do not clip) is not clipped
/// and decodes back to the very same pattern.
pub proof fn lemma_round_trip_f32_wide_float(b: u32)
    requires
        !f32_is_nan(b),
        !f32_encoded(b, SampleFormat::F32LE).1,
    ensures
        !f32_encoded(b, SampleFormat::F64LE).1,
        !f32_encoded(b, SampleFormat::F64BE).1,
        f32_decodes(SampleFormat::F64LE, f32_encoded(b, SampleFormat::F64LE).0, b),
        f32_decodes(SampleFormat::F64BE, f32_encoded(b, SampleFormat::F64BE).0, b),
{
    lemma2_to64();
    lemma_widened_clips_alike(b);
    if f32_is_inf(b) {
        let s: u64 = if f32_neg(b) { 1 } else { 0 };
        lemma_f64_pack(s, 0x7ff, 0);
        assert(f64_clamped(f64_widened(b)).1);
    }
    let w = f64_widened(b);
    lemma_widened_value(b);
    assert(f64_clamped(w).0 == w);
    lemma_le_round_trip(w as nat, 8);
    lemma_be_round_trip(w as nat, 8);
    lemma_same_value_symmetric(f64_mant(w), f64_exp(w), f32_mant(b), f32_exp(b));
    lemma_round_representable(b, f64_mant(w), f64_exp(w));
}


/// `same_value` compares the two values at any common exponent below both.
proof fn lemma_same_value_at(m1: nat, e1: int, m2: nat, e2: int, base: int)
    requires
        base <= e1,
        base <= e2,
    ensures
        same_value(m1, e1, m2, e2) <==> m1 * pow2((e1 - base) as nat) == m2 * pow2((e2 - base) as nat),
{
    let a = (e1 - base) as nat;
    let b = (e2 - base) as nat;
    lemma_pow2_pos(a);
    lemma_pow2_pos(b);
    if e1 <= e2 {
        let d = (e2 - e1) as nat;
        lemma_pow2_adds(d, a);
        assert(m1 == m2 * pow2(d) <==> m1 * pow2(a) == m2 * pow2(b)) by (nonlinear_arith)
            requires pow2(d) * pow2(a) == pow2(b), pow2(a) > 0;
        if e1 == e2 {
            lemma2_to64();
            assert(m1 * pow2(0) == m2 <==> m1 == m2 * pow2(0)) by (nonlinear_arith)
                requires pow2(0) == 1;
        }
    } else {
        let d = (e1 - e2) as nat;
        lemma_pow2_adds(d, b);
        assert(m1 * pow2(d) == m2 <==> m1 * pow2(a) == m2 * pow2(b)) by (nonlinear_arith)
            requires pow2(d) * pow2(b) == pow2(a), pow2(b) > 0;
    }
}

/// Two values equal to a third are equal.
proof fn lemma_same_value_transitive(m1: nat, e1: int, m2: nat, e2: int, m3: nat, e3: int)
    requires
        same_value(m1, e1, m2, e2),
        same_value(m2, e2, m3, e3),
    ensures
        same_value(m1, e1, m3, e3),
{
    let base = if e1 <= e2 && e1 <= e3 {
        e1
    } else if e2 <= e3 {
        e2
    } else {
        e3
    };
    lemma_same_value_at(m1, e1, m2, e2, base);
    lemma_same_value_at(m2, e2, m3, e3, base);
    lemma_same_value_at(m1, e1, m3, e3, base);
}

/// Round trip of a binary64 sample through a binary32 format, for a value
/// that binary32 holds exactly (the pattern `c` holds it): unless encoding
/// clips, the bytes decode to a binary64 pattern of the very same value.
pub proof fn lemma_round_trip_f64_narrow_float(b: u64, c: u32)
    requires
        !f64_is_nan(b),
        !f64_is_inf(b),
        !f32_is_nan(c),
        !f32_is_inf(c),
        f32_neg(c) == f64_neg(b),
        same_value(f32_mant(c), f32_exp(c), f64_mant(b), f64_exp(b)),
        !f64_encoded(b, SampleFormat::F32LE).1,
    ensures
        !f64_encoded(b, SampleFormat::F32BE).1,
        forall|r: u64|
            f64_decodes(SampleFormat::F32LE, f64_encoded(b, SampleFormat::F32LE).0, r) ==> f64_denotes(
                r,
                f64_neg(b),
                f64_mant(b),
                f64_exp(b),
            ),
        forall|r: u64|
            f64_decodes(SampleFormat::F32BE, f64_encoded(b, SampleFormat::F32BE).0, r) ==> f64_denotes(
                r,
                f64_neg(b),
                f64_mant(b),
                f64_exp(b),
            ),
{
    lemma2_to64();
    lemma_same_value_symmetric(f32_mant(c), f32_exp(c), f64_mant(b), f64_exp(b));
    lemma_round_representable(c, f64_mant(b), f64_exp(b));
    assert(f32_narrowed(b) == c);
    assert(f32_clamped(c).0 == c);
    lemma_le_round_trip(c as nat, 4);
    lemma_be_round_trip(c as nat, 4);
    lemma_widened_value(c);
    let w = f64_widened(c);
    lemma_same_value_transitive(f64_mant(w), f64_exp(w), f32_mant(c), f32_exp(c), f64_mant(b), f64_exp(b));
}


/// Widening to binary64 does not change whether a sample clips: it clips
/// exactly when it is outside `[-1.0, 1.0)` as a binary32 sample.
pub proof fn lemma_widened_clips_alike(b: u32)
    requires
        !f32_is_nan(b),
    ensures
        f64_clamped(f64_widened(b)).1 == f32_clamped(b).1,
{
    lemma2_to64();
    vstd::arithmetic::power2::lemma2_to64_rest();
    let ex = f32_exp_field(b);
    let fr = f32_frac_field(b);
    let s: u64 = if f32_neg(b) { 1 } else { 0 };
    assert(fr < 0x80_0000) by (bit_vector)
        requires fr == b & 0x7f_ffff;
    assert(ex < 0x100) by (bit_vector)
        requires ex == (b >> 23u32) & 0xff;
    lemma_compare_one(ex as int, fr as nat, 23, 127);
    if ex == 0xff {
        lemma_f64_pack(s, 0x7ff, 0);
    } else if ex != 0 {
        let f = (fr as u64) << 29u64;
        assert(f < 0x10_0000_0000_0000 && (f == 0 <==> fr == 0)) by (bit_vector)
            requires fr < 0x80_0000, f == (fr as u64) << 29u64;
        lemma_f64_pack(s, (ex + 896) as u64, f);
        lemma_compare_one((ex + 896) as int, f as nat, 52, 1023);
    } else if fr == 0 {
        lemma_f64_pack(s, 0, 0);
        lemma_compare_one(0, 0, 52, 1023);
    } else {
        let l = bit_length(fr as nat);
        lemma_bit_length(fr as nat);
        if l > 23 {
            lemma_pow2_below((l - 1) as nat, 23, fr as nat);
        }
        vstd::bits::lemma_u64_pow2_no_overflow((53 - l) as nat);
        lemma_pow2_adds(l as nat, (53 - l) as nat);
        lemma_pow2_pos((53 - l) as nat);
        assert(fr * pow2((53 - l) as nat) < pow2(l as nat) * pow2((53 - l) as nat)) by (nonlinear_arith)
            requires fr < pow2(l as nat), pow2((53 - l) as nat) > 0;
        lemma_pow2_adds((l - 1) as nat, (53 - l) as nat);
        assert(fr * pow2((53 - l) as nat) >= pow2((l - 1) as nat) * pow2((53 - l) as nat)) by (nonlinear_arith)
            requires fr >= pow2((l - 1) as nat);
        vstd::bits::lemma_u64_shl_is_mul(fr as u64, (53 - l) as u64);
        let mw = (fr as u64) << ((53 - l) as u64);
        let f = (mw - 0x10_0000_0000_0000) as u64;
        lemma_f64_pack(s, (l + 873) as u64, f);
        lemma_compare_one((l + 873) as int, f as nat, 52, 1023);
    }
}

} // verus!

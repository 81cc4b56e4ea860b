//! A model of IEEE-754 binary32 and binary64 values as bit patterns, and the
//! exact integer arithmetic that scales such a value into an integer range.

use vstd::prelude::*;
use vstd::arithmetic::power2::{pow2, lemma_pow2_pos, lemma_pow2_adds, lemma2_to64, lemma2_to64_rest, lemma_pow2_strictly_increases};
use vstd::bits::{lemma_u64_shl_is_mul, lemma_u64_pow2_no_overflow};

verus! {

/// `m * 2^s`, rounded toward zero.
pub open spec fn shifted(m: nat, s: int) -> nat {
    if s >= 0 {
        m * pow2(s as nat)
    } else {
        m / pow2((-s) as nat)
    }
}

/// `m * 2^s > lim`, exactly.
pub open spec fn exceeds(m: nat, s: int, lim: nat) -> bool {
    if s >= 0 {
        m * pow2(s as nat) > lim
    } else {
        m > lim * pow2((-s) as nat)
    }
}

/// The `k + 1`-bit signed integer for the value `±m * 2^e` scaled by `2^k`:
/// rounded toward zero, and clamped to `[-2^k, 2^k - 1]`; the flag tells
/// whether clamping changed the value.
pub open spec fn scale_to_int(neg: bool, m: nat, e: int, k: nat) -> (int, bool) {
    if !neg {
        if exceeds(m, e + k, (pow2(k) - 1) as nat) {
            (pow2(k) - 1, true)
        } else {
            (shifted(m, e + k) as int, false)
        }
    } else {
        if exceeds(m, e + k, pow2(k)) {
            (-pow2(k), true)
        } else {
            (-shifted(m, e + k), false)
        }
    }
}

/// Scales `±m * 2^e` by `2^k` into a signed integer, as `scale_to_int` says.
pub fn quantize(neg: bool, m: u64, e: i32, k: u32) -> (r: (i64, bool))
    requires
        m < 0x40_0000_0000_0000,
        -1200 <= e <= 1200,
        k == 15 || k == 31,
    ensures
        (r.0 as int, r.1) == scale_to_int(neg, m as nat, e as int, k as nat),
        -pow2(k as nat) <= r.0 < pow2(k as nat),
{
    proof {
        lemma2_to64();
        lemma2_to64_rest();
    }
    let p_k: u64 = 1u64 << k;
    proof {
        lemma_u64_shl_is_mul(1, k as u64);
    }
    let lim: u64 = if neg { p_k } else { p_k - 1 };
    let s: i32 = e + k as i32;
    if m == 0 {
        proof {
            if s >= 0 {
                assert(0 * pow2(s as nat) == 0);
            } else {
                lemma_pow2_pos((-s) as nat);
                assert(0nat / pow2((-s) as nat) == 0) by (nonlinear_arith)
                    requires pow2((-s) as nat) > 0;
            }
        }
        return (0, false);
    }
    if s >= 40 {
        proof {
            lemma_pow2_strictly_increases(32, s as nat);
            assert(m * pow2(s as nat) >= pow2(s as nat)) by (nonlinear_arith)
                requires m >= 1;
        }
        if neg {
            return (-(p_k as i64), true);
        } else {
            return (lim as i64, true);
        }
    }
    if s >= 0 {
        let p: u64 = 1u64 << (s as u32);
        proof {
            lemma_u64_pow2_no_overflow(s as nat);
            lemma_u64_shl_is_mul(1, s as u64);
            assert(m * p > lim <==> m > lim / p) by (nonlinear_arith)
                requires p > 0;
        }
        if m > lim / p {
            if neg {
                return (-(p_k as i64), true);
            } else {
                return (lim as i64, true);
            }
        }
        proof {
            assert(m * p <= lim) by (nonlinear_arith)
                requires p > 0, m <= lim / p;
        }
        let t: u64 = m * p;
        if neg {
            (-(t as i64), false)
        } else {
            (t as i64, false)
        }
    } else {
        let d: i32 = -s;
        if d >= 60 {
            proof {
                lemma_pow2_strictly_increases(54, d as nat);
                lemma_pow2_pos(d as nat);
                assert(m < pow2(d as nat));
                assert(lim * pow2(d as nat) >= pow2(d as nat)) by (nonlinear_arith)
                    requires lim >= 1;
                assert(m as nat / pow2(d as nat) == 0) by (nonlinear_arith)
                    requires m < pow2(d as nat);
            }
            return (0, false);
        }
        let p: u64 = 1u64 << (d as u32);
        proof {
            lemma_u64_pow2_no_overflow(d as nat);
            lemma_u64_shl_is_mul(1, d as u64);
        }
        let t: u64 = m / p;
        let rem: u64 = m % p;
        proof {
            assert(m > lim * p <==> (t > lim || (t == lim && rem > 0))) by (nonlinear_arith)
                requires p > 0, t == m / p, rem == m % p;
        }
        if t > lim || (t == lim && rem > 0) {
            if neg {
                return (-(p_k as i64), true);
            } else {
                return (lim as i64, true);
            }
        }
        if neg {
            (-(t as i64), false)
        } else {
            (t as i64, false)
        }
    }
}


/// The sign bit of a binary64 pattern.
pub open spec fn f64_neg(b: u64) -> bool {
    (b >> 63u64) == 1
}

/// The biased exponent field of a binary64 pattern.
pub open spec fn f64_exp_field(b: u64) -> u64 {
    (b >> 52u64) & 0x7ff
}

/// The fraction field of a binary64 pattern.
pub open spec fn f64_frac_field(b: u64) -> u64 {
    b & 0xf_ffff_ffff_ffff
}

/// A binary64 pattern for not-a-number.
pub open spec fn f64_is_nan(b: u64) -> bool {
    f64_exp_field(b) == 0x7ff && f64_frac_field(b) != 0
}

/// A binary64 pattern for an infinity.
pub open spec fn f64_is_inf(b: u64) -> bool {
    f64_exp_field(b) == 0x7ff && f64_frac_field(b) == 0
}

/// The integer significand of a finite binary64 pattern: its magnitude is
/// `f64_mant(b) * 2^f64_exp(b)`.
pub open spec fn f64_mant(b: u64) -> nat {
    if f64_exp_field(b) == 0 {
        f64_frac_field(b) as nat
    } else {
        (f64_frac_field(b) + 0x10_0000_0000_0000) as nat
    }
}

/// The exponent of the last significand bit of a finite binary64 pattern.
pub open spec fn f64_exp(b: u64) -> int {
    if f64_exp_field(b) == 0 {
        -1074
    } else {
        f64_exp_field(b) - 1075
    }
}

/// The sign bit of a binary32 pattern.
pub open spec fn f32_neg(b: u32) -> bool {
    (b >> 31u32) == 1
}

/// The biased exponent field of a binary32 pattern.
pub open spec fn f32_exp_field(b: u32) -> u32 {
    (b >> 23u32) & 0xff
}

/// The fraction field of a binary32 pattern.
pub open spec fn f32_frac_field(b: u32) -> u32 {
    b & 0x7f_ffff
}

/// A binary32 pattern for not-a-number.
pub open spec fn f32_is_nan(b: u32) -> bool {
    f32_exp_field(b) == 0xff && f32_frac_field(b) != 0
}

/// A binary32 pattern for an infinity.
pub open spec fn f32_is_inf(b: u32) -> bool {
    f32_exp_field(b) == 0xff && f32_frac_field(b) == 0
}

/// The integer significand of a finite binary32 pattern: its magnitude is
/// `f32_mant(b) * 2^f32_exp(b)`.
pub open spec fn f32_mant(b: u32) -> nat {
    if f32_exp_field(b) == 0 {
        f32_frac_field(b) as nat
    } else {
        (f32_frac_field(b) + 0x80_0000) as nat
    }
}

/// The exponent of the last significand bit of a finite binary32 pattern.
pub open spec fn f32_exp(b: u32) -> int {
    if f32_exp_field(b) == 0 {
        -149
    } else {
        f32_exp_field(b) - 150
    }
}

/// `m1 * 2^e1 == m2 * 2^e2`.
pub open spec fn same_value(m1: nat, e1: int, m2: nat, e2: int) -> bool {
    if e1 <= e2 {
        m1 == m2 * pow2((e2 - e1) as nat)
    } else {
        m1 * pow2((e1 - e2) as nat) == m2
    }
}

/// `b` is the binary64 pattern of the value `±m * 2^e` (with the sign `neg`).
pub open spec fn f64_denotes(b: u64, neg: bool, m: nat, e: int) -> bool {
    &&& !f64_is_nan(b)
    &&& !f64_is_inf(b)
    &&& f64_neg(b) == neg
    &&& same_value(f64_mant(b), f64_exp(b), m, e)
}

/// `b` is the binary32 pattern of the value `±m * 2^e` (with the sign `neg`).
pub open spec fn f32_denotes(b: u32, neg: bool, m: nat, e: int) -> bool {
    &&& !f32_is_nan(b)
    &&& !f32_is_inf(b)
    &&& f32_neg(b) == neg
    &&& same_value(f32_mant(b), f32_exp(b), m, e)
}

/// The fields of a binary64 pattern are the parts it was assembled from.
pub proof fn lemma_f64_pack(s: u64, ex: u64, f: u64)
    requires
        s <= 1,
        ex < 2048,
        f < 0x10_0000_0000_0000,
    ensures
        (((s << 63u64) | (ex << 52u64) | f) >> 63u64) == s,
        (((s << 63u64) | (ex << 52u64) | f) >> 52u64) & 0x7ff == ex,
        ((s << 63u64) | (ex << 52u64) | f) & 0xf_ffff_ffff_ffff == f,
{
    assert((((s << 63u64) | (ex << 52u64) | f) >> 63u64) == s) by (bit_vector)
        requires s <= 1, ex < 2048, f < 0x10_0000_0000_0000;
    assert((((s << 63u64) | (ex << 52u64) | f) >> 52u64) & 0x7ff == ex) by (bit_vector)
        requires s <= 1, ex < 2048, f < 0x10_0000_0000_0000;
    assert(((s << 63u64) | (ex << 52u64) | f) & 0xf_ffff_ffff_ffff == f) by (bit_vector)
        requires s <= 1, ex < 2048, f < 0x10_0000_0000_0000;
}

/// The fields of a binary32 pattern are the parts it was assembled from.
pub proof fn lemma_f32_pack(s: u32, ex: u32, f: u32)
    requires
        s <= 1,
        ex < 256,
        f < 0x80_0000,
    ensures
        (((s << 31u32) | (ex << 23u32) | f) >> 31u32) == s,
        (((s << 31u32) | (ex << 23u32) | f) >> 23u32) & 0xff == ex,
        ((s << 31u32) | (ex << 23u32) | f) & 0x7f_ffff == f,
{
    assert((((s << 31u32) | (ex << 23u32) | f) >> 31u32) == s) by (bit_vector)
        requires s <= 1, ex < 256, f < 0x80_0000;
    assert((((s << 31u32) | (ex << 23u32) | f) >> 23u32) & 0xff == ex) by (bit_vector)
        requires s <= 1, ex < 256, f < 0x80_0000;
    assert(((s << 31u32) | (ex << 23u32) | f) & 0x7f_ffff == f) by (bit_vector)
        requires s <= 1, ex < 256, f < 0x80_0000;
}

/// A power of two below `2^n` has an exponent below `n`.
pub proof fn lemma_pow2_below(e: nat, n: nat, x: nat)
    requires
        pow2(e) <= x,
        x < pow2(n),
    ensures
        e < n,
{
    if e >= n {
        if e > n {
            lemma_pow2_strictly_increases(n, e);
        }
    }
}

/// The binary64 pattern of `±a * 2^e0`, which binary64 holds exactly.
pub fn exact_to_f64(neg: bool, a: u64, e0: i32) -> (b: u64)
    requires
        a <= 0xffff_ffff,
        -200 <= e0 <= 200,
    ensures
        f64_denotes(b, neg, a as nat, e0 as int),
{
    proof {
        lemma2_to64();
        lemma2_to64_rest();
    }
    if a == 0 {
        proof {
            let s: u64 = if neg { 1 } else { 0 };
            lemma_f64_pack(s, 0, 0);
        }
        let s: u64 = if neg { 1 } else { 0 };
        return (s << 63u64) | (0u64 << 52u64) | 0u64;
    }
    let mut m: u64 = a;
    let mut e: i32 = e0;
    assert(a * pow2(0) == a);
    while m < 0x10_0000_0000_0000
        invariant
            1 <= a <= 0xffff_ffff,
            -200 <= e0 <= 200,
            1 <= m < 0x20_0000_0000_0000,
            e0 - 53 <= e <= e0,
            m == a * pow2((e0 - e) as nat),
        decreases 0x20_0000_0000_0000 - m,
    {
        proof {
            let n = (e0 - e) as nat;
            lemma2_to64();
            lemma2_to64_rest();
            lemma_pow2_adds(n, 1);
            assert(2 * m == a * pow2(n + 1)) by (nonlinear_arith)
                requires m == a * pow2(n), pow2(n + 1) == pow2(n) * pow2(1), pow2(1) == 2;
            assert(pow2(n + 1) <= a * pow2(n + 1)) by (nonlinear_arith)
                requires a >= 1;
            lemma_pow2_below(n + 1, 53, (2 * m) as nat);
        }
        m = m * 2;
        e = e - 1;
    }
    let ex: u64 = (e + 1075) as u64;
    let f: u64 = m - 0x10_0000_0000_0000;
    let s: u64 = if neg { 1 } else { 0 };
    let b: u64 = (s << 63u64) | (ex << 52u64) | f;
    proof {
        lemma_f64_pack(s, ex, f);
    }
    b
}

/// The binary32 pattern of `±a * 2^e0`, for an `a` that binary32 holds exactly.
pub fn exact_to_f32(neg: bool, a: u64, e0: i32) -> (b: u32)
    requires
        a < 0x100_0000,
        -31 <= e0 <= 0,
    ensures
        f32_denotes(b, neg, a as nat, e0 as int),
{
    proof {
        lemma2_to64();
        lemma2_to64_rest();
    }
    if a == 0 {
        proof {
            let s: u32 = if neg { 1 } else { 0 };
            lemma_f32_pack(s, 0, 0);
        }
        let s: u32 = if neg { 1 } else { 0 };
        return (s << 31u32) | (0u32 << 23u32) | 0u32;
    }
    let mut m: u64 = a;
    let mut e: i32 = e0;
    assert(a * pow2(0) == a);
    while m < 0x80_0000
        invariant
            1 <= a < 0x100_0000,
            -31 <= e0 <= 0,
            1 <= m < 0x100_0000,
            e0 - 24 <= e <= e0,
            m == a * pow2((e0 - e) as nat),
        decreases 0x100_0000 - m,
    {
        proof {
            let n = (e0 - e) as nat;
            lemma2_to64();
            lemma2_to64_rest();
            lemma_pow2_adds(n, 1);
            assert(2 * m == a * pow2(n + 1)) by (nonlinear_arith)
                requires m == a * pow2(n), pow2(n + 1) == pow2(n) * pow2(1), pow2(1) == 2;
            assert(pow2(n + 1) <= a * pow2(n + 1)) by (nonlinear_arith)
                requires a >= 1;
            lemma_pow2_below(n + 1, 24, (2 * m) as nat);
        }
        m = m * 2;
        e = e - 1;
    }
    let ex: u32 = (e + 150) as u32;
    let f: u32 = (m - 0x80_0000) as u32;
    let s: u32 = if neg { 1 } else { 0 };
    let b: u32 = (s << 31u32) | (ex << 23u32) | f;
    proof {
        lemma_f32_pack(s, ex, f);
    }
    b
}


/// `m * 2^e >= 1`, exactly.
pub open spec fn at_least_one(m: nat, e: int) -> bool {
    if e >= 0 {
        m * pow2(e as nat) >= 1
    } else {
        m >= pow2((-e) as nat)
    }
}

/// Where a finite pattern stands against 1.0: `ex` is its exponent field,
/// `fr` its fraction field, `p` the fraction width and `one` the exponent
/// field of 1.0.
pub proof fn lemma_compare_one(ex: int, fr: nat, p: nat, one: int)
    requires
        1 <= p,
        0 <= ex,
        one >= 1,
        fr < pow2(p),
    ensures
        ({
            let m: nat = if ex == 0 { fr } else { fr + pow2(p) };
            let e: int = if ex == 0 { 1 - (one + p) } else { ex - (one + p) };
            &&& at_least_one(m, e) <==> ex >= one
            &&& exceeds(m, e, 1) <==> (ex > one || (ex == one && fr > 0))
        }),
{
    let m: nat = if ex == 0 { fr } else { fr + pow2(p) };
    let e: int = if ex == 0 { 1 - (one + p) } else { ex - (one + p) };
    lemma_pow2_pos(p);
    lemma_pow2_adds(p, 1);
    lemma2_to64();
    assert(pow2(p + 1) == 2 * pow2(p));
    if ex >= one + p {
        lemma_pow2_pos(e as nat);
        assert(m * pow2(e as nat) >= m) by (nonlinear_arith)
            requires pow2(e as nat) >= 1;
        lemma_pow2_strictly_increases(0, p);
    } else if ex >= one {
        let d = (-e) as nat;
        if d < p {
            lemma_pow2_strictly_increases(d, p);
        }
    } else {
        let d = (-e) as nat;
        if ex == 0 {
            if d > p {
                lemma_pow2_strictly_increases(p, d);
            }
        } else {
            if d > p + 1 {
                lemma_pow2_strictly_increases(p + 1, d);
            }
        }
    }
}

/// The binary64 pattern of 1.0.
pub const F64_ONE: u64 = 0x3ff0_0000_0000_0000;

/// The binary64 pattern of -1.0.
pub const F64_MINUS_ONE: u64 = 0xbff0_0000_0000_0000;

/// The binary32 pattern of 1.0.
pub const F32_ONE: u32 = 0x3f80_0000;

/// The binary32 pattern of -1.0.
pub const F32_MINUS_ONE: u32 = 0xbf80_0000;

/// A binary64 sample clamped to `[-1.0, 1.0]`, and whether that changed it;
/// 1.0 itself counts as clipped, and not-a-number passes unchanged.
pub open spec fn f64_clamped(b: u64) -> (u64, bool) {
    if f64_is_nan(b) {
        (b, false)
    } else if !f64_neg(b) && (f64_is_inf(b) || at_least_one(f64_mant(b), f64_exp(b))) {
        (F64_ONE, true)
    } else if f64_neg(b) && (f64_is_inf(b) || exceeds(f64_mant(b), f64_exp(b), 1)) {
        (F64_MINUS_ONE, true)
    } else {
        (b, false)
    }
}

/// As `f64_clamped`, for a binary32 sample.
pub open spec fn f32_clamped(b: u32) -> (u32, bool) {
    if f32_is_nan(b) {
        (b, false)
    } else if !f32_neg(b) && (f32_is_inf(b) || at_least_one(f32_mant(b), f32_exp(b))) {
        (F32_ONE, true)
    } else if f32_neg(b) && (f32_is_inf(b) || exceeds(f32_mant(b), f32_exp(b), 1)) {
        (F32_MINUS_ONE, true)
    } else {
        (b, false)
    }
}

/// Clamps a binary64 sample as `f64_clamped` says.
pub fn clamp_f64(b: u64) -> (r: (u64, bool))
    ensures
        r == f64_clamped(b),
{
    let neg = (b >> 63u64) == 1;
    let ex = (b >> 52u64) & 0x7ff;
    let fr = b & 0xf_ffff_ffff_ffff;
    assert(fr < 0x10_0000_0000_0000) by (bit_vector)
        requires fr == b & 0xf_ffff_ffff_ffff;
    proof {
        lemma2_to64_rest();
        lemma_compare_one(ex as int, fr as nat, 52, 1023);
    }
    if ex == 0x7ff {
        if fr != 0 {
            (b, false)
        } else if neg {
            (F64_MINUS_ONE, true)
        } else {
            (F64_ONE, true)
        }
    } else if !neg {
        if ex >= 1023 {
            (F64_ONE, true)
        } else {
            (b, false)
        }
    } else {
        if ex > 1023 || (ex == 1023 && fr > 0) {
            (F64_MINUS_ONE, true)
        } else {
            (b, false)
        }
    }
}

/// Clamps a binary32 sample as `f32_clamped` says.
pub fn clamp_f32(b: u32) -> (r: (u32, bool))
    ensures
        r == f32_clamped(b),
{
    let neg = (b >> 31u32) == 1;
    let ex = (b >> 23u32) & 0xff;
    let fr = b & 0x7f_ffff;
    assert(fr < 0x80_0000) by (bit_vector)
        requires fr == b & 0x7f_ffff;
    proof {
        lemma2_to64();
        lemma_compare_one(ex as int, fr as nat, 23, 127);
    }
    if ex == 0xff {
        if fr != 0 {
            (b, false)
        } else if neg {
            (F32_MINUS_ONE, true)
        } else {
            (F32_ONE, true)
        }
    } else if !neg {
        if ex >= 127 {
            (F32_ONE, true)
        } else {
            (b, false)
        }
    } else {
        if ex > 127 || (ex == 127 && fr > 0) {
            (F32_MINUS_ONE, true)
        } else {
            (b, false)
        }
    }
}


/// The number of binary digits of `m`.
pub open spec fn bit_length(m: nat) -> nat
    decreases m,
{
    if m == 0 {
        0
    } else {
        1 + bit_length(m / 2)
    }
}

/// A positive `m` lies between the powers of two that its bit length gives.
pub proof fn lemma_bit_length(m: nat)
    requires
        m > 0,
    ensures
        bit_length(m) >= 1,
        pow2((bit_length(m) - 1) as nat) <= m < pow2(bit_length(m)),
    decreases m,
{
    lemma2_to64();
    if m == 1 {
        assert(bit_length(0) == 0);
    } else {
        lemma_bit_length(m / 2);
        let l = bit_length(m / 2);
        lemma_pow2_adds((l - 1) as nat, 1);
        lemma_pow2_adds(l, 1);
    }
}

/// The bit length of a number between `2^(l-1)` and `2^l` is `l`.
pub proof fn lemma_bit_length_is(m: nat, l: nat)
    requires
        l >= 1,
        pow2((l - 1) as nat) <= m < pow2(l),
    ensures
        bit_length(m) == l,
{
    lemma_pow2_pos((l - 1) as nat);
    lemma_bit_length(m);
    let b = bit_length(m);
    if b > l {
        if b - 1 > l {
            lemma_pow2_strictly_increases(l, (b - 1) as nat);
        }
    } else if b < l {
        if b < l - 1 {
            lemma_pow2_strictly_increases(b, (l - 1) as nat);
        }
    }
}

/// The number of binary digits of `m`, computed.
pub fn bit_len(m: u64) -> (r: u32)
    ensures
        r == bit_length(m as nat),
        r <= 64,
{
    let mut t: u64 = m;
    let mut n: u32 = 0;
    proof {
        if m > 0 {
            lemma_bit_length(m as nat);
            lemma2_to64();
            if bit_length(m as nat) > 64 {
                lemma_pow2_strictly_increases(64, (bit_length(m as nat) - 1) as nat);
            }
        }
    }
    while t > 0
        invariant
            bit_length(m as nat) == n + bit_length(t as nat),
            n + bit_length(t as nat) <= 64,
        decreases t,
    {
        proof {
            if t > 0 {
                lemma_bit_length(t as nat);
                lemma2_to64();
                if bit_length(t as nat) > 64 {
                    lemma_pow2_strictly_increases(64, (bit_length(t as nat) - 1) as nat);
                }
            }
        }
        t = t / 2;
        n = n + 1;
    }
    n
}

/// `m / 2^d` rounded to the nearest integer, ties to the even one.
pub open spec fn round_half_even(m: nat, d: nat) -> nat {
    if d == 0 {
        m
    } else {
        let q = m / pow2(d);
        let r = m % pow2(d);
        let h = pow2((d - 1) as nat);
        if r > h || (r == h && q % 2 == 1) {
            q + 1
        } else {
            q
        }
    }
}

/// The exponent of the last significand bit of the binary32 value nearest
/// to `m * 2^e`: 24 significant bits, and never finer than `2^-149`.
pub open spec fn f32_quantum(m: nat, e: int) -> int {
    let t = e + bit_length(m) - 24;
    if t > -149 {
        t
    } else {
        -149
    }
}

/// The significand of the binary32 value nearest to `m * 2^e`, in units of
/// `2^f32_quantum(m, e)`, ties to even.
pub open spec fn f32_rounded(m: nat, e: int) -> nat {
    let qe = f32_quantum(m, e);
    if qe <= e {
        m * pow2((e - qe) as nat)
    } else {
        round_half_even(m, (qe - e) as nat)
    }
}

/// The binary32 pattern with the given sign, exponent field and fraction field.
pub open spec fn f32_pattern(neg: bool, ex: nat, f: nat) -> u32 {
    ((if neg { 1u32 } else { 0u32 }) << 31u32) | ((ex as u32) << 23u32) | (f as u32)
}

/// The binary32 pattern nearest to `±m * 2^e`, ties to even: a value whose
/// rounded magnitude reaches `2^128` becomes an infinity, and one below the
/// normal range becomes subnormal.
pub open spec fn f32_round(neg: bool, m: nat, e: int) -> u32 {
    let q = f32_rounded(m, e);
    let qe = f32_quantum(m, e);
    if q != 0 && qe + bit_length(q) >= 129 {
        f32_pattern(neg, 255, 0)
    } else if q >= 0x100_0000 {
        f32_pattern(neg, (qe + 151) as nat, 0)
    } else if q >= 0x80_0000 {
        f32_pattern(neg, (qe + 150) as nat, (q - 0x80_0000) as nat)
    } else {
        f32_pattern(neg, 0, q)
    }
}

/// Rounds `±m * 2^e` to binary32, as `f32_round` says.
pub fn round_to_f32(neg: bool, m: u64, e: i32) -> (r: u32)
    requires
        m < 0x40_0000_0000_0000,
        -1200 <= e <= 1200,
    ensures
        r == f32_round(neg, m as nat, e as int),
{
    proof {
        lemma2_to64();
        lemma2_to64_rest();
    }
    let len = bit_len(m);
    proof {
        if m > 0 {
            lemma_bit_length(m as nat);
            if len > 54 {
                lemma_pow2_strictly_increases(54, (len - 1) as nat);
            }
        }
    }
    let t_exp: i32 = e + len as i32 - 24;
    let qe: i32 = if t_exp > -149 { t_exp } else { -149 };
    let q: u64;
    if qe <= e {
        let sh: u32 = (e - qe) as u32;
        let p: u64 = 1u64 << sh;
        proof {
            lemma_u64_pow2_no_overflow(sh as nat);
            lemma_u64_shl_is_mul(1, sh as u64);
            if m > 0 {
                lemma_pow2_adds(len as nat, sh as nat);
                if (len as nat + sh as nat) < 24 {
                    lemma_pow2_strictly_increases(len as nat + sh as nat, 24);
                }
                assert(m * p < pow2(len as nat) * p) by (nonlinear_arith)
                    requires m < pow2(len as nat), p > 0;
            }
        }
        q = m * p;
    } else {
        let d: u32 = (qe - e) as u32;
        if d >= 60 {
            proof {
                lemma_pow2_strictly_increases(54, (d - 1) as nat);
                lemma_pow2_pos(d as nat);
                lemma_pow2_adds((d - 1) as nat, 1);
                assert(m as nat / pow2(d as nat) == 0) by (nonlinear_arith)
                    requires m < pow2(d as nat);
                assert(m as nat % pow2(d as nat) == m) by (nonlinear_arith)
                    requires m < pow2(d as nat);
            }
            q = 0;
        } else {
            let p: u64 = 1u64 << d;
            proof {
                lemma_u64_pow2_no_overflow(d as nat);
                lemma_u64_shl_is_mul(1, d as u64);
                lemma_pow2_adds((d - 1) as nat, 1);
            }
            let q0: u64 = m / p;
            let rem: u64 = m % p;
            let h: u64 = p / 2;
            if rem > h || (rem == h && q0 % 2 == 1) {
                q = q0 + 1;
            } else {
                q = q0;
            }
        }
    }
    let lq = bit_len(q);
    let s: u32 = if neg { 1 } else { 0 };
    if q != 0 && qe + lq as i32 >= 129 {
        return (s << 31u32) | (255u32 << 23u32) | (0u64 as u32);
    }
    if q >= 0x100_0000 {
        return (s << 31u32) | (((qe + 151) as u32) << 23u32) | (0u64 as u32);
    }
    if q >= 0x80_0000 {
        return (s << 31u32) | (((qe + 150) as u32) << 23u32) | ((q - 0x80_0000) as u32);
    }
    (s << 31u32) | (0u32 << 23u32) | (q as u32)
}


/// The binary64 pattern with the given sign, exponent field and fraction field.
pub open spec fn f64_pattern(neg: bool, ex: nat, f: nat) -> u64 {
    ((if neg { 1u64 } else { 0u64 }) << 63u64) | ((ex as u64) << 52u64) | (f as u64)
}

/// The binary64 widening of the binary32 sample `b`: every finite binary32
/// value is a binary64 value, and a subnormal one becomes normal; infinities
/// keep their sign, and not-a-number keeps its fraction in the upper bits,
/// with the quiet bit set.
pub open spec fn f64_widened(b: u32) -> u64 {
    let neg = f32_neg(b);
    let ex = f32_exp_field(b);
    let fr = f32_frac_field(b);
    if ex == 0xff {
        if fr != 0 {
            f64_pattern(neg, 0x7ff, (((fr as u64) << 29u64) | 0x8_0000_0000_0000) as nat)
        } else {
            f64_pattern(neg, 0x7ff, 0)
        }
    } else if ex != 0 {
        f64_pattern(neg, (ex + 896) as nat, ((fr as u64) << 29u64) as nat)
    } else if fr == 0 {
        f64_pattern(neg, 0, 0)
    } else {
        let l = bit_length(fr as nat);
        f64_pattern(
            neg,
            (l + 873) as nat,
            (((fr as u64) << ((53 - l) as u64)) - 0x10_0000_0000_0000) as nat,
        )
    }
}

/// Widens a binary32 sample to binary64, as `f64_widened` says.
pub fn widen(b: u32) -> (w: u64)
    ensures
        w == f64_widened(b),
{
    let neg = (b >> 31u32) == 1;
    let ex = (b >> 23u32) & 0xff;
    let fr = b & 0x7f_ffff;
    assert(fr < 0x80_0000) by (bit_vector)
        requires fr == b & 0x7f_ffff;
    assert(ex < 0x100) by (bit_vector)
        requires ex == (b >> 23u32) & 0xff;
    let s: u64 = if neg { 1 } else { 0 };
    if ex == 0xff {
        if fr != 0 {
            return (s << 63u64) | (0x7ffu64 << 52u64) | (((fr as u64) << 29u64) | 0x8_0000_0000_0000);
        }
        return (s << 63u64) | (0x7ffu64 << 52u64) | (0u64);
    }
    if ex != 0 {
        return (s << 63u64) | (((ex + 896) as u64) << 52u64) | ((fr as u64) << 29u64);
    }
    if fr == 0 {
        return (s << 63u64) | (0u64 << 52u64) | (0u64);
    }
    let l = bit_len(fr as u64);
    proof {
        lemma_bit_length(fr as nat);
        lemma2_to64();
        lemma2_to64_rest();
        if l > 23 {
            lemma_pow2_strictly_increases(23, (l - 1) as nat);
        }
        lemma_u64_pow2_no_overflow((53 - l) as nat);
        lemma_pow2_adds((l - 1) as nat, (53 - l) as nat);
        lemma_pow2_adds(l as nat, (53 - l) as nat);
        assert(fr * pow2((53 - l) as nat) >= pow2((l - 1) as nat) * pow2((53 - l) as nat)) by (nonlinear_arith)
            requires fr >= pow2((l - 1) as nat);
        assert(fr * pow2((53 - l) as nat) < pow2(l as nat) * pow2((53 - l) as nat)) by (nonlinear_arith)
            requires fr < pow2(l as nat), pow2((53 - l) as nat) > 0;
        lemma_u64_shl_is_mul(fr as u64, (53 - l) as u64);
    }
    let m: u64 = (fr as u64) << ((53 - l) as u64);
    (s << 63u64) | (((l + 873) as u64) << 52u64) | (m - 0x10_0000_0000_0000)
}

/// The binary32 narrowing of the binary64 sample `b`: rounded to nearest,
/// ties to even; not-a-number keeps the upper bits of its fraction, with the
/// quiet bit set.
pub open spec fn f32_narrowed(b: u64) -> u32 {
    if f64_is_nan(b) {
        f32_pattern(f64_neg(b), 255, ((f64_frac_field(b) >> 29u64) | 0x40_0000) as nat)
    } else if f64_is_inf(b) {
        f32_pattern(f64_neg(b), 255, 0)
    } else {
        f32_round(f64_neg(b), f64_mant(b), f64_exp(b))
    }
}

/// Narrows a binary64 sample to binary32, as `f32_narrowed` says.
pub fn narrow(b: u64) -> (r: u32)
    ensures
        r == f32_narrowed(b),
{
    let neg = (b >> 63u64) == 1;
    let ex = (b >> 52u64) & 0x7ff;
    let fr = b & 0xf_ffff_ffff_ffff;
    assert(fr < 0x10_0000_0000_0000) by (bit_vector)
        requires fr == b & 0xf_ffff_ffff_ffff;
    assert(ex < 0x800) by (bit_vector)
        requires ex == (b >> 52u64) & 0x7ff;
    let s: u32 = if neg { 1 } else { 0 };
    if ex == 0x7ff {
        if fr != 0 {
            let f: u64 = (fr >> 29u64) | 0x40_0000;
            assert(f < 0x80_0000) by (bit_vector)
                requires fr < 0x10_0000_0000_0000, f == (fr >> 29u64) | 0x40_0000;
            return (s << 31u32) | (255u32 << 23u32) | (f as u32);
        }
        return (s << 31u32) | (255u32 << 23u32) | (0u64 as u32);
    }
    let m: u64 = if ex == 0 { fr } else { fr + 0x10_0000_0000_0000 };
    let e: i32 = if ex == 0 { -1074 } else { ex as i32 - 1075 };
    round_to_f32(neg, m, e)
}

} // verus!

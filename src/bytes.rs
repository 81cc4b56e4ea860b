//! Integers as little- and big-endian byte sequences.

use vstd::prelude::*;
use vstd::arithmetic::power2::pow2;

verus! {

/// The unsigned integer whose little-endian bytes are `b`.
pub open spec fn le_value(b: Seq<u8>) -> nat
    decreases b.len(),
{
    if b.len() == 0 {
        0
    } else {
        b[0] as nat + 256 * le_value(b.drop_first())
    }
}

/// The unsigned integer whose big-endian bytes are `b`.
pub open spec fn be_value(b: Seq<u8>) -> nat {
    le_value(b.reverse())
}

/// The `n` low-order bytes of `u`, least significant first.
pub open spec fn le_bytes(u: nat, n: nat) -> Seq<u8>
    decreases n,
{
    if n == 0 {
        seq![]
    } else {
        seq![(u % 256) as u8] + le_bytes(u / 256, (n - 1) as nat)
    }
}

/// The value of the `bits`-wide two's complement pattern `u`.
pub open spec fn signed_of(u: nat, bits: nat) -> int {
    if u >= pow2((bits - 1) as nat) {
        u - pow2(bits)
    } else {
        u as int
    }
}

/// The `bits`-wide two's complement pattern of `v`.
pub open spec fn unsigned_of(v: int, bits: nat) -> nat {
    if v < 0 {
        (v + pow2(bits)) as nat
    } else {
        v as nat
    }
}

/// The two little-endian bytes of `u`.
pub fn le_bytes2(u: u32) -> (r: [u8; 2])
    requires
        u < 0x1_0000,
    ensures
        r@ == le_bytes(u as nat, 2),
{
    let r = [(u % 256) as u8, (u / 256) as u8];
    proof {
        reveal_with_fuel(le_bytes, 3);
        assert(r@ =~= le_bytes(u as nat, 2));
    }
    r
}

/// The three little-endian bytes of `u`.
pub fn le_bytes3(u: u32) -> (r: [u8; 3])
    requires
        u < 0x100_0000,
    ensures
        r@ == le_bytes(u as nat, 3),
{
    let r = [(u % 256) as u8, (u / 256 % 256) as u8, (u / 65536) as u8];
    proof {
        reveal_with_fuel(le_bytes, 4);
        assert(u as nat / 256 / 256 == u as nat / 65536);
        assert(r@ =~= le_bytes(u as nat, 3));
    }
    r
}

/// The four little-endian bytes of `u`.
pub fn le_bytes4(u: u32) -> (r: [u8; 4])
    ensures
        r@ == le_bytes(u as nat, 4),
{
    let r = [(u % 256) as u8, (u / 256 % 256) as u8, (u / 65536 % 256) as u8, (u / 16777216) as u8];
    proof {
        reveal_with_fuel(le_bytes, 5);
        assert(u as nat / 256 / 256 == u as nat / 65536);
        assert(u as nat / 65536 / 256 == u as nat / 16777216);
        assert(r@ =~= le_bytes(u as nat, 4));
    }
    r
}

/// The eight little-endian bytes of `u`.
pub fn le_bytes8(u: u64) -> (r: [u8; 8])
    ensures
        r@ == le_bytes(u as nat, 8),
{
    let lo = le_bytes4((u % 0x1_0000_0000) as u32);
    let hi = le_bytes4((u / 0x1_0000_0000) as u32);
    let r = [lo[0], lo[1], lo[2], lo[3], hi[0], hi[1], hi[2], hi[3]];
    proof {
        reveal_with_fuel(le_bytes, 9);
        let x = u as nat;
        assert(x / 256 / 256 / 256 / 256 == x / 0x1_0000_0000);
        assert((x % 0x1_0000_0000) % 256 == x % 256);
        assert((x % 0x1_0000_0000) / 256 % 256 == x / 256 % 256);
        assert((x % 0x1_0000_0000) / 256 / 256 % 256 == x / 256 / 256 % 256);
        assert((x % 0x1_0000_0000) / 256 / 256 / 256 % 256 == x / 256 / 256 / 256 % 256);
        assert(r@ =~= le_bytes(x, 8));
    }
    r
}

/// The unsigned integer whose little-endian bytes are `b`.
pub fn le_value2(b: [u8; 2]) -> (r: u32)
    ensures
        r == le_value(b@),
        r < 0x1_0000,
{
    proof {
        reveal_with_fuel(le_value, 3);
        assert(b@.drop_first().drop_first().len() == 0);
    }
    b[0] as u32 + 256 * (b[1] as u32)
}

/// The unsigned integer whose little-endian bytes are `b`.
pub fn le_value3(b: [u8; 3]) -> (r: u32)
    ensures
        r == le_value(b@),
        r < 0x100_0000,
{
    proof {
        reveal_with_fuel(le_value, 4);
        assert(b@.drop_first().drop_first().drop_first().len() == 0);
    }
    b[0] as u32 + 256 * (b[1] as u32 + 256 * (b[2] as u32))
}

/// The unsigned integer whose little-endian bytes are `b`.
pub fn le_value4(b: [u8; 4]) -> (r: u32)
    ensures
        r == le_value(b@),
{
    proof {
        reveal_with_fuel(le_value, 5);
        assert(b@.drop_first().drop_first().drop_first().drop_first().len() == 0);
    }
    b[0] as u32 + 256 * (b[1] as u32 + 256 * (b[2] as u32 + 256 * (b[3] as u32)))
}

/// The unsigned integer whose little-endian bytes are `b`.
pub fn le_value8(b: [u8; 8]) -> (r: u64)
    ensures
        r == le_value(b@),
{
    let lo = le_value4([b[0], b[1], b[2], b[3]]);
    let hi = le_value4([b[4], b[5], b[6], b[7]]);
    proof {
        reveal_with_fuel(le_value, 9);
        let s = b@;
        assert(s.drop_first().drop_first().drop_first().drop_first() =~= seq![b[4], b[5], b[6], b[7]]);
        assert(le_value(s) == le_value(seq![b[0], b[1], b[2], b[3]]) + 0x1_0000_0000 * le_value(
            s.drop_first().drop_first().drop_first().drop_first(),
        )) by {
            assert(seq![b[0], b[1], b[2], b[3]].drop_first() =~= s.drop_first().subrange(0, 3));
            assert(s.drop_first().drop_first().drop_first().drop_first().drop_first().drop_first().drop_first().drop_first().len() == 0);
        }
    }
    lo as u64 + 0x1_0000_0000 * (hi as u64)
}

/// `b` in reverse order.
pub fn reversed2(b: [u8; 2]) -> (r: [u8; 2])
    ensures
        r@ == b@.reverse(),
{
    let r = [b[1], b[0]];
    assert(r@ =~= b@.reverse());
    r
}

/// `b` in reverse order.
pub fn reversed3(b: [u8; 3]) -> (r: [u8; 3])
    ensures
        r@ == b@.reverse(),
{
    let r = [b[2], b[1], b[0]];
    assert(r@ =~= b@.reverse());
    r
}

/// `b` in reverse order.
pub fn reversed4(b: [u8; 4]) -> (r: [u8; 4])
    ensures
        r@ == b@.reverse(),
{
    let r = [b[3], b[2], b[1], b[0]];
    assert(r@ =~= b@.reverse());
    r
}

/// `b` in reverse order.
pub fn reversed8(b: [u8; 8]) -> (r: [u8; 8])
    ensures
        r@ == b@.reverse(),
{
    let r = [b[7], b[6], b[5], b[4], b[3], b[2], b[1], b[0]];
    assert(r@ =~= b@.reverse());
    r
}

} // verus!

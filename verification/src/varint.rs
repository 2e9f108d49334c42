//! Base-128 variable-length integers, least significant group first.
//!
//! Every number on the wire (tags, lengths, scalar fields) is written this
//! way. A writer always emits the shortest form; a reader also takes padded
//! forms, as long as they stay within the width of the integer it reads.

use vstd::prelude::*;

verus! {

/// The shortest encoding of `v`: seven bits per byte, low group first, the
/// top bit of a byte set when another byte follows.
pub open spec fn varint(v: nat) -> Seq<u8>
    decreases v,
{
    if v < 128 {
        seq![v as u8]
    } else {
        seq![(128 + v % 128) as u8] + varint(v / 128)
    }
}

/// What stands at the head of `bytes`, with no bound on width: the value and
/// the number of bytes it takes. `None` when the bytes end before a byte
/// without the top bit.
pub open spec fn parse_varint(bytes: Seq<u8>) -> Option<(nat, nat)>
    decreases bytes.len(),
{
    if bytes.len() == 0 {
        None
    } else if bytes[0] < 128 {
        Some((bytes[0] as nat, 1nat))
    } else {
        match parse_varint(bytes.skip(1)) {
            Some((v, n)) => Some(((bytes[0] - 128) as nat + 128 * v, n + 1)),
            None => None,
        }
    }
}

/// A 64-bit reader accepts at most ten bytes and a value that fits.
pub open spec fn parse_varint64(bytes: Seq<u8>) -> Option<(u64, nat)> {
    match parse_varint(bytes) {
        Some((v, n)) => if n <= 10 && v <= u64::MAX {
            Some((v as u64, n))
        } else {
            None
        },
        None => None,
    }
}

/// A 32-bit reader accepts at most five bytes and a value that fits.
pub open spec fn parse_varint32(bytes: Seq<u8>) -> Option<(u32, nat)> {
    match parse_varint(bytes) {
        Some((v, n)) => if n <= 5 && v <= u32::MAX {
            Some((v as u32, n))
        } else {
            None
        },
        None => None,
    }
}

/// 128 to the power `i`.
pub open spec fn pow128(i: nat) -> nat
    decreases i,
{
    if i == 0 {
        1
    } else {
        128 * pow128((i - 1) as nat)
    }
}

/// The result of reading a tail, seen from `i` continuation bytes earlier
/// whose groups add up to `acc`.
spec fn shifted(tail: Option<(nat, nat)>, acc: nat, i: nat) -> Option<(nat, nat)> {
    match tail {
        Some((v, n)) => Some((acc + pow128(i) * v, n + i)),
        None => None,
    }
}

/// An encoding is never empty, and its last byte has the top bit clear.
pub proof fn lemma_varint_len(v: nat)
    ensures
        varint(v).len() >= 1,
        v < pow128(varint(v).len()),
        varint(v).len() > 1 ==> v >= pow128((varint(v).len() - 1) as nat),
    decreases v,
{
    if v >= 128 {
        lemma_varint_len(v / 128);
        let n = varint(v / 128).len();
        assert(varint(v).len() == n + 1);
        assert(pow128(n + 1) == 128 * pow128(n));
        assert(n == 1 ==> pow128(0) == 1);
        assert(pow128(1) == 128 * pow128(0));
        assert(n > 1 ==> pow128(n) == 128 * pow128((n - 1) as nat));
    } else {
        assert(pow128(1) == 128 * pow128(0));
    }
}

/// The powers of 128 that bound 32-bit and 64-bit values.
pub proof fn lemma_pow128_values()
    ensures
        pow128(0) == 1,
        pow128(1) == 0x80,
        pow128(2) == 0x4000,
        pow128(3) == 0x20_0000,
        pow128(4) == 0x1000_0000,
        pow128(5) == 0x8_0000_0000,
        pow128(6) == 0x400_0000_0000,
        pow128(7) == 0x2_0000_0000_0000,
        pow128(8) == 0x100_0000_0000_0000,
        pow128(9) == 0x8000_0000_0000_0000,
        pow128(10) == 0x40_0000_0000_0000_0000,
{
    reveal_with_fuel(pow128, 11);
}

/// Powers of 128 grow with the exponent.
pub proof fn lemma_pow128_monotonic(i: nat, j: nat)
    requires
        i <= j,
    ensures
        pow128(i) <= pow128(j),
        pow128(i) >= 1,
    decreases j,
{
    if i < j {
        lemma_pow128_monotonic(i, (j - 1) as nat);
    } else if i > 0 {
        lemma_pow128_monotonic((i - 1) as nat, (i - 1) as nat);
    }
}

/// A 64-bit value takes at most ten bytes, a 32-bit value at most five.
pub proof fn lemma_varint_width(v: nat)
    ensures
        v <= u64::MAX ==> varint(v).len() <= 10,
        v <= u32::MAX ==> varint(v).len() <= 5,
{
    lemma_varint_len(v);
    lemma_pow128_values();
    let n = varint(v).len();
    if n > 10 {
        lemma_pow128_monotonic(10, (n - 1) as nat);
    }
    if n > 5 {
        lemma_pow128_monotonic(5, (n - 1) as nat);
    }
}

/// Reading what was written gives the value back, whatever follows it.
pub proof fn lemma_parse_varint_of_varint(v: nat, rest: Seq<u8>)
    ensures
        parse_varint(varint(v) + rest) == Some((v, varint(v).len())),
    decreases v,
{
    let bytes = varint(v) + rest;
    if v < 128 {
        assert(bytes[0] == v as u8);
    } else {
        let tail = varint(v / 128);
        lemma_parse_varint_of_varint(v / 128, rest);
        assert(bytes[0] == (128 + v % 128) as u8);
        assert(bytes.skip(1) =~= tail + rest);
        assert(varint(v).len() == tail.len() + 1);
    }
}

/// Reading with the 64-bit reader what was written from a `u64`.
pub proof fn lemma_parse_varint64_of_varint(v: u64, rest: Seq<u8>)
    ensures
        parse_varint64(varint(v as nat) + rest) == Some((v, varint(v as nat).len())),
{
    lemma_parse_varint_of_varint(v as nat, rest);
    lemma_varint_width(v as nat);
}

/// Reading with the 32-bit reader what was written from a `u32`.
pub proof fn lemma_parse_varint32_of_varint(v: u32, rest: Seq<u8>)
    ensures
        parse_varint32(varint(v as nat) + rest) == Some((v, varint(v as nat).len())),
{
    lemma_parse_varint_of_varint(v as nat, rest);
    lemma_varint_width(v as nat);
}

/// A successful read took at least one byte and no more than there are.
pub proof fn lemma_parse_varint_bounds(bytes: Seq<u8>)
    ensures
        parse_varint(bytes) matches Some((v, n)) ==> 1 <= n <= bytes.len() && v < pow128(n),
    decreases bytes.len(),
{
    if bytes.len() > 0 && bytes[0] >= 128 {
        lemma_parse_varint_bounds(bytes.skip(1));
        if let Some((v, n)) = parse_varint(bytes.skip(1)) {
            assert(pow128(n + 1) == 128 * pow128(n));
        }
    } else if bytes.len() > 0 {
        assert(pow128(1) == 128 * pow128(0));
    }
}

/// One more continuation byte moves the view of the tail one byte on.
proof fn lemma_shift_step(all: Seq<u8>, acc: nat, i: nat)
    requires
        i < all.len(),
        all[i as int] >= 128,
    ensures
        shifted(parse_varint(all.skip(i as int)), acc, i) == shifted(
            parse_varint(all.skip(i as int + 1)),
            acc + pow128(i) * (all[i as int] - 128) as nat,
            i + 1,
        ),
{
    let here = all.skip(i as int);
    let group = (all[i as int] - 128) as nat;
    assert(here[0] == all[i as int]);
    assert(here.skip(1) =~= all.skip(i as int + 1));
    assert(pow128(i + 1) == 128 * pow128(i));
    match parse_varint(all.skip(i as int + 1)) {
        Some((v, n)) => {
            assert(acc + pow128(i) * (group + 128 * v) == acc + pow128(i) * group + (128 * pow128(
                i,
            )) * v) by (nonlinear_arith);
        },
        None => {},
    }
}

/// Appends the shortest encoding of `v` to `out`.
pub fn write_varint(out: &mut Vec<u8>, v: u64)
    ensures
        final(out)@ == old(out)@ + varint(v as nat),
{
    let mut rest: u64 = v;
    while rest >= 128
        invariant
            out@ + varint(rest as nat) == old(out)@ + varint(v as nat),
        decreases rest,
    {
        let ghost before = out@;
        let group: u64 = 128 + rest % 128;
        out.push(group as u8);
        proof {
            let tail = varint((rest / 128) as nat);
            assert(varint(rest as nat) == seq![group as u8] + tail);
            assert(before.push(group as u8) + tail =~= before + (seq![group as u8] + tail));
        }
        rest = rest / 128;
    }
    let ghost before = out@;
    out.push(rest as u8);
    assert(before.push(rest as u8) =~= before + varint(rest as nat));
}

/// Reads a 64-bit number at `pos`. Gives the value and the position after
/// it, or `None` where the bytes end too early, run past ten bytes, or hold
/// a value beyond 64 bits.
pub fn read_varint64(bytes: &[u8], pos: usize) -> (r: Option<(u64, usize)>)
    requires
        pos <= bytes.len(),
    ensures
        match parse_varint64(bytes@.skip(pos as int)) {
            Some((v, n)) => r == Some((v, (pos + n) as usize)) && pos + n <= bytes.len(),
            None => r is None,
        },
{
    let ghost all = bytes@.skip(pos as int);
    let mut value: u64 = 0;
    let mut scale: u64 = 1;
    let mut i: usize = 0;
    proof {
        lemma_pow128_values();
        assert(all.skip(0) =~= all);
        if let Some((v, n)) = parse_varint(all) {
            assert(pow128(0) * v == v) by (nonlinear_arith)
                requires
                    pow128(0) == 1,
            ;
        }
    }
    while i < 10
        invariant
            i <= 10,
            pos + i <= bytes.len(),
            all == bytes@.skip(pos as int),
            scale == pow128(i as nat) || i == 10,
            value < pow128(i as nat),
            i <= 9 ==> pow128(i as nat) <= 0x8000_0000_0000_0000,
            parse_varint(all) == shifted(parse_varint(all.skip(i as int)), value as nat, i as nat),
        decreases 10 - i,
    {
        if pos + i >= bytes.len() {
            assert(all.skip(i as int).len() == 0);
            return None;
        }
        let b: u8 = bytes[pos + i];
        proof {
            assert(all[i as int] == b);
            assert(all.skip(i as int)[0] == b);
            lemma_pow128_values();
            lemma_pow128_monotonic(i as nat, 9);
            lemma_parse_varint_bounds(all.skip(i + 1));
        }
        if b < 128 {
            if i == 9 && b > 1 {
                assert(value + pow128(9) * b > u64::MAX) by (nonlinear_arith)
                    requires
                        b >= 2,
                        pow128(9) == 0x8000_0000_0000_0000,
                ;
                return None;
            }
            assert(value + scale * b <= u64::MAX) by (nonlinear_arith)
                requires
                    value < scale,
                    scale <= 0x8000_0000_0000_0000,
                    b < 128,
                    scale == 0x8000_0000_0000_0000 ==> b <= 1,
                    scale < 0x8000_0000_0000_0000 ==> scale <= 0x100_0000_0000_0000,
            ;
            let total: u64 = value + scale * (b as u64);
            return Some((total, pos + i + 1));
        }
        if i == 9 {
            proof {
                lemma_shift_step(all, value as nat, 9);
            }
            return None;
        }
        proof {
            lemma_shift_step(all, value as nat, i as nat);
            lemma_pow128_monotonic((i + 1) as nat, 9);
            assert(value + scale * (b - 128) < 128 * scale) by (nonlinear_arith)
                requires
                    value < scale,
                    128 <= b < 256,
            ;
            assert(pow128((i + 1) as nat) == 128 * pow128(i as nat));
        }
        value = value + scale * ((b - 128) as u64);
        scale = scale * 128;
        i += 1;
    }
    proof {
        lemma_parse_varint_bounds(all.skip(10));
    }
    None
}

/// Reads a 32-bit number at `pos`: as the 64-bit reader, within five bytes
/// and 32 bits.
pub fn read_varint32(bytes: &[u8], pos: usize) -> (r: Option<(u32, usize)>)
    requires
        pos <= bytes.len(),
    ensures
        match parse_varint32(bytes@.skip(pos as int)) {
            Some((v, n)) => r == Some((v, (pos + n) as usize)) && pos + n <= bytes.len(),
            None => r is None,
        },
{
    match read_varint64(bytes, pos) {
        Some((v, next)) => {
            if next - pos <= 5 && v <= 0xffff_ffff {
                Some((v as u32, next))
            } else {
                None
            }
        },
        None => {
            proof {
                lemma_parse_varint_bounds(bytes@.skip(pos as int));
                lemma_pow128_values();
                if let Some((v, n)) = parse_varint(bytes@.skip(pos as int)) {
                    if n <= 5 {
                        lemma_pow128_monotonic(n, 5);
                    }
                }
            }
            None
        },
    }
}

} // verus!

//! The pieces a message is made of: tagged fields, each a number, a fixed
//! block, or a length followed by that many bytes.
//!
//! A tag is a 32-bit number: the field's number times eight, plus the wire
//! type of its value in the low three bits.

use crate::varint::{
    lemma_parse_varint32_of_varint, lemma_parse_varint64_of_varint, parse_varint32,
    parse_varint64, read_varint32, read_varint64, varint, write_varint,
};
use vstd::prelude::*;

verus! {

/// Wire type of a value that is one variable-length number.
pub const WIRE_VARINT: u32 = 0;

/// Wire type of a value that is eight bytes.
pub const WIRE_FIXED64: u32 = 1;

/// Wire type of a value that is a length and then that many bytes.
pub const WIRE_DELIMITED: u32 = 2;

/// Wire type of a value that is four bytes.
pub const WIRE_FIXED32: u32 = 5;

/// A signed 64-bit number as the unsigned number with the same bits.
pub open spec fn unsigned64(x: i64) -> u64 {
    if x >= 0 {
        x as u64
    } else {
        (x + 0x1_0000_0000_0000_0000) as u64
    }
}

/// An unsigned 64-bit number as the signed number with the same bits.
pub open spec fn signed64(v: u64) -> i64 {
    if v < 0x8000_0000_0000_0000 {
        v as i64
    } else {
        (v - 0x1_0000_0000_0000_0000) as i64
    }
}

/// The two readings of 64 bits undo each other.
pub proof fn lemma_signed_unsigned(x: i64, v: u64)
    ensures
        signed64(unsigned64(x)) == x,
        unsigned64(signed64(v)) == v,
{
}

/// A payload behind its length.
pub open spec fn delimited(payload: Seq<u8>) -> Seq<u8> {
    varint(payload.len()) + payload
}

/// The payload that follows a length read as `length`, and the bytes that
/// length and payload take together. `None` when the length was not read or
/// promises more bytes than there are.
pub open spec fn payload_after(bytes: Seq<u8>, length: Option<(nat, nat)>) -> Option<
    (Seq<u8>, nat),
> {
    match length {
        Some((len, n)) => if n + len <= bytes.len() {
            Some((bytes.subrange(n as int, (n + len) as int), n + len))
        } else {
            None
        },
        None => None,
    }
}

/// A payload whose length is read as a 32-bit number.
pub open spec fn parse_delimited32(bytes: Seq<u8>) -> Option<(Seq<u8>, nat)> {
    payload_after(
        bytes,
        match parse_varint32(bytes) {
            Some((len, n)) => Some((len as nat, n)),
            None => None,
        },
    )
}

/// A payload whose length is read as a 64-bit number.
pub open spec fn parse_delimited64(bytes: Seq<u8>) -> Option<(Seq<u8>, nat)> {
    payload_after(
        bytes,
        match parse_varint64(bytes) {
            Some((len, n)) => Some((len as nat, n)),
            None => None,
        },
    )
}

/// The number of bytes taken by the value of a field that the reader does
/// not know, told from the tag alone. `None` where the tag has field number
/// zero or a wire type other than the four above, or the value is cut short.
pub open spec fn skip_unknown(tag: u32, bytes: Seq<u8>) -> Option<nat> {
    if tag / 8 == 0 {
        None
    } else if tag % 8 == WIRE_VARINT {
        match parse_varint64(bytes) {
            Some((_, n)) => Some(n),
            None => None,
        }
    } else if tag % 8 == WIRE_FIXED64 {
        if bytes.len() >= 8 {
            Some(8nat)
        } else {
            None
        }
    } else if tag % 8 == WIRE_DELIMITED {
        match parse_delimited32(bytes) {
            Some((_, n)) => Some(n),
            None => None,
        }
    } else if tag % 8 == WIRE_FIXED32 {
        if bytes.len() >= 4 {
            Some(4nat)
        } else {
            None
        }
    } else {
        None
    }
}

/// A payload shorter than 2^32 bytes is read back from behind its length.
pub proof fn lemma_parse_delimited32(payload: Seq<u8>, rest: Seq<u8>)
    requires
        payload.len() <= u32::MAX,
    ensures
        parse_delimited32(delimited(payload) + rest) == Some(
            (payload, delimited(payload).len()),
        ),
{
    let len = payload.len();
    let bytes = delimited(payload) + rest;
    assert(bytes =~= varint(len) + (payload + rest));
    lemma_parse_varint32_of_varint(len as u32, payload + rest);
    let n = varint(len).len();
    assert(bytes.subrange(n as int, (n + len) as int) =~= payload);
}

/// A payload is read back from behind its length by the 64-bit reader.
pub proof fn lemma_parse_delimited64(payload: Seq<u8>, rest: Seq<u8>)
    requires
        payload.len() <= u64::MAX,
    ensures
        parse_delimited64(delimited(payload) + rest) == Some(
            (payload, delimited(payload).len()),
        ),
{
    let len = payload.len();
    let bytes = delimited(payload) + rest;
    assert(bytes =~= varint(len) + (payload + rest));
    lemma_parse_varint64_of_varint(len as u64, payload + rest);
    let n = varint(len).len();
    assert(bytes.subrange(n as int, (n + len) as int) =~= payload);
}

/// The unsigned number with the bits of `x`.
pub fn to_unsigned64(x: i64) -> (v: u64)
    ensures
        v == unsigned64(x),
{
    if x >= 0 {
        x as u64
    } else {
        let low: i64 = x - i64::MIN;
        (low as u64) + 0x8000_0000_0000_0000
    }
}

/// The signed number with the bits of `v`.
pub fn to_signed64(v: u64) -> (x: i64)
    ensures
        x == signed64(v),
{
    if v < 0x8000_0000_0000_0000 {
        v as i64
    } else {
        let low: u64 = v - 0x8000_0000_0000_0000;
        (low as i64) + i64::MIN
    }
}

/// Appends a payload behind its length.
pub fn write_delimited(out: &mut Vec<u8>, payload: &[u8])
    ensures
        final(out)@ == old(out)@ + delimited(payload@),
{
    write_varint(out, payload.len() as u64);
    let ghost before = out@;
    out.extend_from_slice(payload);
    assert(out@ =~= before + payload@);
    assert(out@ =~= old(out)@ + delimited(payload@));
}

/// Finds the payload at `pos` behind a length of at most 32 bits: where it
/// starts and where it ends.
pub fn read_delimited32(bytes: &[u8], pos: usize) -> (r: Option<(usize, usize)>)
    requires
        pos <= bytes.len(),
    ensures
        match parse_delimited32(bytes@.skip(pos as int)) {
            Some((payload, n)) => r matches Some((start, end)) && pos <= start <= end
                <= bytes.len() && end == pos + n && payload == bytes@.subrange(
                start as int,
                end as int,
            ),
            None => r is None,
        },
{
    match read_varint32(bytes, pos) {
        Some((len, start)) => {
            if len as usize <= bytes.len() - start {
                let end: usize = start + len as usize;
                assert(bytes@.skip(pos as int).subrange(start - pos, end - pos)
                    =~= bytes@.subrange(start as int, end as int));
                Some((start, end))
            } else {
                None
            }
        },
        None => None,
    }
}

/// Finds the payload at `pos` behind a length of at most 64 bits: where it
/// starts and where it ends.
pub fn read_delimited64(bytes: &[u8], pos: usize) -> (r: Option<(usize, usize)>)
    requires
        pos <= bytes.len(),
    ensures
        match parse_delimited64(bytes@.skip(pos as int)) {
            Some((payload, n)) => r matches Some((start, end)) && pos <= start <= end
                <= bytes.len() && end == pos + n && payload == bytes@.subrange(
                start as int,
                end as int,
            ),
            None => r is None,
        },
{
    match read_varint64(bytes, pos) {
        Some((len, start)) => {
            if len <= (bytes.len() - start) as u64 {
                let end: usize = start + len as usize;
                assert(bytes@.skip(pos as int).subrange(start - pos, end - pos)
                    =~= bytes@.subrange(start as int, end as int));
                Some((start, end))
            } else {
                None
            }
        },
        None => None,
    }
}

/// Steps over the value at `pos` of a field that the reader does not know.
/// Gives the position after it.
pub fn skip_unknown_field(bytes: &[u8], pos: usize, tag: u32) -> (r: Option<usize>)
    requires
        pos <= bytes.len(),
    ensures
        match skip_unknown(tag, bytes@.skip(pos as int)) {
            Some(n) => r == Some((pos + n) as usize) && pos + n <= bytes.len(),
            None => r is None,
        },
{
    if tag / 8 == 0 {
        return None;
    }
    let wire_type: u32 = tag % 8;
    if wire_type == WIRE_VARINT {
        match read_varint64(bytes, pos) {
            Some((_, next)) => Some(next),
            None => None,
        }
    } else if wire_type == WIRE_FIXED64 {
        if bytes.len() - pos >= 8 {
            Some(pos + 8)
        } else {
            None
        }
    } else if wire_type == WIRE_DELIMITED {
        match read_delimited32(bytes, pos) {
            Some((_, end)) => Some(end),
            None => None,
        }
    } else if wire_type == WIRE_FIXED32 {
        if bytes.len() - pos >= 4 {
            Some(pos + 4)
        } else {
            None
        }
    } else {
        None
    }
}

} // verus!

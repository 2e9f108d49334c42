//! Typed fields: how a value of each type is written behind its tag, and how
//! it is read back.
//!
//! A field that holds the default of its type (zero, no text, no bytes) is
//! not written at all; a nested message is written whenever it is present.

use crate::text::{lemma_decode_of_encoding, text_from_utf8};
use crate::varint::{
    lemma_parse_varint32_of_varint, lemma_parse_varint64_of_varint, lemma_varint_len,
    parse_varint32, parse_varint64, read_varint64, varint, write_varint,
};
use crate::wire::{
    delimited, lemma_parse_delimited32, lemma_signed_unsigned, parse_delimited32,
    read_delimited32, signed64, to_signed64, to_unsigned64, unsigned64, write_delimited,
};
use vstd::prelude::*;
use vstd::slice::{slice_subrange, slice_to_vec};
use vstd::utf8::{
    decode_utf8, decode_utf8_encode_utf8, encode_utf8, encode_utf8_valid_utf8, valid_utf8,
};

verus! {

/// A number behind its tag; nothing for zero.
pub open spec fn uint64_field(tag: u32, v: u64) -> Seq<u8> {
    if v == 0 {
        Seq::empty()
    } else {
        varint(tag as nat) + varint(v as nat)
    }
}

/// A signed number behind its tag, written with the bits it has as a 64-bit
/// number; nothing for zero.
pub open spec fn int64_field(tag: u32, x: i64) -> Seq<u8> {
    uint64_field(tag, unsigned64(x))
}

/// A text behind its tag, as the length of its UTF-8 bytes and the bytes;
/// nothing for the empty text.
pub open spec fn text_field(tag: u32, text: Seq<char>) -> Seq<u8> {
    if text.len() == 0 {
        Seq::empty()
    } else {
        varint(tag as nat) + delimited(encode_utf8(text))
    }
}

/// Bytes behind their tag and length; nothing when there are none.
pub open spec fn bytes_field(tag: u32, data: Seq<u8>) -> Seq<u8> {
    if data.len() == 0 {
        Seq::empty()
    } else {
        varint(tag as nat) + delimited(data)
    }
}

/// An encoded nested message behind its tag and length; nothing when the
/// message is absent.
pub open spec fn message_field(tag: u32, body: Option<Seq<u8>>) -> Seq<u8> {
    match body {
        Some(b) => varint(tag as nat) + delimited(b),
        None => Seq::empty(),
    }
}

/// A text value: a payload with a 32-bit length that is valid UTF-8.
pub open spec fn parse_text(bytes: Seq<u8>) -> Option<(Seq<char>, nat)> {
    match parse_delimited32(bytes) {
        Some((payload, n)) => if valid_utf8(payload) {
            Some((decode_utf8(payload), n))
        } else {
            None
        },
        None => None,
    }
}

/// A signed 64-bit value: the bits of a 64-bit number.
pub open spec fn parse_int64(bytes: Seq<u8>) -> Option<(i64, nat)> {
    match parse_varint64(bytes) {
        Some((v, n)) => Some((signed64(v), n)),
        None => None,
    }
}

/// A signed 32-bit value: a signed 64-bit value within 32 bits.
pub open spec fn parse_int32(bytes: Seq<u8>) -> Option<(i32, nat)> {
    match parse_int64(bytes) {
        Some((x, n)) => if i32::MIN <= x <= i32::MAX {
            Some((x as i32, n))
        } else {
            None
        },
        None => None,
    }
}

/// A text whose encoding is shorter than 2^32 bytes is read back.
pub proof fn lemma_parse_text_written(text: Seq<char>, rest: Seq<u8>)
    requires
        encode_utf8(text).len() <= u32::MAX,
    ensures
        parse_text(delimited(encode_utf8(text)) + rest) == Some(
            (text, delimited(encode_utf8(text)).len()),
        ),
{
    let payload = encode_utf8(text);
    lemma_parse_delimited32(payload, rest);
    encode_utf8_valid_utf8(text);
    lemma_decode_of_encoding(text, payload);
}

/// A text that was read is shorter than 2^32 bytes.
pub proof fn lemma_parsed_text_fits(bytes: Seq<u8>)
    ensures
        parse_text(bytes) matches Some((text, _)) ==> encode_utf8(text).len() <= u32::MAX,
{
    if let Some((payload, _)) = parse_delimited32(bytes) {
        if valid_utf8(payload) {
            decode_utf8_encode_utf8(payload);
        }
    }
}

/// A signed 64-bit value is read back.
pub proof fn lemma_parse_int64_written(x: i64, rest: Seq<u8>)
    ensures
        parse_int64(varint(unsigned64(x) as nat) + rest) == Some(
            (x, varint(unsigned64(x) as nat).len()),
        ),
{
    lemma_parse_varint64_of_varint(unsigned64(x), rest);
    lemma_signed_unsigned(x, 0);
}

/// A signed 32-bit value, written as a 64-bit one, is read back.
pub proof fn lemma_parse_int32_written(x: i32, rest: Seq<u8>)
    ensures
        parse_int32(varint(unsigned64(x as i64) as nat) + rest) == Some(
            (x, varint(unsigned64(x as i64) as nat).len()),
        ),
{
    lemma_parse_int64_written(x as i64, rest);
}

/// How a written field lies before what follows it: the tag is read back,
/// the value stands behind the tag, and what follows stands behind the value.
pub proof fn lemma_field_shape(tag: u32, value: Seq<u8>, rest: Seq<u8>)
    ensures
        ({
            let bytes = (varint(tag as nat) + value) + rest;
            let n = varint(tag as nat).len();
            &&& bytes.len() > 0
            &&& parse_varint32(bytes) == Some((tag, n))
            &&& bytes.skip(n as int) == value + rest
            &&& bytes.skip((n + value.len()) as int) == rest
        }),
{
    let bytes = (varint(tag as nat) + value) + rest;
    let n = varint(tag as nat).len();
    lemma_varint_len(tag as nat);
    assert(bytes =~= varint(tag as nat) + (value + rest));
    lemma_parse_varint32_of_varint(tag, value + rest);
    assert(bytes.skip(n as int) =~= value + rest);
    assert(bytes.skip((n + value.len()) as int) =~= rest);
}

/// A 32-bit number, written as a 64-bit one, is read back by the 32-bit
/// reader.
pub proof fn lemma_parse_uint32_written(v: u32, rest: Seq<u8>)
    ensures
        parse_varint32(varint(v as u64 as nat) + rest) == Some((v, varint(v as nat).len())),
{
    lemma_parse_varint32_of_varint(v, rest);
}

/// An empty text is the one without bytes.
pub proof fn lemma_empty_text(text: Seq<char>)
    ensures
        text.len() == 0 <==> encode_utf8(text).len() == 0,
{
    if text.len() == 0 {
        assert(text =~= Seq::<char>::empty());
        assert(encode_utf8(text) =~= Seq::<u8>::empty());
    } else if encode_utf8(text).len() == 0 {
        assert(encode_utf8(text) =~= encode_utf8(Seq::<char>::empty()));
        crate::text::lemma_utf8_injective(text, Seq::<char>::empty());
    }
}

/// Appends a number behind its tag, unless it is zero.
pub fn put_uint64(out: &mut Vec<u8>, tag: u32, v: u64)
    ensures
        final(out)@ == old(out)@ + uint64_field(tag, v),
{
    if v != 0 {
        write_varint(out, tag as u64);
        write_varint(out, v);
        assert(out@ =~= old(out)@ + uint64_field(tag, v));
    } else {
        assert(out@ =~= old(out)@ + uint64_field(tag, v));
    }
}

/// Appends a signed number behind its tag, unless it is zero.
pub fn put_int64(out: &mut Vec<u8>, tag: u32, x: i64)
    ensures
        final(out)@ == old(out)@ + int64_field(tag, x),
{
    put_uint64(out, tag, to_unsigned64(x));
}

/// Appends bytes behind their tag and length, unless there are none.
pub fn put_bytes(out: &mut Vec<u8>, tag: u32, data: &[u8])
    ensures
        final(out)@ == old(out)@ + bytes_field(tag, data@),
{
    if data.len() != 0 {
        write_varint(out, tag as u64);
        write_delimited(out, data);
        assert(out@ =~= old(out)@ + bytes_field(tag, data@));
    } else {
        assert(out@ =~= old(out)@ + bytes_field(tag, data@));
    }
}

/// Appends a text behind its tag, unless it is empty.
pub fn put_text(out: &mut Vec<u8>, tag: u32, text: &str)
    ensures
        final(out)@ == old(out)@ + text_field(tag, text@),
{
    proof {
        lemma_empty_text(text@);
    }
    let bytes = text.as_bytes();
    if bytes.len() != 0 {
        write_varint(out, tag as u64);
        write_delimited(out, bytes);
        assert(out@ =~= old(out)@ + text_field(tag, text@));
    } else {
        assert(out@ =~= old(out)@ + text_field(tag, text@));
    }
}

/// Appends an encoded nested message behind its tag and length.
pub fn put_message(out: &mut Vec<u8>, tag: u32, body: &[u8])
    ensures
        final(out)@ == old(out)@ + message_field(tag, Some(body@)),
{
    write_varint(out, tag as u64);
    write_delimited(out, body);
    assert(out@ =~= old(out)@ + message_field(tag, Some(body@)));
}

/// Reads a text value at `pos`. Gives the text and the position after it.
pub fn read_text(bytes: &[u8], pos: usize) -> (r: Option<(String, usize)>)
    requires
        pos <= bytes.len(),
    ensures
        match parse_text(bytes@.skip(pos as int)) {
            Some((text, n)) => r matches Some((s, next)) && s@ == text && next == pos + n && next
                <= bytes.len(),
            None => r is None,
        },
{
    match read_delimited32(bytes, pos) {
        Some((start, end)) => {
            let payload = slice_to_vec(slice_subrange(bytes, start, end));
            match text_from_utf8(payload) {
                Some(s) => {
                    proof {
                        lemma_decode_of_encoding(s@, payload@);
                    }
                    Some((s, end))
                },
                None => None,
            }
        },
        None => None,
    }
}

/// Reads a signed 64-bit value at `pos`. Gives the value and the position
/// after it.
pub fn read_int64(bytes: &[u8], pos: usize) -> (r: Option<(i64, usize)>)
    requires
        pos <= bytes.len(),
    ensures
        match parse_int64(bytes@.skip(pos as int)) {
            Some((x, n)) => r == Some((x, (pos + n) as usize)) && pos + n <= bytes.len(),
            None => r is None,
        },
{
    match read_varint64(bytes, pos) {
        Some((v, next)) => Some((to_signed64(v), next)),
        None => None,
    }
}

/// Reads a signed 32-bit value at `pos`. Gives the value and the position
/// after it.
pub fn read_int32(bytes: &[u8], pos: usize) -> (r: Option<(i32, usize)>)
    requires
        pos <= bytes.len(),
    ensures
        match parse_int32(bytes@.skip(pos as int)) {
            Some((x, n)) => r == Some((x, (pos + n) as usize)) && pos + n <= bytes.len(),
            None => r is None,
        },
{
    match read_int64(bytes, pos) {
        Some((x, next)) => {
            if -0x8000_0000 <= x && x <= 0x7fff_ffff {
                Some((x as i32, next))
            } else {
                None
            }
        },
        None => None,
    }
}

} // verus!

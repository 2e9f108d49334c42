//! The media packet: the unit that peers exchange, and its encoding.
//!
//! A packet is written as a message of tagged fields in the order of their
//! numbers. Reading takes the fields in any order, keeps the last value of a
//! field that comes more than once, and steps over fields it does not know.

use crate::audio_metadata::{
    encode_audio_metadata, lemma_audio_metadata_len, lemma_audio_metadata_round_trip,
    lemma_parsed_audio_metadata_fits, parse_audio_metadata, AudioMetadata, AudioMetadataView,
};
use crate::fields::{
    bytes_field, int64_field, lemma_field_shape, lemma_parse_int32_written,
    lemma_parse_int64_written, lemma_parse_text_written, lemma_parsed_text_fits, message_field,
    parse_int32, parse_int64, parse_text, put_bytes, put_int64, put_message, put_text,
    read_int32, read_int64, read_text, text_field,
};
use crate::kinds::ModelError;
use crate::varint::{lemma_parse_varint_bounds, parse_varint32, read_varint32, varint};
use crate::wire::{
    delimited, lemma_parse_delimited32, lemma_parse_delimited64, parse_delimited32,
    parse_delimited64, read_delimited32, read_delimited64, skip_unknown, skip_unknown_field,
    unsigned64,
};
use vstd::prelude::*;
use vstd::slice::{slice_subrange, slice_to_vec};
use vstd::utf8::encode_utf8;

verus! {

/// Tag of the media kind: field 1, a number.
pub const TAG_MEDIA_TYPE: u32 = 8;

/// Tag of the sender identity: field 2, length-delimited.
pub const TAG_EMAIL: u32 = 18;

/// Tag of the payload: field 3, length-delimited.
pub const TAG_DATA: u32 = 26;

/// Tag of the frame kind token: field 4, length-delimited.
pub const TAG_FRAME_TYPE: u32 = 34;

/// Tag of the capture timestamp: field 5, a number.
pub const TAG_TIMESTAMP: u32 = 40;

/// Tag of the duration: field 6, a number.
pub const TAG_DURATION: u32 = 48;

/// Tag of the audio metadata record: field 7, length-delimited.
pub const TAG_AUDIO_METADATA: u32 = 58;

/// What a packet carries. The set is open: a peer may send a kind that this
/// model has no name for, and its number is kept.
#[derive(Clone, Copy, Debug, PartialEq, Eq, Structural)]
pub enum MediaType {
    VIDEO,
    AUDIO,
    /// A kind known by its number only; never 0 or 1, which have names.
    Other(i32),
}

impl MediaType {
    /// The number of this kind on the wire.
    pub open spec fn number(self) -> i32 {
        match self {
            MediaType::VIDEO => 0,
            MediaType::AUDIO => 1,
            MediaType::Other(n) => n,
        }
    }

    /// The kind with a number: the named kind where the number has a name.
    pub open spec fn of_number(n: i32) -> MediaType {
        if n == 0 {
            MediaType::VIDEO
        } else if n == 1 {
            MediaType::AUDIO
        } else {
            MediaType::Other(n)
        }
    }

    /// A number that has a name is not held as `Other`.
    pub open spec fn wf(self) -> bool {
        self matches MediaType::Other(n) ==> n != 0 && n != 1
    }

    /// The number of this kind on the wire.
    pub fn value(&self) -> (n: i32)
        ensures
            n == self.number(),
    {
        match self {
            MediaType::VIDEO => 0,
            MediaType::AUDIO => 1,
            MediaType::Other(n) => *n,
        }
    }

    /// The kind with a number.
    pub fn from_i32(n: i32) -> (kind: MediaType)
        ensures
            kind == MediaType::of_number(n),
            kind.wf(),
            kind.number() == n,
    {
        if n == 0 {
            MediaType::VIDEO
        } else if n == 1 {
            MediaType::AUDIO
        } else {
            MediaType::Other(n)
        }
    }
}

/// The unit that peers exchange: one encoded video chunk or one raw audio
/// frame, with who sent it and when it was captured.
#[derive(Debug, PartialEq, Eq)]
pub struct MediaPacket {
    pub media_type: MediaType,
    /// Identity of the sender.
    pub email: String,
    /// The payload: exactly the bytes of the chunk or frame.
    pub data: Vec<u8>,
    /// Token of the chunk kind; empty on audio packets.
    pub frame_type: String,
    /// Capture time, in units of the capture clock.
    pub timestamp: i64,
    /// Zero where the source reported none.
    pub duration: i64,
    /// Present on audio packets.
    pub audio_metadata: Option<AudioMetadata>,
}

/// A media packet as a mathematical value.
pub struct MediaPacketView {
    pub media_type: MediaType,
    pub email: Seq<char>,
    pub data: Seq<u8>,
    pub frame_type: Seq<char>,
    pub timestamp: i64,
    pub duration: i64,
    pub audio_metadata: Option<AudioMetadataView>,
}

impl View for MediaPacket {
    type V = MediaPacketView;

    open spec fn view(&self) -> MediaPacketView {
        MediaPacketView {
            media_type: self.media_type,
            email: self.email@,
            data: self.data@,
            frame_type: self.frame_type@,
            timestamp: self.timestamp,
            duration: self.duration,
            audio_metadata: match self.audio_metadata {
                Some(m) => Some(m@),
                None => None,
            },
        }
    }
}

impl MediaPacketView {
    /// The packet with every field at its default: a video packet from
    /// nobody, without payload, kind, time or metadata.
    pub open spec fn empty() -> MediaPacketView {
        MediaPacketView {
            media_type: MediaType::VIDEO,
            email: Seq::empty(),
            data: Seq::empty(),
            frame_type: Seq::empty(),
            timestamp: 0,
            duration: 0,
            audio_metadata: None,
        }
    }

    /// The metadata record is there on audio packets and on no others.
    pub open spec fn metadata_matches_kind(self) -> bool {
        self.audio_metadata is Some <==> self.media_type == MediaType::AUDIO
    }

    /// The packet fits the wire: its media kind is held under its name where
    /// it has one, and each text, the payload and the metadata's format token
    /// are shorter than 2^32 bytes.
    pub open spec fn wf(self) -> bool {
        &&& self.media_type.wf()
        &&& encode_utf8(self.email).len() <= u32::MAX
        &&& self.data.len() <= u32::MAX
        &&& encode_utf8(self.frame_type).len() <= u32::MAX
        &&& self.audio_metadata matches Some(m) ==> m.wf()
    }
}

/// The bytes of the metadata record of a packet, if it has one.
pub open spec fn encode_metadata_of(p: MediaPacketView) -> Option<Seq<u8>> {
    match p.audio_metadata {
        Some(m) => Some(encode_audio_metadata(m)),
        None => None,
    }
}

/// The bytes of a packet: its fields in the order of their numbers.
pub open spec fn encode_packet(p: MediaPacketView) -> Seq<u8> {
    int64_field(TAG_MEDIA_TYPE, p.media_type.number() as i64) + (text_field(TAG_EMAIL, p.email)
        + (bytes_field(TAG_DATA, p.data) + (text_field(TAG_FRAME_TYPE, p.frame_type) + (int64_field(
        TAG_TIMESTAMP,
        p.timestamp,
    ) + (int64_field(TAG_DURATION, p.duration) + message_field(
        TAG_AUDIO_METADATA,
        encode_metadata_of(p),
    ))))))
}

/// A metadata record as a field's value: a payload with a 64-bit length
/// that encodes a record.
pub open spec fn parse_metadata_value(bytes: Seq<u8>) -> Option<(AudioMetadataView, nat)> {
    match parse_delimited64(bytes) {
        Some((payload, n)) => match parse_audio_metadata(payload) {
            Some(m) => Some((m, n)),
            None => None,
        },
        None => None,
    }
}

/// What one field does to the packet read so far, and the bytes its value
/// takes. A field that the packet does not have is stepped over.
pub open spec fn packet_field(acc: MediaPacketView, tag: u32, bytes: Seq<u8>) -> Option<
    (MediaPacketView, nat),
> {
    if tag == TAG_MEDIA_TYPE {
        match parse_int32(bytes) {
            Some((v, n)) => Some((MediaPacketView { media_type: MediaType::of_number(v), ..acc }, n)),
            None => None,
        }
    } else if tag == TAG_EMAIL {
        match parse_text(bytes) {
            Some((text, n)) => Some((MediaPacketView { email: text, ..acc }, n)),
            None => None,
        }
    } else if tag == TAG_DATA {
        match parse_delimited32(bytes) {
            Some((payload, n)) => Some((MediaPacketView { data: payload, ..acc }, n)),
            None => None,
        }
    } else if tag == TAG_FRAME_TYPE {
        match parse_text(bytes) {
            Some((text, n)) => Some((MediaPacketView { frame_type: text, ..acc }, n)),
            None => None,
        }
    } else if tag == TAG_TIMESTAMP {
        match parse_int64(bytes) {
            Some((v, n)) => Some((MediaPacketView { timestamp: v, ..acc }, n)),
            None => None,
        }
    } else if tag == TAG_DURATION {
        match parse_int64(bytes) {
            Some((v, n)) => Some((MediaPacketView { duration: v, ..acc }, n)),
            None => None,
        }
    } else if tag == TAG_AUDIO_METADATA {
        match parse_metadata_value(bytes) {
            Some((m, n)) => Some((MediaPacketView { audio_metadata: Some(m), ..acc }, n)),
            None => None,
        }
    } else {
        match skip_unknown(tag, bytes) {
            Some(n) => Some((acc, n)),
            None => None,
        }
    }
}

/// A field's value ends within the bytes.
pub proof fn lemma_packet_field_bounds(acc: MediaPacketView, tag: u32, bytes: Seq<u8>)
    ensures
        packet_field(acc, tag, bytes) matches Some((_, n)) ==> n <= bytes.len(),
{
    lemma_parse_varint_bounds(bytes);
}

/// The packet that `bytes` add to `acc`: field after field until the bytes
/// end, a later value of a field replacing an earlier one. `None` where a
/// tag or a value cannot be read.
pub open spec fn parse_packet_from(bytes: Seq<u8>, acc: MediaPacketView) -> Option<
    MediaPacketView,
>
    decreases bytes.len(),
    via parse_packet_from_decreases
{
    if bytes.len() == 0 {
        Some(acc)
    } else {
        match parse_varint32(bytes) {
            Some((tag, n)) => match packet_field(acc, tag, bytes.skip(n as int)) {
                Some((next, m)) => parse_packet_from(bytes.skip((n + m) as int), next),
                None => None,
            },
            None => None,
        }
    }
}

#[via_fn]
proof fn parse_packet_from_decreases(bytes: Seq<u8>, acc: MediaPacketView) {
    lemma_parse_varint_bounds(bytes);
    if let Some((tag, n)) = parse_varint32(bytes) {
        lemma_packet_field_bounds(acc, tag, bytes.skip(n as int));
    }
}

/// One step of reading, at a position within the bytes: a tag that ends at
/// `at`, and then the field's value.
proof fn lemma_parse_packet_step(
    bytes: Seq<u8>,
    acc: MediaPacketView,
    pos: int,
    at: int,
    tag: u32,
)
    requires
        0 <= pos < at <= bytes.len(),
        parse_varint32(bytes.skip(pos)) == Some((tag, (at - pos) as nat)),
    ensures
        match packet_field(acc, tag, bytes.skip(at)) {
            Some((read, n)) => at + n <= bytes.len() && parse_packet_from(bytes.skip(pos), acc)
                == parse_packet_from(bytes.skip(at + n), read),
            None => parse_packet_from(bytes.skip(pos), acc) is None,
        },
{
    let here = bytes.skip(pos);
    assert(here.len() > 0);
    assert(here.skip(at - pos) =~= bytes.skip(at));
    lemma_packet_field_bounds(acc, tag, bytes.skip(at));
    if let Some((read, n)) = packet_field(acc, tag, bytes.skip(at)) {
        assert(here.skip(at - pos + n) =~= bytes.skip(at + n));
    }
}

/// The packet that `bytes` encode, if they encode one. No bytes encode the
/// empty packet.
pub open spec fn parse_packet(bytes: Seq<u8>) -> Option<MediaPacketView> {
    parse_packet_from(bytes, MediaPacketView::empty())
}

/// Reading a written media kind sets the kind and goes on with the rest.
proof fn lemma_media_type_written(acc: MediaPacketView, kind: MediaType, rest: Seq<u8>)
    requires
        kind.wf(),
    ensures
        parse_packet_from(int64_field(TAG_MEDIA_TYPE, kind.number() as i64) + rest, acc)
            == parse_packet_from(
            rest,
            if kind.number() == 0 {
                acc
            } else {
                MediaPacketView { media_type: kind, ..acc }
            },
        ),
{
    let n = kind.number();
    if n == 0 {
        assert(int64_field(TAG_MEDIA_TYPE, n as i64) + rest =~= rest);
    } else {
        lemma_field_shape(TAG_MEDIA_TYPE, varint(unsigned64(n as i64) as nat), rest);
        lemma_parse_int32_written(n, rest);
    }
}

/// Reading a written sender identity sets it and goes on with the rest.
proof fn lemma_email_written(acc: MediaPacketView, text: Seq<char>, rest: Seq<u8>)
    requires
        encode_utf8(text).len() <= u32::MAX,
    ensures
        parse_packet_from(text_field(TAG_EMAIL, text) + rest, acc) == parse_packet_from(
            rest,
            if text.len() == 0 {
                acc
            } else {
                MediaPacketView { email: text, ..acc }
            },
        ),
{
    if text.len() == 0 {
        assert(text_field(TAG_EMAIL, text) + rest =~= rest);
    } else {
        lemma_field_shape(TAG_EMAIL, delimited(encode_utf8(text)), rest);
        lemma_parse_text_written(text, rest);
    }
}

/// Reading a written payload sets it and goes on with the rest.
proof fn lemma_data_written(acc: MediaPacketView, data: Seq<u8>, rest: Seq<u8>)
    requires
        data.len() <= u32::MAX,
    ensures
        parse_packet_from(bytes_field(TAG_DATA, data) + rest, acc) == parse_packet_from(
            rest,
            if data.len() == 0 {
                acc
            } else {
                MediaPacketView { data: data, ..acc }
            },
        ),
{
    if data.len() == 0 {
        assert(bytes_field(TAG_DATA, data) + rest =~= rest);
    } else {
        lemma_field_shape(TAG_DATA, delimited(data), rest);
        lemma_parse_delimited32(data, rest);
    }
}

/// Reading a written frame kind token sets it and goes on with the rest.
proof fn lemma_frame_type_written(acc: MediaPacketView, text: Seq<char>, rest: Seq<u8>)
    requires
        encode_utf8(text).len() <= u32::MAX,
    ensures
        parse_packet_from(text_field(TAG_FRAME_TYPE, text) + rest, acc) == parse_packet_from(
            rest,
            if text.len() == 0 {
                acc
            } else {
                MediaPacketView { frame_type: text, ..acc }
            },
        ),
{
    if text.len() == 0 {
        assert(text_field(TAG_FRAME_TYPE, text) + rest =~= rest);
    } else {
        lemma_field_shape(TAG_FRAME_TYPE, delimited(encode_utf8(text)), rest);
        lemma_parse_text_written(text, rest);
    }
}

/// Reading a written timestamp sets it and goes on with the rest.
proof fn lemma_timestamp_written(acc: MediaPacketView, x: i64, rest: Seq<u8>)
    ensures
        parse_packet_from(int64_field(TAG_TIMESTAMP, x) + rest, acc) == parse_packet_from(
            rest,
            if x == 0 {
                acc
            } else {
                MediaPacketView { timestamp: x, ..acc }
            },
        ),
{
    if x == 0 {
        assert(int64_field(TAG_TIMESTAMP, x) + rest =~= rest);
    } else {
        lemma_field_shape(TAG_TIMESTAMP, varint(unsigned64(x) as nat), rest);
        lemma_parse_int64_written(x, rest);
    }
}

/// Reading a written duration sets it and goes on with the rest.
proof fn lemma_duration_written(acc: MediaPacketView, x: i64, rest: Seq<u8>)
    ensures
        parse_packet_from(int64_field(TAG_DURATION, x) + rest, acc) == parse_packet_from(
            rest,
            if x == 0 {
                acc
            } else {
                MediaPacketView { duration: x, ..acc }
            },
        ),
{
    if x == 0 {
        assert(int64_field(TAG_DURATION, x) + rest =~= rest);
    } else {
        lemma_field_shape(TAG_DURATION, varint(unsigned64(x) as nat), rest);
        lemma_parse_int64_written(x, rest);
    }
}

/// Reading a written metadata record sets it and goes on with the rest.
proof fn lemma_metadata_written(
    acc: MediaPacketView,
    metadata: Option<AudioMetadataView>,
    rest: Seq<u8>,
)
    requires
        metadata matches Some(m) ==> m.wf(),
    ensures
        parse_packet_from(
            message_field(
                TAG_AUDIO_METADATA,
                match metadata {
                    Some(m) => Some(encode_audio_metadata(m)),
                    None => None,
                },
            ) + rest,
            acc,
        ) == parse_packet_from(
            rest,
            match metadata {
                Some(m) => MediaPacketView { audio_metadata: Some(m), ..acc },
                None => acc,
            },
        ),
{
    match metadata {
        Some(m) => {
            let body = encode_audio_metadata(m);
            lemma_audio_metadata_len(m);
            lemma_field_shape(TAG_AUDIO_METADATA, delimited(body), rest);
            lemma_parse_delimited64(body, rest);
            lemma_audio_metadata_round_trip(m);
        },
        None => {
            assert(message_field(TAG_AUDIO_METADATA, None) + rest =~= rest);
        },
    }
}

/// Every packet that fits the wire is read back from its bytes, field for
/// field.
pub proof fn lemma_packet_round_trip(p: MediaPacketView)
    requires
        p.wf(),
    ensures
        parse_packet(encode_packet(p)) == Some(p),
{
    let metadata = message_field(TAG_AUDIO_METADATA, encode_metadata_of(p));
    let duration = int64_field(TAG_DURATION, p.duration);
    let timestamp = int64_field(TAG_TIMESTAMP, p.timestamp);
    let frame_type = text_field(TAG_FRAME_TYPE, p.frame_type);
    let data = bytes_field(TAG_DATA, p.data);
    let email = text_field(TAG_EMAIL, p.email);
    let a0 = MediaPacketView::empty();
    let a1 = if p.media_type.number() == 0 {
        a0
    } else {
        MediaPacketView { media_type: p.media_type, ..a0 }
    };
    let a2 = if p.email.len() == 0 {
        a1
    } else {
        MediaPacketView { email: p.email, ..a1 }
    };
    let a3 = if p.data.len() == 0 {
        a2
    } else {
        MediaPacketView { data: p.data, ..a2 }
    };
    let a4 = if p.frame_type.len() == 0 {
        a3
    } else {
        MediaPacketView { frame_type: p.frame_type, ..a3 }
    };
    let a5 = if p.timestamp == 0 {
        a4
    } else {
        MediaPacketView { timestamp: p.timestamp, ..a4 }
    };
    let a6 = if p.duration == 0 {
        a5
    } else {
        MediaPacketView { duration: p.duration, ..a5 }
    };
    let a7 = match p.audio_metadata {
        Some(m) => MediaPacketView { audio_metadata: Some(m), ..a6 },
        None => a6,
    };
    lemma_media_type_written(
        a0,
        p.media_type,
        email + (data + (frame_type + (timestamp + (duration + metadata)))),
    );
    lemma_email_written(a1, p.email, data + (frame_type + (timestamp + (duration + metadata))));
    lemma_data_written(a2, p.data, frame_type + (timestamp + (duration + metadata)));
    lemma_frame_type_written(a3, p.frame_type, timestamp + (duration + metadata));
    lemma_timestamp_written(a4, p.timestamp, duration + metadata);
    lemma_duration_written(a5, p.duration, metadata);
    assert(metadata =~= metadata + Seq::<u8>::empty());
    lemma_metadata_written(a6, p.audio_metadata, Seq::empty());
    assert(a7.email =~= p.email);
    assert(a7.data =~= p.data);
    assert(a7.frame_type =~= p.frame_type);
    assert(a7 == p);
}

/// What is read onto a packet that fits the wire fits the wire.
proof fn lemma_parsed_from_fits(bytes: Seq<u8>, acc: MediaPacketView)
    requires
        acc.wf(),
    ensures
        parse_packet_from(bytes, acc) matches Some(p) ==> p.wf(),
    decreases bytes.len(),
{
    if bytes.len() > 0 {
        lemma_parse_varint_bounds(bytes);
        if let Some((tag, n)) = parse_varint32(bytes) {
            let value = bytes.skip(n as int);
            lemma_packet_field_bounds(acc, tag, value);
            lemma_parsed_text_fits(value);
            if let Some((payload, _)) = parse_delimited64(value) {
                lemma_parsed_audio_metadata_fits(payload);
            }
            if let Some((next, m)) = packet_field(acc, tag, value) {
                lemma_parsed_from_fits(bytes.skip((n + m) as int), next);
            }
        }
    }
}

/// Every packet that is read fits the wire, so writing it and reading it
/// again gives the same packet.
pub proof fn lemma_parsed_packet_fits(bytes: Seq<u8>)
    ensures
        parse_packet(bytes) matches Some(p) ==> p.wf() && parse_packet(encode_packet(p)) == Some(
            p,
        ),
{
    assert(encode_utf8(Seq::<char>::empty()) =~= Seq::<u8>::empty());
    lemma_parsed_from_fits(bytes, MediaPacketView::empty());
    if let Some(p) = parse_packet(bytes) {
        lemma_packet_round_trip(p);
    }
}

impl Default for MediaPacket {
    fn default() -> (r: Self)
        ensures
            r@ == MediaPacketView::empty(),
    {
        MediaPacket {
            media_type: MediaType::VIDEO,
            email: String::new(),
            data: Vec::new(),
            frame_type: String::new(),
            timestamp: 0,
            duration: 0,
            audio_metadata: None,
        }
    }
}

impl Clone for MediaPacket {
    fn clone(&self) -> (r: Self)
        ensures
            r@ == self@,
    {
        MediaPacket {
            media_type: self.media_type,
            email: self.email.clone(),
            data: self.data.clone(),
            frame_type: self.frame_type.clone(),
            timestamp: self.timestamp,
            duration: self.duration,
            audio_metadata: match &self.audio_metadata {
                Some(m) => Some(m.clone()),
                None => None,
            },
        }
    }
}

/// Seven pieces put together from the left are the same bytes as the pieces
/// put together from the right.
proof fn lemma_pieces(a: Seq<u8>, b: Seq<u8>, c: Seq<u8>, d: Seq<u8>, e: Seq<u8>, f: Seq<u8>, g: Seq<u8>)
    ensures
        ((((((Seq::<u8>::empty() + a) + b) + c) + d) + e) + f) + g == a + (b + (c + (d + (e + (f
            + g))))),
{
    let left = ((((((Seq::<u8>::empty() + a) + b) + c) + d) + e) + f) + g;
    let right = a + (b + (c + (d + (e + (f + g)))));
    assert(left =~= right);
}

impl MediaPacket {
    /// The bytes of this packet. A packet that fits the wire is read back
    /// from them.
    pub fn write_to_bytes(&self) -> (out: Vec<u8>)
        ensures
            out@ == encode_packet(self@),
            self@.wf() ==> parse_packet(out@) == Some(self@),
    {
        let mut out: Vec<u8> = Vec::new();
        assert(out@ =~= Seq::<u8>::empty());
        put_int64(&mut out, TAG_MEDIA_TYPE, self.media_type.value() as i64);
        put_text(&mut out, TAG_EMAIL, self.email.as_str());
        put_bytes(&mut out, TAG_DATA, self.data.as_slice());
        put_text(&mut out, TAG_FRAME_TYPE, self.frame_type.as_str());
        put_int64(&mut out, TAG_TIMESTAMP, self.timestamp);
        put_int64(&mut out, TAG_DURATION, self.duration);
        let ghost before = out@;
        match &self.audio_metadata {
            Some(m) => {
                let body = m.write_to_bytes();
                put_message(&mut out, TAG_AUDIO_METADATA, body.as_slice());
            },
            None => {
                assert(out@ =~= before + message_field(TAG_AUDIO_METADATA, None));
            },
        }
        proof {
            let p = self@;
            assert(out@ == before + message_field(TAG_AUDIO_METADATA, encode_metadata_of(p)));
            if p.wf() {
                lemma_packet_round_trip(p);
            }
            lemma_pieces(
                int64_field(TAG_MEDIA_TYPE, p.media_type.number() as i64),
                text_field(TAG_EMAIL, p.email),
                bytes_field(TAG_DATA, p.data),
                text_field(TAG_FRAME_TYPE, p.frame_type),
                int64_field(TAG_TIMESTAMP, p.timestamp),
                int64_field(TAG_DURATION, p.duration),
                message_field(TAG_AUDIO_METADATA, encode_metadata_of(p)),
            );
        }
        out
    }

    /// Reads the value at `at` of the field with tag `tag` into this packet.
    /// Gives the position after the value.
    fn merge_field(&mut self, bytes: &[u8], at: usize, tag: u32) -> (r: Option<usize>)
        requires
            at <= bytes.len(),
        ensures
            match packet_field(old(self)@, tag, bytes@.skip(at as int)) {
                Some((read, n)) => r == Some((at + n) as usize) && at + n <= bytes.len()
                    && final(self)@ == read,
                None => r is None,
            },
    {
        if tag == TAG_MEDIA_TYPE {
            match read_int32(bytes, at) {
                Some((v, after)) => {
                    self.media_type = MediaType::from_i32(v);
                    Some(after)
                },
                None => None,
            }
        } else if tag == TAG_EMAIL {
            match read_text(bytes, at) {
                Some((text, after)) => {
                    self.email = text;
                    Some(after)
                },
                None => None,
            }
        } else if tag == TAG_DATA {
            match read_delimited32(bytes, at) {
                Some((start, end)) => {
                    self.data = slice_to_vec(slice_subrange(bytes, start, end));
                    Some(end)
                },
                None => None,
            }
        } else if tag == TAG_FRAME_TYPE {
            match read_text(bytes, at) {
                Some((text, after)) => {
                    self.frame_type = text;
                    Some(after)
                },
                None => None,
            }
        } else if tag == TAG_TIMESTAMP {
            match read_int64(bytes, at) {
                Some((v, after)) => {
                    self.timestamp = v;
                    Some(after)
                },
                None => None,
            }
        } else if tag == TAG_DURATION {
            match read_int64(bytes, at) {
                Some((v, after)) => {
                    self.duration = v;
                    Some(after)
                },
                None => None,
            }
        } else if tag == TAG_AUDIO_METADATA {
            match read_delimited64(bytes, at) {
                Some((start, end)) => {
                    match AudioMetadata::parse_from_bytes(slice_subrange(bytes, start, end)) {
                        Ok(m) => {
                            self.audio_metadata = Some(m);
                            Some(end)
                        },
                        Err(_) => None,
                    }
                },
                None => None,
            }
        } else {
            skip_unknown_field(bytes, at, tag)
        }
    }

    /// Reads a packet from its bytes. The bytes are refused as malformed
    /// exactly when they do not encode a packet; nothing is put in their
    /// place. A packet that was read fits the wire.
    pub fn parse_from_bytes(bytes: &[u8]) -> (r: Result<MediaPacket, ModelError>)
        ensures
            match parse_packet(bytes@) {
                Some(p) => r matches Ok(read) && read@ == p && read@.wf(),
                None => r matches Err(e) && e == ModelError::MalformedPacket,
            },
    {
        proof {
            lemma_parsed_packet_fits(bytes@);
        }
        let mut packet = MediaPacket::default();
        let mut pos: usize = 0;
        assert(bytes@.skip(0) =~= bytes@);
        while pos < bytes.len()
            invariant
                pos <= bytes.len(),
                parse_packet_from(bytes@.skip(pos as int), packet@) == parse_packet(bytes@),
            decreases bytes.len() - pos,
        {
            let ghost acc = packet@;
            proof {
                lemma_parse_varint_bounds(bytes@.skip(pos as int));
            }
            let (tag, at) = match read_varint32(bytes, pos) {
                Some(found) => found,
                None => {
                    return Err(ModelError::MalformedPacket);
                },
            };
            proof {
                lemma_parse_packet_step(bytes@, acc, pos as int, at as int, tag);
            }
            let next = match packet.merge_field(bytes, at, tag) {
                Some(after) => after,
                None => {
                    return Err(ModelError::MalformedPacket);
                },
            };
            pos = next;
        }
        assert(bytes@.skip(pos as int).len() == 0);
        Ok(packet)
    }
}

/// What came over the socket, as a packet.
#[derive(Debug, PartialEq, Eq)]
pub struct MediaPacketWrapper(pub MediaPacket);

impl MediaPacketWrapper {
    /// A text frame carries no packet: whatever it says, the result holds
    /// the empty packet.
    pub fn from_text(_text: Option<String>) -> (r: Self)
        ensures
            r.0@ == MediaPacketView::empty(),
    {
        MediaPacketWrapper(MediaPacket::default())
    }

    /// A binary frame carries the bytes of a packet. Without bytes the
    /// result holds the empty packet; bytes that do not encode a packet are
    /// refused as malformed.
    pub fn from_binary(bin: Option<Vec<u8>>) -> (r: Result<Self, ModelError>)
        ensures
            match bin {
                Some(data) => match parse_packet(data@) {
                    Some(p) => r matches Ok(w) && w.0@ == p && w.0@.wf(),
                    None => r matches Err(e) && e == ModelError::MalformedPacket,
                },
                None => r matches Ok(w) && w.0@ == MediaPacketView::empty(),
            },
    {
        match bin {
            Some(data) => match MediaPacket::parse_from_bytes(data.as_slice()) {
                Ok(packet) => Ok(MediaPacketWrapper(packet)),
                Err(e) => Err(e),
            },
            None => Ok(MediaPacketWrapper(MediaPacket::default())),
        }
    }
}

} // verus!

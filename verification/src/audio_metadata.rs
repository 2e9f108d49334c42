//! The record that an audio packet carries about its samples.

use crate::fields::{
    lemma_field_shape, lemma_parse_text_written, lemma_parse_uint32_written,
    lemma_parsed_text_fits, parse_text, put_text, put_uint64, read_text, text_field,
    uint64_field,
};
use crate::kinds::ModelError;
use crate::varint::{
    lemma_parse_varint_bounds, lemma_varint_width, parse_varint32, read_varint32, varint,
};
use crate::wire::{delimited, skip_unknown, skip_unknown_field};
use vstd::prelude::*;
use vstd::utf8::encode_utf8;

verus! {

/// Tag of the format token: field 1, length-delimited.
pub const TAG_AUDIO_FORMAT: u32 = 10;

/// Tag of the channel count: field 2, a number.
pub const TAG_AUDIO_NUMBER_OF_CHANNELS: u32 = 16;

/// Tag of the frame count: field 3, a number.
pub const TAG_AUDIO_NUMBER_OF_FRAMES: u32 = 24;

/// Tag of the sample rate: field 4, a number.
pub const TAG_AUDIO_SAMPLE_RATE: u32 = 32;

/// What a receiver needs to know to play the samples of an audio packet.
#[derive(Debug, PartialEq, Eq)]
pub struct AudioMetadata {
    /// Token of the sample format.
    pub audio_format: String,
    pub audio_number_of_channels: u32,
    pub audio_number_of_frames: u32,
    /// Samples per second.
    pub audio_sample_rate: u32,
}

/// An audio metadata record as a mathematical value.
pub struct AudioMetadataView {
    pub audio_format: Seq<char>,
    pub audio_number_of_channels: u32,
    pub audio_number_of_frames: u32,
    pub audio_sample_rate: u32,
}

impl View for AudioMetadata {
    type V = AudioMetadataView;

    open spec fn view(&self) -> AudioMetadataView {
        AudioMetadataView {
            audio_format: self.audio_format@,
            audio_number_of_channels: self.audio_number_of_channels,
            audio_number_of_frames: self.audio_number_of_frames,
            audio_sample_rate: self.audio_sample_rate,
        }
    }
}

impl AudioMetadataView {
    /// The record with every field at its default.
    pub open spec fn empty() -> AudioMetadataView {
        AudioMetadataView {
            audio_format: Seq::empty(),
            audio_number_of_channels: 0,
            audio_number_of_frames: 0,
            audio_sample_rate: 0,
        }
    }

    /// The record fits the wire: the format token is shorter than 2^32 bytes.
    pub open spec fn wf(self) -> bool {
        encode_utf8(self.audio_format).len() <= u32::MAX
    }
}

/// The bytes of a record: its fields in the order of their numbers.
pub open spec fn encode_audio_metadata(m: AudioMetadataView) -> Seq<u8> {
    text_field(TAG_AUDIO_FORMAT, m.audio_format) + (uint64_field(
        TAG_AUDIO_NUMBER_OF_CHANNELS,
        m.audio_number_of_channels as u64,
    ) + (uint64_field(TAG_AUDIO_NUMBER_OF_FRAMES, m.audio_number_of_frames as u64) + uint64_field(
        TAG_AUDIO_SAMPLE_RATE,
        m.audio_sample_rate as u64,
    )))
}

/// What one field does to the record read so far, and the bytes its value
/// takes. A field that the record does not have is stepped over.
pub open spec fn audio_metadata_field(acc: AudioMetadataView, tag: u32, bytes: Seq<u8>) -> Option<
    (AudioMetadataView, nat),
> {
    if tag == TAG_AUDIO_FORMAT {
        match parse_text(bytes) {
            Some((text, n)) => Some((AudioMetadataView { audio_format: text, ..acc }, n)),
            None => None,
        }
    } else if tag == TAG_AUDIO_NUMBER_OF_CHANNELS {
        match parse_varint32(bytes) {
            Some((v, n)) => Some((AudioMetadataView { audio_number_of_channels: v, ..acc }, n)),
            None => None,
        }
    } else if tag == TAG_AUDIO_NUMBER_OF_FRAMES {
        match parse_varint32(bytes) {
            Some((v, n)) => Some((AudioMetadataView { audio_number_of_frames: v, ..acc }, n)),
            None => None,
        }
    } else if tag == TAG_AUDIO_SAMPLE_RATE {
        match parse_varint32(bytes) {
            Some((v, n)) => Some((AudioMetadataView { audio_sample_rate: v, ..acc }, n)),
            None => None,
        }
    } else {
        match skip_unknown(tag, bytes) {
            Some(n) => Some((acc, n)),
            None => None,
        }
    }
}

/// The record that `bytes` add to `acc`: field after field until the bytes
/// end, a later value of a field replacing an earlier one. `None` where a
/// tag or a value cannot be read.
pub open spec fn parse_audio_metadata_from(bytes: Seq<u8>, acc: AudioMetadataView) -> Option<
    AudioMetadataView,
>
    decreases bytes.len(),
    via parse_audio_metadata_from_decreases
{
    if bytes.len() == 0 {
        Some(acc)
    } else {
        match parse_varint32(bytes) {
            Some((tag, n)) => match audio_metadata_field(acc, tag, bytes.skip(n as int)) {
                Some((next, m)) => parse_audio_metadata_from(bytes.skip((n + m) as int), next),
                None => None,
            },
            None => None,
        }
    }
}

#[via_fn]
proof fn parse_audio_metadata_from_decreases(bytes: Seq<u8>, acc: AudioMetadataView) {
    lemma_parse_varint_bounds(bytes);
    if let Some((tag, n)) = parse_varint32(bytes) {
        lemma_audio_metadata_field_bounds(acc, tag, bytes.skip(n as int));
    }
}

/// One step of reading, at a position within the bytes: a tag that ends at
/// `at`, and then the field's value.
proof fn lemma_parse_audio_metadata_step(
    bytes: Seq<u8>,
    acc: AudioMetadataView,
    pos: int,
    at: int,
    tag: u32,
)
    requires
        0 <= pos < at <= bytes.len(),
        parse_varint32(bytes.skip(pos)) == Some((tag, (at - pos) as nat)),
    ensures
        match audio_metadata_field(acc, tag, bytes.skip(at)) {
            Some((read, n)) => at + n <= bytes.len() && parse_audio_metadata_from(
                bytes.skip(pos),
                acc,
            ) == parse_audio_metadata_from(bytes.skip(at + n), read),
            None => parse_audio_metadata_from(bytes.skip(pos), acc) is None,
        },
{
    let here = bytes.skip(pos);
    assert(here.len() > 0);
    assert(here.skip(at - pos) =~= bytes.skip(at));
    lemma_audio_metadata_field_bounds(acc, tag, bytes.skip(at));
    if let Some((read, n)) = audio_metadata_field(acc, tag, bytes.skip(at)) {
        assert(here.skip(at - pos + n) =~= bytes.skip(at + n));
    }
}

/// The record that `bytes` encode, if they encode one.
pub open spec fn parse_audio_metadata(bytes: Seq<u8>) -> Option<AudioMetadataView> {
    parse_audio_metadata_from(bytes, AudioMetadataView::empty())
}

/// A field's value ends within the bytes.
pub proof fn lemma_audio_metadata_field_bounds(acc: AudioMetadataView, tag: u32, bytes: Seq<u8>)
    ensures
        audio_metadata_field(acc, tag, bytes) matches Some((_, n)) ==> n <= bytes.len(),
{
    lemma_parse_varint_bounds(bytes);
}

/// Reading a written format token sets the token and goes on with the rest.
proof fn lemma_format_written(acc: AudioMetadataView, text: Seq<char>, rest: Seq<u8>)
    requires
        encode_utf8(text).len() <= u32::MAX,
    ensures
        parse_audio_metadata_from(text_field(TAG_AUDIO_FORMAT, text) + rest, acc)
            == parse_audio_metadata_from(
            rest,
            if text.len() == 0 {
                acc
            } else {
                AudioMetadataView { audio_format: text, ..acc }
            },
        ),
{
    if text.len() == 0 {
        assert(text_field(TAG_AUDIO_FORMAT, text) + rest =~= rest);
    } else {
        let value = delimited(encode_utf8(text));
        lemma_field_shape(TAG_AUDIO_FORMAT, value, rest);
        lemma_parse_text_written(text, rest);
    }
}

/// Reading a written channel count sets the count and goes on with the rest.
proof fn lemma_channels_written(acc: AudioMetadataView, v: u32, rest: Seq<u8>)
    ensures
        parse_audio_metadata_from(
            uint64_field(TAG_AUDIO_NUMBER_OF_CHANNELS, v as u64) + rest,
            acc,
        ) == parse_audio_metadata_from(
            rest,
            if v == 0 {
                acc
            } else {
                AudioMetadataView { audio_number_of_channels: v, ..acc }
            },
        ),
{
    if v == 0 {
        assert(uint64_field(TAG_AUDIO_NUMBER_OF_CHANNELS, v as u64) + rest =~= rest);
    } else {
        lemma_field_shape(TAG_AUDIO_NUMBER_OF_CHANNELS, varint(v as nat), rest);
        lemma_parse_uint32_written(v, rest);
    }
}

/// Reading a written frame count sets the count and goes on with the rest.
proof fn lemma_frames_written(acc: AudioMetadataView, v: u32, rest: Seq<u8>)
    ensures
        parse_audio_metadata_from(uint64_field(TAG_AUDIO_NUMBER_OF_FRAMES, v as u64) + rest, acc)
            == parse_audio_metadata_from(
            rest,
            if v == 0 {
                acc
            } else {
                AudioMetadataView { audio_number_of_frames: v, ..acc }
            },
        ),
{
    if v == 0 {
        assert(uint64_field(TAG_AUDIO_NUMBER_OF_FRAMES, v as u64) + rest =~= rest);
    } else {
        lemma_field_shape(TAG_AUDIO_NUMBER_OF_FRAMES, varint(v as nat), rest);
        lemma_parse_uint32_written(v, rest);
    }
}

/// Reading a written sample rate sets the rate and goes on with the rest.
proof fn lemma_sample_rate_written(acc: AudioMetadataView, v: u32, rest: Seq<u8>)
    ensures
        parse_audio_metadata_from(uint64_field(TAG_AUDIO_SAMPLE_RATE, v as u64) + rest, acc)
            == parse_audio_metadata_from(
            rest,
            if v == 0 {
                acc
            } else {
                AudioMetadataView { audio_sample_rate: v, ..acc }
            },
        ),
{
    if v == 0 {
        assert(uint64_field(TAG_AUDIO_SAMPLE_RATE, v as u64) + rest =~= rest);
    } else {
        lemma_field_shape(TAG_AUDIO_SAMPLE_RATE, varint(v as nat), rest);
        lemma_parse_uint32_written(v, rest);
    }
}

/// The bytes of a record that fits the wire can be counted in 64 bits.
pub proof fn lemma_audio_metadata_len(m: AudioMetadataView)
    requires
        m.wf(),
    ensures
        encode_audio_metadata(m).len() <= u64::MAX,
{
    lemma_varint_width(TAG_AUDIO_FORMAT as nat);
    lemma_varint_width(TAG_AUDIO_NUMBER_OF_CHANNELS as nat);
    lemma_varint_width(TAG_AUDIO_NUMBER_OF_FRAMES as nat);
    lemma_varint_width(TAG_AUDIO_SAMPLE_RATE as nat);
    lemma_varint_width(encode_utf8(m.audio_format).len());
    lemma_varint_width(m.audio_number_of_channels as nat);
    lemma_varint_width(m.audio_number_of_frames as nat);
    lemma_varint_width(m.audio_sample_rate as nat);
}

/// Every record that fits the wire is read back from its bytes, field for
/// field.
pub proof fn lemma_audio_metadata_round_trip(m: AudioMetadataView)
    requires
        m.wf(),
    ensures
        parse_audio_metadata(encode_audio_metadata(m)) == Some(m),
{
    let rate = uint64_field(TAG_AUDIO_SAMPLE_RATE, m.audio_sample_rate as u64);
    let frames = uint64_field(TAG_AUDIO_NUMBER_OF_FRAMES, m.audio_number_of_frames as u64);
    let channels = uint64_field(TAG_AUDIO_NUMBER_OF_CHANNELS, m.audio_number_of_channels as u64);
    let start = AudioMetadataView::empty();
    let with_format = if m.audio_format.len() == 0 {
        start
    } else {
        AudioMetadataView { audio_format: m.audio_format, ..start }
    };
    let with_channels = if m.audio_number_of_channels == 0 {
        with_format
    } else {
        AudioMetadataView { audio_number_of_channels: m.audio_number_of_channels, ..with_format }
    };
    let with_frames = if m.audio_number_of_frames == 0 {
        with_channels
    } else {
        AudioMetadataView { audio_number_of_frames: m.audio_number_of_frames, ..with_channels }
    };
    let with_rate = if m.audio_sample_rate == 0 {
        with_frames
    } else {
        AudioMetadataView { audio_sample_rate: m.audio_sample_rate, ..with_frames }
    };
    lemma_format_written(start, m.audio_format, channels + (frames + rate));
    lemma_channels_written(with_format, m.audio_number_of_channels, frames + rate);
    lemma_frames_written(with_channels, m.audio_number_of_frames, rate);
    assert(rate =~= rate + Seq::<u8>::empty());
    lemma_sample_rate_written(with_frames, m.audio_sample_rate, Seq::empty());
    assert(with_rate.audio_format =~= m.audio_format);
    assert(with_rate == m);
}

/// What is read onto a record that fits the wire fits the wire.
proof fn lemma_parsed_from_fits(bytes: Seq<u8>, acc: AudioMetadataView)
    requires
        acc.wf(),
    ensures
        parse_audio_metadata_from(bytes, acc) matches Some(m) ==> m.wf(),
    decreases bytes.len(),
{
    if bytes.len() > 0 {
        lemma_parse_varint_bounds(bytes);
        if let Some((tag, n)) = parse_varint32(bytes) {
            let value = bytes.skip(n as int);
            lemma_audio_metadata_field_bounds(acc, tag, value);
            lemma_parsed_text_fits(value);
            if let Some((next, m)) = audio_metadata_field(acc, tag, value) {
                lemma_parsed_from_fits(bytes.skip((n + m) as int), next);
            }
        }
    }
}

/// Every record that is read fits the wire, so writing it and reading it
/// again gives the same record.
pub proof fn lemma_parsed_audio_metadata_fits(bytes: Seq<u8>)
    ensures
        parse_audio_metadata(bytes) matches Some(m) ==> m.wf() && parse_audio_metadata(
            encode_audio_metadata(m),
        ) == Some(m),
{
    assert(encode_utf8(Seq::<char>::empty()) =~= Seq::<u8>::empty());
    lemma_parsed_from_fits(bytes, AudioMetadataView::empty());
    if let Some(m) = parse_audio_metadata(bytes) {
        lemma_audio_metadata_round_trip(m);
    }
}

impl Clone for AudioMetadata {
    fn clone(&self) -> (r: Self)
        ensures
            r@ == self@,
    {
        AudioMetadata {
            audio_format: self.audio_format.clone(),
            audio_number_of_channels: self.audio_number_of_channels,
            audio_number_of_frames: self.audio_number_of_frames,
            audio_sample_rate: self.audio_sample_rate,
        }
    }
}

impl Default for AudioMetadata {
    fn default() -> (r: Self)
        ensures
            r@ == AudioMetadataView::empty(),
    {
        AudioMetadata {
            audio_format: String::new(),
            audio_number_of_channels: 0,
            audio_number_of_frames: 0,
            audio_sample_rate: 0,
        }
    }
}

impl AudioMetadata {
    /// The bytes of this record. A record that fits the wire is read back
    /// from them.
    pub fn write_to_bytes(&self) -> (out: Vec<u8>)
        ensures
            out@ == encode_audio_metadata(self@),
            self@.wf() ==> parse_audio_metadata(out@) == Some(self@),
    {
        proof {
            if self@.wf() {
                lemma_audio_metadata_round_trip(self@);
            }
        }
        let mut out: Vec<u8> = Vec::new();
        put_text(&mut out, TAG_AUDIO_FORMAT, self.audio_format.as_str());
        put_uint64(&mut out, TAG_AUDIO_NUMBER_OF_CHANNELS, self.audio_number_of_channels as u64);
        put_uint64(&mut out, TAG_AUDIO_NUMBER_OF_FRAMES, self.audio_number_of_frames as u64);
        put_uint64(&mut out, TAG_AUDIO_SAMPLE_RATE, self.audio_sample_rate as u64);
        assert(out@ =~= encode_audio_metadata(self@));
        out
    }

    /// Reads the value at `at` of the field with tag `tag` into this record.
    /// Gives the position after the value.
    fn merge_field(&mut self, bytes: &[u8], at: usize, tag: u32) -> (r: Option<usize>)
        requires
            at <= bytes.len(),
        ensures
            match audio_metadata_field(old(self)@, tag, bytes@.skip(at as int)) {
                Some((read, n)) => r == Some((at + n) as usize) && at + n <= bytes.len()
                    && final(self)@ == read,
                None => r is None,
            },
    {
        if tag == TAG_AUDIO_FORMAT {
            match read_text(bytes, at) {
                Some((text, after)) => {
                    self.audio_format = text;
                    Some(after)
                },
                None => None,
            }
        } else if tag == TAG_AUDIO_NUMBER_OF_CHANNELS {
            match read_varint32(bytes, at) {
                Some((v, after)) => {
                    self.audio_number_of_channels = v;
                    Some(after)
                },
                None => None,
            }
        } else if tag == TAG_AUDIO_NUMBER_OF_FRAMES {
            match read_varint32(bytes, at) {
                Some((v, after)) => {
                    self.audio_number_of_frames = v;
                    Some(after)
                },
                None => None,
            }
        } else if tag == TAG_AUDIO_SAMPLE_RATE {
            match read_varint32(bytes, at) {
                Some((v, after)) => {
                    self.audio_sample_rate = v;
                    Some(after)
                },
                None => None,
            }
        } else {
            skip_unknown_field(bytes, at, tag)
        }
    }

    /// Reads a record from its bytes. The bytes are refused as malformed
    /// exactly when they do not encode a record. A record that was read
    /// fits the wire.
    pub fn parse_from_bytes(bytes: &[u8]) -> (r: Result<AudioMetadata, ModelError>)
        ensures
            match parse_audio_metadata(bytes@) {
                Some(m) => r matches Ok(read) && read@ == m && read@.wf(),
                None => r matches Err(e) && e == ModelError::MalformedPacket,
            },
    {
        proof {
            lemma_parsed_audio_metadata_fits(bytes@);
        }
        let mut record = AudioMetadata::default();
        let mut pos: usize = 0;
        assert(bytes@.skip(0) =~= bytes@);
        while pos < bytes.len()
            invariant
                pos <= bytes.len(),
                parse_audio_metadata_from(bytes@.skip(pos as int), record@)
                    == parse_audio_metadata(bytes@),
            decreases bytes.len() - pos,
        {
            let ghost acc = record@;
            proof {
                lemma_parse_varint_bounds(bytes@.skip(pos as int));
            }
            let (tag, at) = match read_varint32(bytes, pos) {
                Some(found) => found,
                None => {
                    return Err(ModelError::MalformedPacket);
                },
            };
            proof {
                lemma_parse_audio_metadata_step(bytes@, acc, pos as int, at as int, tag);
            }
            let next = match record.merge_field(bytes, at, tag) {
                Some(after) => after,
                None => {
                    return Err(ModelError::MalformedPacket);
                },
            };
            pos = next;
        }
        assert(bytes@.skip(pos as int).len() == 0);
        Ok(record)
    }
}

} // verus!

//! Captured media units and the packets made from them.
//!
//! The capture pipeline hands over one encoded video chunk or one raw audio
//! frame, a scratch buffer at least as long as the unit's bytes, and the
//! identity of the sender. The bytes pass through the scratch buffer; the
//! packet takes exactly as many of them as the unit has, whatever the
//! buffer holds beyond.

use crate::audio_metadata::{AudioMetadata, AudioMetadataView};
use crate::kinds::{
    lemma_tokens_are_short, AudioSampleFormat, AudioSampleFormatWrapper, EncodedVideoChunkType,
    EncodedVideoChunkTypeWrapper,
};
use crate::packet::{MediaPacket, MediaPacketView, MediaType};
use vstd::prelude::*;
use vstd::slice::{slice_subrange, slice_to_vec};
use vstd::utf8::encode_utf8;

verus! {

/// One encoded video chunk as the capture pipeline reports it.
#[derive(Debug, PartialEq, Eq)]
pub struct EncodedVideoChunk {
    pub chunk_type: EncodedVideoChunkType,
    /// Capture time, in units of the capture clock.
    pub timestamp: i64,
    /// Not every source reports one.
    pub duration: Option<i64>,
    /// The encoded bytes.
    pub data: Vec<u8>,
}

/// One raw audio frame as the capture pipeline reports it.
#[derive(Debug, PartialEq, Eq)]
pub struct AudioData {
    pub format: AudioSampleFormat,
    pub number_of_channels: u32,
    pub number_of_frames: u32,
    /// Samples per second.
    pub sample_rate: u32,
    /// The samples, as the bytes of a copy of the whole frame.
    pub data: Vec<u8>,
}

/// Copies `source` to the front of `destination` and leaves the rest of
/// `destination` as it was.
pub fn copy_to_front(source: &[u8], destination: &mut [u8])
    requires
        source@.len() <= old(destination)@.len(),
    ensures
        final(destination)@ == source@ + old(destination)@.skip(source@.len() as int),
{
    let mut i: usize = 0;
    while i < source.len()
        invariant
            i <= source.len() <= destination.len(),
            destination@.len() == old(destination)@.len(),
            destination@ =~= source@.take(i as int) + old(destination)@.skip(i as int),
        decreases source.len() - i,
    {
        destination[i] = source[i];
        i += 1;
    }
    assert(source@.take(source@.len() as int) =~= source@);
}

impl EncodedVideoChunk {
    /// The number of encoded bytes.
    pub fn byte_length(&self) -> (n: usize)
        ensures
            n == self.data@.len(),
    {
        self.data.len()
    }

    /// Copies the encoded bytes to the front of `destination`.
    pub fn copy_to(&self, destination: &mut [u8])
        requires
            self.data@.len() <= old(destination)@.len(),
        ensures
            final(destination)@ == self.data@ + old(destination)@.skip(self.data@.len() as int),
    {
        copy_to_front(self.data.as_slice(), destination);
    }
}

impl AudioData {
    /// The number of bytes that a copy of the whole frame takes.
    pub fn allocation_size(&self) -> (n: usize)
        ensures
            n == self.data@.len(),
    {
        self.data.len()
    }

    /// Copies the samples to the front of `destination`.
    pub fn copy_to(&self, destination: &mut [u8])
        requires
            self.data@.len() <= old(destination)@.len(),
        ensures
            final(destination)@ == self.data@ + old(destination)@.skip(self.data@.len() as int),
    {
        copy_to_front(self.data.as_slice(), destination);
    }
}

/// The packet that carries a video chunk.
pub open spec fn video_packet(chunk: EncodedVideoChunk, email: Seq<char>) -> MediaPacketView {
    MediaPacketView {
        media_type: MediaType::VIDEO,
        email: email,
        data: chunk.data@,
        frame_type: chunk.chunk_type.token(),
        timestamp: chunk.timestamp,
        duration: match chunk.duration {
            Some(d) => d,
            None => 0,
        },
        audio_metadata: None,
    }
}

/// The packet that carries an audio frame. It has no frame kind, time or
/// duration; what the receiver needs stands in the metadata record.
pub open spec fn audio_packet(frame: AudioData, email: Seq<char>) -> MediaPacketView {
    MediaPacketView {
        media_type: MediaType::AUDIO,
        email: email,
        data: frame.data@,
        frame_type: Seq::empty(),
        timestamp: 0,
        duration: 0,
        audio_metadata: Some(
            AudioMetadataView {
                audio_format: frame.format.token(),
                audio_number_of_channels: frame.number_of_channels,
                audio_number_of_frames: frame.number_of_frames,
                audio_sample_rate: frame.sample_rate,
            },
        ),
    }
}

/// The packet of a video chunk names the chunk's kind, has no metadata, and
/// fits the wire when the sender's identity and the chunk's bytes do.
pub proof fn lemma_video_packet(chunk: EncodedVideoChunk, email: Seq<char>)
    ensures
        EncodedVideoChunkType::of_token(video_packet(chunk, email).frame_type) == chunk.chunk_type,
        video_packet(chunk, email).metadata_matches_kind(),
        encode_utf8(email).len() <= u32::MAX && chunk.data@.len() <= u32::MAX ==> video_packet(
            chunk,
            email,
        ).wf(),
{
    chunk.chunk_type.lemma_token_round_trip();
    lemma_tokens_are_short();
}

/// The packet of an audio frame names the frame's sample format in its
/// metadata, and fits the wire when the sender's identity and the frame's
/// bytes do.
pub proof fn lemma_audio_packet(frame: AudioData, email: Seq<char>)
    ensures
        audio_packet(frame, email).audio_metadata matches Some(m) && AudioSampleFormat::of_token(
            m.audio_format,
        ) == Some(frame.format),
        audio_packet(frame, email).metadata_matches_kind(),
        encode_utf8(email).len() <= u32::MAX && frame.data@.len() <= u32::MAX ==> audio_packet(
            frame,
            email,
        ).wf(),
{
    frame.format.lemma_token_round_trip();
    lemma_tokens_are_short();
    assert(encode_utf8(Seq::<char>::empty()) =~= Seq::<u8>::empty());
}

/// Makes the packet for a video chunk. The chunk's bytes are copied to the
/// front of `buffer`, and the payload is exactly those bytes: the front of
/// the buffer as long as the chunk, not the buffer.
pub fn transform_video_chunk(chunk: EncodedVideoChunk, buffer: &mut [u8], email: Box<String>) -> (packet:
    MediaPacket)
    requires
        chunk.data@.len() <= old(buffer)@.len(),
    ensures
        packet@ == video_packet(chunk, email@),
        final(buffer)@ == chunk.data@ + old(buffer)@.skip(chunk.data@.len() as int),
        packet.data@ == final(buffer)@.take(chunk.data@.len() as int),
        chunk.duration is None ==> packet.duration == 0,
        EncodedVideoChunkType::of_token(packet.frame_type@) == chunk.chunk_type,
        packet@.metadata_matches_kind(),
{
    proof {
        lemma_video_packet(chunk, email@);
    }
    let mut media_packet = MediaPacket::default();
    media_packet.email = (*email).clone();
    let byte_length = chunk.byte_length();
    chunk.copy_to(buffer);
    media_packet.data = slice_to_vec(slice_subrange(buffer, 0, byte_length));
    media_packet.frame_type = EncodedVideoChunkTypeWrapper(chunk.chunk_type).to_string();
    media_packet.media_type = MediaType::VIDEO;
    media_packet.timestamp = chunk.timestamp;
    if let Some(duration0) = chunk.duration {
        media_packet.duration = duration0;
    }
    assert(buffer@.take(byte_length as int) =~= chunk.data@);
    media_packet
}

/// Makes the packet for an audio frame. The frame's samples are copied to
/// the front of `buffer`, and the payload is exactly those bytes: the front
/// of the buffer as long as the copy, not the buffer.
pub fn transform_audio_chunk(audio_frame: &AudioData, buffer: &mut [u8], email: &String) -> (packet:
    MediaPacket)
    requires
        audio_frame.data@.len() <= old(buffer)@.len(),
    ensures
        packet@ == audio_packet(*audio_frame, email@),
        final(buffer)@ == audio_frame.data@ + old(buffer)@.skip(audio_frame.data@.len() as int),
        packet.data@ == final(buffer)@.take(audio_frame.data@.len() as int),
        packet@.metadata_matches_kind(),
{
    proof {
        lemma_audio_packet(*audio_frame, email@);
    }
    let byte_length = audio_frame.allocation_size();
    audio_frame.copy_to(buffer);
    let mut packet = MediaPacket::default();
    packet.email = email.clone();
    packet.media_type = MediaType::AUDIO;
    packet.data = slice_to_vec(slice_subrange(buffer, 0, byte_length));
    let mut audio_metadata = AudioMetadata::default();
    audio_metadata.audio_format = AudioSampleFormatWrapper(audio_frame.format).to_string();
    audio_metadata.audio_number_of_channels = audio_frame.number_of_channels;
    audio_metadata.audio_number_of_frames = audio_frame.number_of_frames;
    audio_metadata.audio_sample_rate = audio_frame.sample_rate;
    packet.audio_metadata = Some(audio_metadata);
    assert(buffer@.take(byte_length as int) =~= audio_frame.data@);
    packet
}

} // verus!

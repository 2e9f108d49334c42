//! Kinds and formats, each with the token that names it on the wire.
//!
//! A chunk is a key frame or a delta against earlier state; a raw audio frame
//! has one of eight sample layouts. Each enumeration is closed, and each has
//! a wrapper that converts between the value and its token.

use crate::text::same_text;
use vstd::prelude::*;
use vstd::std_specs::convert::{FromSpecImpl, TryFromSpecImpl};
use vstd::utf8::{encode_utf8, is_ascii_chars, is_ascii_chars_encode_utf8};

verus! {

/// Why a conversion was refused.
#[derive(Clone, Copy, Debug, PartialEq, Eq, Structural)]
pub enum ModelError {
    /// The bytes received are not a packet: a corrupt or hostile peer.
    MalformedPacket,
    /// The token names a sample format that this model has not been taught.
    UnsupportedSampleFormat,
}

/// Whether an encoded video chunk stands alone or builds on earlier chunks.
#[derive(Clone, Copy, Debug, PartialEq, Eq, Structural)]
pub enum EncodedVideoChunkType {
    Key,
    Delta,
}

/// Whether an encoded audio chunk stands alone or builds on earlier chunks.
#[derive(Clone, Copy, Debug, PartialEq, Eq, Structural)]
pub enum EncodedAudioChunkType {
    Key,
    Delta,
}

/// The layout of raw audio samples: width and type, interleaved or planar.
#[derive(Clone, Copy, Debug, PartialEq, Eq, Structural)]
pub enum AudioSampleFormat {
    U8,
    S16,
    S32,
    F32,
    U8Planar,
    S16Planar,
    S32Planar,
    F32Planar,
}

impl EncodedVideoChunkType {
    /// The token of this kind.
    pub open spec fn token(self) -> Seq<char> {
        match self {
            EncodedVideoChunkType::Key => "key"@,
            EncodedVideoChunkType::Delta => "delta"@,
        }
    }

    /// The kind that a token stands for. Anything but `key` reads as a delta:
    /// a token that is not understood degrades to a frame that cannot be
    /// decoded alone, it does not fail the packet.
    pub open spec fn of_token(token: Seq<char>) -> Self {
        if token == "key"@ {
            EncodedVideoChunkType::Key
        } else {
            EncodedVideoChunkType::Delta
        }
    }

    /// Reading the token of a kind gives the kind back.
    pub proof fn lemma_token_round_trip(self)
        ensures
            Self::of_token(self.token()) == self,
    {
        lemma_chunk_tokens_differ();
    }
}

impl EncodedAudioChunkType {
    /// The token of this kind.
    pub open spec fn token(self) -> Seq<char> {
        match self {
            EncodedAudioChunkType::Key => "key"@,
            EncodedAudioChunkType::Delta => "delta"@,
        }
    }

    /// The kind that a token stands for. Anything but `key` reads as a delta:
    /// a token that is not understood degrades to a frame that cannot be
    /// decoded alone, it does not fail the packet.
    pub open spec fn of_token(token: Seq<char>) -> Self {
        if token == "key"@ {
            EncodedAudioChunkType::Key
        } else {
            EncodedAudioChunkType::Delta
        }
    }

    /// Reading the token of a kind gives the kind back.
    pub proof fn lemma_token_round_trip(self)
        ensures
            Self::of_token(self.token()) == self,
    {
        lemma_chunk_tokens_differ();
    }
}

impl AudioSampleFormat {
    /// The token of this format.
    pub open spec fn token(self) -> Seq<char> {
        match self {
            AudioSampleFormat::U8 => "u8"@,
            AudioSampleFormat::S16 => "s16"@,
            AudioSampleFormat::S32 => "s32"@,
            AudioSampleFormat::F32 => "f32"@,
            AudioSampleFormat::U8Planar => "u8-planar"@,
            AudioSampleFormat::S16Planar => "s16-planar"@,
            AudioSampleFormat::S32Planar => "s32-planar"@,
            AudioSampleFormat::F32Planar => "f32-planar"@,
        }
    }

    /// The format that a token stands for, if it is one of the eight. There
    /// is no fallback: decoding audio needs the exact layout.
    pub open spec fn of_token(token: Seq<char>) -> Option<Self> {
        if token == "u8"@ {
            Some(AudioSampleFormat::U8)
        } else if token == "s16"@ {
            Some(AudioSampleFormat::S16)
        } else if token == "s32"@ {
            Some(AudioSampleFormat::S32)
        } else if token == "f32"@ {
            Some(AudioSampleFormat::F32)
        } else if token == "u8-planar"@ {
            Some(AudioSampleFormat::U8Planar)
        } else if token == "s16-planar"@ {
            Some(AudioSampleFormat::S16Planar)
        } else if token == "s32-planar"@ {
            Some(AudioSampleFormat::S32Planar)
        } else if token == "f32-planar"@ {
            Some(AudioSampleFormat::F32Planar)
        } else {
            None
        }
    }

    /// Reading the token of a format gives the format back.
    pub proof fn lemma_token_round_trip(self)
        ensures
            Self::of_token(self.token()) == Some(self),
    {
        lemma_format_tokens_differ();
        let t = self.token();
        assert(AudioSampleFormat::U8.token() == t ==> self == AudioSampleFormat::U8);
        assert(AudioSampleFormat::S16.token() == t ==> self == AudioSampleFormat::S16);
        assert(AudioSampleFormat::S32.token() == t ==> self == AudioSampleFormat::S32);
        assert(AudioSampleFormat::F32.token() == t ==> self == AudioSampleFormat::F32);
        assert(AudioSampleFormat::U8Planar.token() == t ==> self == AudioSampleFormat::U8Planar);
        assert(AudioSampleFormat::S16Planar.token() == t ==> self == AudioSampleFormat::S16Planar);
        assert(AudioSampleFormat::S32Planar.token() == t ==> self == AudioSampleFormat::S32Planar);
    }

    /// A token that reads as a format is the token of that format.
    pub proof fn lemma_of_token_is_exact(token: Seq<char>)
        ensures
            Self::of_token(token) matches Some(format) ==> format.token() == token,
    {
    }
}

/// The two chunk tokens are different texts.
pub proof fn lemma_chunk_tokens_differ()
    ensures
        "key"@ != "delta"@,
{
    reveal_strlit("key");
    reveal_strlit("delta");
    assert("key"@.len() != "delta"@.len());
}

/// The eight format tokens are different texts.
pub proof fn lemma_format_tokens_differ()
    ensures
        forall|a: AudioSampleFormat, b: AudioSampleFormat| a.token() == b.token() ==> a == b,
{
    reveal_strlit("u8");
    reveal_strlit("s16");
    reveal_strlit("s32");
    reveal_strlit("f32");
    reveal_strlit("u8-planar");
    reveal_strlit("s16-planar");
    reveal_strlit("s32-planar");
    reveal_strlit("f32-planar");
    assert forall|a: AudioSampleFormat, b: AudioSampleFormat| a.token() == b.token() implies a
        == b by {
        let s = a.token();
        let t = b.token();
        if a != b {
            assert(s.len() != t.len() || s[0] != t[0] || s[1] != t[1]);
        }
    }
}

/// Every token is plain ASCII, so it takes as many bytes as it has
/// characters: at most ten.
pub proof fn lemma_tokens_are_short()
    ensures
        forall|kind: EncodedVideoChunkType| encode_utf8(#[trigger] kind.token()).len() <= 5,
        forall|kind: EncodedAudioChunkType| encode_utf8(#[trigger] kind.token()).len() <= 5,
        forall|format: AudioSampleFormat| encode_utf8(#[trigger] format.token()).len() <= 10,
{
    reveal_strlit("key");
    reveal_strlit("delta");
    reveal_strlit("u8");
    reveal_strlit("s16");
    reveal_strlit("s32");
    reveal_strlit("f32");
    reveal_strlit("u8-planar");
    reveal_strlit("s16-planar");
    reveal_strlit("s32-planar");
    reveal_strlit("f32-planar");
    assert forall|kind: EncodedVideoChunkType| encode_utf8(#[trigger] kind.token()).len()
        <= 5 by {
        assert(is_ascii_chars(kind.token()));
        is_ascii_chars_encode_utf8(kind.token());
    }
    assert forall|kind: EncodedAudioChunkType| encode_utf8(#[trigger] kind.token()).len()
        <= 5 by {
        assert(is_ascii_chars(kind.token()));
        is_ascii_chars_encode_utf8(kind.token());
    }
    assert forall|format: AudioSampleFormat| encode_utf8(#[trigger] format.token()).len()
        <= 10 by {
        assert(is_ascii_chars(format.token()));
        is_ascii_chars_encode_utf8(format.token());
    }
}

/// A video chunk kind, for conversion to and from its token.
#[derive(Clone, Copy, Debug, PartialEq, Eq, Structural)]
pub struct EncodedVideoChunkTypeWrapper(pub EncodedVideoChunkType);

/// An audio chunk kind, for conversion to and from its token.
#[derive(Clone, Copy, Debug, PartialEq, Eq, Structural)]
pub struct EncodedAudioChunkTypeWrapper(pub EncodedAudioChunkType);

/// An audio sample format, for conversion to and from its token.
#[derive(Clone, Copy, Debug, PartialEq, Eq, Structural)]
pub struct AudioSampleFormatWrapper(pub AudioSampleFormat);

impl From<String> for EncodedVideoChunkTypeWrapper {
    /// Reads a token: `key` is a key frame, anything else a delta.
    fn from(s: String) -> (r: Self) {
        if same_text(s.as_str(), "key") {
            EncodedVideoChunkTypeWrapper(EncodedVideoChunkType::Key)
        } else {
            EncodedVideoChunkTypeWrapper(EncodedVideoChunkType::Delta)
        }
    }
}

impl FromSpecImpl<String> for EncodedVideoChunkTypeWrapper {
    open spec fn obeys_from_spec() -> bool {
        true
    }

    open spec fn from_spec(s: String) -> Self {
        EncodedVideoChunkTypeWrapper(EncodedVideoChunkType::of_token(s@))
    }
}

impl EncodedVideoChunkTypeWrapper {
    /// The token of the kind held.
    pub fn to_string(&self) -> (r: String)
        ensures
            r@ == self.0.token(),
    {
        match self.0 {
            EncodedVideoChunkType::Delta => "delta".to_owned(),
            EncodedVideoChunkType::Key => "key".to_owned(),
        }
    }
}

impl From<String> for EncodedAudioChunkTypeWrapper {
    /// Reads a token: `key` is a key frame, anything else a delta.
    fn from(s: String) -> (r: Self) {
        if same_text(s.as_str(), "key") {
            EncodedAudioChunkTypeWrapper(EncodedAudioChunkType::Key)
        } else {
            EncodedAudioChunkTypeWrapper(EncodedAudioChunkType::Delta)
        }
    }
}

impl FromSpecImpl<String> for EncodedAudioChunkTypeWrapper {
    open spec fn obeys_from_spec() -> bool {
        true
    }

    open spec fn from_spec(s: String) -> Self {
        EncodedAudioChunkTypeWrapper(EncodedAudioChunkType::of_token(s@))
    }
}

impl EncodedAudioChunkTypeWrapper {
    /// The token of the kind held.
    pub fn to_string(&self) -> (r: String)
        ensures
            r@ == self.0.token(),
    {
        match self.0 {
            EncodedAudioChunkType::Delta => "delta".to_owned(),
            EncodedAudioChunkType::Key => "key".to_owned(),
        }
    }
}

impl TryFrom<String> for AudioSampleFormatWrapper {
    type Error = ModelError;

    /// Reads a token: one of the eight format tokens, or the format is
    /// unsupported.
    fn try_from(s: String) -> (r: Result<Self, ModelError>) {
        let t = s.as_str();
        if same_text(t, "u8") {
            Ok(AudioSampleFormatWrapper(AudioSampleFormat::U8))
        } else if same_text(t, "s16") {
            Ok(AudioSampleFormatWrapper(AudioSampleFormat::S16))
        } else if same_text(t, "s32") {
            Ok(AudioSampleFormatWrapper(AudioSampleFormat::S32))
        } else if same_text(t, "f32") {
            Ok(AudioSampleFormatWrapper(AudioSampleFormat::F32))
        } else if same_text(t, "u8-planar") {
            Ok(AudioSampleFormatWrapper(AudioSampleFormat::U8Planar))
        } else if same_text(t, "s16-planar") {
            Ok(AudioSampleFormatWrapper(AudioSampleFormat::S16Planar))
        } else if same_text(t, "s32-planar") {
            Ok(AudioSampleFormatWrapper(AudioSampleFormat::S32Planar))
        } else if same_text(t, "f32-planar") {
            Ok(AudioSampleFormatWrapper(AudioSampleFormat::F32Planar))
        } else {
            Err(ModelError::UnsupportedSampleFormat)
        }
    }
}

impl TryFromSpecImpl<String> for AudioSampleFormatWrapper {
    open spec fn obeys_try_from_spec() -> bool {
        true
    }

    open spec fn try_from_spec(s: String) -> Result<Self, ModelError> {
        match AudioSampleFormat::of_token(s@) {
            Some(format) => Ok(AudioSampleFormatWrapper(format)),
            None => Err(ModelError::UnsupportedSampleFormat),
        }
    }
}

impl AudioSampleFormatWrapper {
    /// The token of the format held.
    pub fn to_string(&self) -> (r: String)
        ensures
            r@ == self.0.token(),
    {
        match self.0 {
            AudioSampleFormat::U8 => "u8".to_owned(),
            AudioSampleFormat::S16 => "s16".to_owned(),
            AudioSampleFormat::S32 => "s32".to_owned(),
            AudioSampleFormat::F32 => "f32".to_owned(),
            AudioSampleFormat::U8Planar => "u8-planar".to_owned(),
            AudioSampleFormat::S16Planar => "s16-planar".to_owned(),
            AudioSampleFormat::S32Planar => "s32-planar".to_owned(),
            AudioSampleFormat::F32Planar => "f32-planar".to_owned(),
        }
    }
}

} // verus!

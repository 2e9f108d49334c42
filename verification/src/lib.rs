//! Wire model of a real-time media session: kind tokens, the media packet and
//! its byte encoding, and the packetizers that turn captured frames into packets.

pub mod audio_metadata;
pub mod fields;
pub mod frames;
pub mod kinds;
pub mod packet;
pub mod text;
pub mod varint;
pub mod wire;

pub use audio_metadata::AudioMetadata;
pub use frames::{transform_audio_chunk, transform_video_chunk, AudioData, EncodedVideoChunk};
pub use kinds::{
    AudioSampleFormat, AudioSampleFormatWrapper, EncodedAudioChunkType,
    EncodedAudioChunkTypeWrapper, EncodedVideoChunkType, EncodedVideoChunkTypeWrapper, ModelError,
};
pub use packet::{MediaPacket, MediaPacketWrapper, MediaType};

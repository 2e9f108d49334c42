[package]
name = "media_packet"
version = "0.1.0"
edition = "2021"
publish = false

[dependencies]
anyhow = "1"
js-sys = "0.3"
protobuf = "3"
web-sys = { version = "0.3", features = ["AudioContext", "AudioContextOptions", "AudioData", "AudioDataCopyToOptions", "AudioDestinationNode", "AudioNode", "AudioSampleFormat", "BaseAudioContext", "EncodedAudioChunkType", "EncodedVideoChunk", "EncodedVideoChunkType", "GainNode", "MediaStream", "MediaStreamAudioSourceNode", "MediaStreamTrack", "MediaStreamTrackGenerator"] }
yew-websocket = "1"

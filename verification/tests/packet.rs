use media_packet::{AudioMetadata, MediaPacket, MediaPacketWrapper, MediaType, ModelError};

fn video_packet() -> MediaPacket {
    MediaPacket {
        media_type: MediaType::VIDEO,
        email: "alice".to_string(),
        data: vec![1, 2, 3],
        frame_type: "key".to_string(),
        timestamp: 1000,
        duration: 33000,
        audio_metadata: None,
    }
}

fn audio_packet() -> MediaPacket {
    MediaPacket {
        media_type: MediaType::AUDIO,
        email: "bob".to_string(),
        data: vec![9, 8],
        frame_type: String::new(),
        timestamp: 0,
        duration: 0,
        audio_metadata: Some(AudioMetadata {
            audio_format: "f32-planar".to_string(),
            audio_number_of_channels: 2,
            audio_number_of_frames: 480,
            audio_sample_rate: 48000,
        }),
    }
}

const VIDEO_BYTES: [u8; 23] = [
    0x12, 0x05, b'a', b'l', b'i', b'c', b'e', 0x1a, 0x03, 1, 2, 3, 0x22, 0x03, b'k', b'e', b'y',
    0x28, 0xe8, 0x07, 0x30, 0xe8, 0x81,
];

fn video_bytes() -> Vec<u8> {
    let mut bytes = VIDEO_BYTES.to_vec();
    bytes.push(0x02);
    bytes
}

fn audio_bytes() -> Vec<u8> {
    let mut bytes = vec![0x08, 0x01, 0x12, 0x03, b'b', b'o', b'b', 0x1a, 0x02, 9, 8, 0x3a, 21];
    bytes.extend_from_slice(&[0x0a, 0x0a]);
    bytes.extend_from_slice(b"f32-planar");
    bytes.extend_from_slice(&[0x10, 0x02, 0x18, 0xe0, 0x03, 0x20, 0x80, 0xf7, 0x02]);
    bytes
}

#[test]
fn default_packet_is_empty() {
    let packet = MediaPacket::default();
    assert_eq!(packet.media_type, MediaType::VIDEO);
    assert_eq!(packet.email, "");
    assert!(packet.data.is_empty());
    assert_eq!(packet.frame_type, "");
    assert_eq!(packet.timestamp, 0);
    assert_eq!(packet.duration, 0);
    assert_eq!(packet.audio_metadata, None);
}

#[test]
fn default_metadata_is_empty() {
    let metadata = AudioMetadata::default();
    assert_eq!(metadata.audio_format, "");
    assert_eq!(metadata.audio_number_of_channels, 0);
    assert_eq!(metadata.audio_number_of_frames, 0);
    assert_eq!(metadata.audio_sample_rate, 0);
}

#[test]
fn empty_packet_has_no_bytes() {
    assert_eq!(MediaPacket::default().write_to_bytes(), Vec::<u8>::new());
    assert_eq!(AudioMetadata::default().write_to_bytes(), Vec::<u8>::new());
}

#[test]
fn no_bytes_are_the_empty_packet() {
    assert_eq!(MediaPacket::parse_from_bytes(&[]), Ok(MediaPacket::default()));
    assert_eq!(AudioMetadata::parse_from_bytes(&[]), Ok(AudioMetadata::default()));
}

#[test]
fn video_packet_bytes() {
    assert_eq!(video_packet().write_to_bytes(), video_bytes());
}

#[test]
fn audio_packet_bytes() {
    assert_eq!(audio_packet().write_to_bytes(), audio_bytes());
}

#[test]
fn metadata_bytes() {
    let metadata = audio_packet().audio_metadata.unwrap();
    assert_eq!(metadata.write_to_bytes(), audio_bytes()[13..].to_vec());
    assert_eq!(AudioMetadata::parse_from_bytes(&audio_bytes()[13..]), Ok(metadata));
}

#[test]
fn video_packet_is_read_from_its_bytes() {
    assert_eq!(MediaPacket::parse_from_bytes(&video_bytes()), Ok(video_packet()));
}

#[test]
fn audio_packet_is_read_from_its_bytes() {
    assert_eq!(MediaPacket::parse_from_bytes(&audio_bytes()), Ok(audio_packet()));
}

#[test]
fn packet_round_trip() {
    let mut packets = vec![MediaPacket::default(), video_packet(), audio_packet()];
    let mut negative = video_packet();
    negative.timestamp = -1;
    negative.duration = i64::MIN;
    packets.push(negative);
    let mut extreme = audio_packet();
    extreme.timestamp = i64::MAX;
    extreme.media_type = MediaType::Other(-7);
    extreme.email = "zoë@example.org ☎".to_string();
    extreme.data = (0..=255).collect();
    extreme.audio_metadata = Some(AudioMetadata {
        audio_format: "s16".to_string(),
        audio_number_of_channels: u32::MAX,
        audio_number_of_frames: 1,
        audio_sample_rate: 0,
    });
    packets.push(extreme);
    let mut bare_metadata = MediaPacket::default();
    bare_metadata.audio_metadata = Some(AudioMetadata::default());
    packets.push(bare_metadata);
    let mut other = MediaPacket::default();
    other.media_type = MediaType::Other(2);
    packets.push(other);
    let mut large = video_packet();
    large.data = vec![0xab; 70_000];
    packets.push(large);
    for packet in packets {
        let bytes = packet.write_to_bytes();
        assert_eq!(MediaPacket::parse_from_bytes(&bytes), Ok(packet.clone()));
        assert_eq!(
            MediaPacketWrapper::from_binary(Some(bytes)),
            Ok(MediaPacketWrapper(packet))
        );
    }
}

#[test]
fn negative_numbers_take_ten_bytes() {
    let mut packet = MediaPacket::default();
    packet.timestamp = -1;
    assert_eq!(
        packet.write_to_bytes(),
        vec![0x28, 0xff, 0xff, 0xff, 0xff, 0xff, 0xff, 0xff, 0xff, 0xff, 0x01]
    );
    let mut packet = MediaPacket::default();
    packet.media_type = MediaType::Other(-1);
    assert_eq!(
        packet.write_to_bytes(),
        vec![0x08, 0xff, 0xff, 0xff, 0xff, 0xff, 0xff, 0xff, 0xff, 0xff, 0x01]
    );
}

#[test]
fn present_metadata_is_written_even_when_empty() {
    let mut packet = MediaPacket::default();
    packet.audio_metadata = Some(AudioMetadata::default());
    assert_eq!(packet.write_to_bytes(), vec![0x3a, 0x00]);
    assert_eq!(MediaPacket::parse_from_bytes(&[0x3a, 0x00]), Ok(packet));
}

#[test]
fn media_type_numbers() {
    assert_eq!(MediaType::VIDEO.value(), 0);
    assert_eq!(MediaType::AUDIO.value(), 1);
    assert_eq!(MediaType::Other(5).value(), 5);
    assert_eq!(MediaType::from_i32(0), MediaType::VIDEO);
    assert_eq!(MediaType::from_i32(1), MediaType::AUDIO);
    assert_eq!(MediaType::from_i32(2), MediaType::Other(2));
    assert_eq!(MediaType::from_i32(-1), MediaType::Other(-1));
}

#[test]
fn fields_are_read_in_any_order() {
    let bytes = [0x28, 0xe8, 0x07, 0x22, 0x03, b'k', b'e', b'y', 0x12, 0x02, b'a', b'l'];
    let packet = MediaPacket::parse_from_bytes(&bytes).unwrap();
    assert_eq!(packet.timestamp, 1000);
    assert_eq!(packet.frame_type, "key");
    assert_eq!(packet.email, "al");
}

#[test]
fn a_later_value_replaces_an_earlier_one() {
    let bytes = [0x28, 0x01, 0x12, 0x01, b'a', 0x28, 0x02, 0x12, 0x01, b'b', 0x08, 0x01, 0x08, 0x00];
    let packet = MediaPacket::parse_from_bytes(&bytes).unwrap();
    assert_eq!(packet.timestamp, 2);
    assert_eq!(packet.email, "b");
    assert_eq!(packet.media_type, MediaType::VIDEO);
}

#[test]
fn a_later_metadata_record_replaces_an_earlier_one() {
    let bytes = [0x3a, 0x02, 0x10, 0x02, 0x3a, 0x02, 0x18, 0x05];
    let packet = MediaPacket::parse_from_bytes(&bytes).unwrap();
    assert_eq!(
        packet.audio_metadata,
        Some(AudioMetadata {
            audio_format: String::new(),
            audio_number_of_channels: 0,
            audio_number_of_frames: 5,
            audio_sample_rate: 0,
        })
    );
}

#[test]
fn unknown_fields_are_ignored() {
    let mut bytes = vec![0x48, 0x96, 0x01];
    bytes.extend_from_slice(&[0x51, 1, 2, 3, 4, 5, 6, 7, 8]);
    bytes.extend_from_slice(&[0x5a, 0x02, 0xff, 0xfe]);
    bytes.extend_from_slice(&[0x65, 1, 2, 3, 4]);
    bytes.extend_from_slice(&[0x10, 0x2a]);
    bytes.extend_from_slice(&video_bytes());
    assert_eq!(MediaPacket::parse_from_bytes(&bytes), Ok(video_packet()));
}

#[test]
fn unknown_fields_in_metadata_are_ignored() {
    let bytes = [0x3a, 0x06, 0x28, 0x07, 0x10, 0x02, 0x0d, 0x00];
    assert_eq!(
        MediaPacket::parse_from_bytes(&bytes),
        Err(ModelError::MalformedPacket)
    );
    let bytes = [0x3a, 0x09, 0x28, 0x07, 0x10, 0x02, 0x0d, 1, 2, 3, 4];
    let packet = MediaPacket::parse_from_bytes(&bytes).unwrap();
    assert_eq!(packet.audio_metadata.unwrap().audio_number_of_channels, 2);
}

#[test]
fn malformed_bytes_are_refused() {
    let cases: Vec<Vec<u8>> = vec![
        vec![0x12],
        vec![0x12, 0x05, b'a'],
        vec![0x80],
        vec![0x00],
        vec![0x07, 0x00],
        vec![0x0b],
        vec![0x0c],
        vec![0x4b, 0x4c],
        vec![0x28],
        vec![0x28, 0x80],
        vec![0x28, 0xff, 0xff, 0xff, 0xff, 0xff, 0xff, 0xff, 0xff, 0xff, 0x02],
        vec![0x12, 0x02, 0xc3, 0x28],
        vec![0x22, 0x01, 0xff],
        vec![0x1a, 0x04, 1, 2, 3],
        vec![0x3a, 0x03, 0x10, 0x02],
        vec![0x3a, 0x02, 0x0a, 0x05],
        vec![0x3a, 0x03, 0x0a, 0x01, 0xff],
        vec![0x08, 0x80, 0x80, 0x80, 0x80, 0x10],
        vec![0x08, 0xff, 0xff, 0xff, 0xff, 0xf7, 0xff, 0xff, 0xff, 0xff, 0x01],
        vec![0x3a, 0x06, 0x10, 0xff, 0xff, 0xff, 0xff, 0x1f],
        vec![0x88, 0x80, 0x80, 0x80, 0x80, 0x00, 0x01],
        vec![0x49],
        vec![0x4d, 1, 2, 3],
    ];
    for bytes in cases {
        assert_eq!(
            MediaPacket::parse_from_bytes(&bytes),
            Err(ModelError::MalformedPacket),
            "{bytes:?}"
        );
        assert_eq!(
            MediaPacketWrapper::from_binary(Some(bytes)),
            Err(ModelError::MalformedPacket)
        );
    }
}

#[test]
fn media_type_limits() {
    let most = [0x08, 0xff, 0xff, 0xff, 0xff, 0x07];
    assert_eq!(
        MediaPacket::parse_from_bytes(&most).unwrap().media_type,
        MediaType::Other(i32::MAX)
    );
    let least = [0x08, 0x80, 0x80, 0x80, 0x80, 0xf8, 0xff, 0xff, 0xff, 0xff, 0x01];
    assert_eq!(
        MediaPacket::parse_from_bytes(&least).unwrap().media_type,
        MediaType::Other(i32::MIN)
    );
}

#[test]
fn text_is_read_as_utf8() {
    let bytes = [0x12, 0x05, 0x7a, 0x6f, 0xc3, 0xab, 0x21];
    assert_eq!(MediaPacket::parse_from_bytes(&bytes).unwrap().email, "zoë!");
    let mut packet = MediaPacket::default();
    packet.email = "zoë!".to_string();
    assert_eq!(packet.write_to_bytes(), bytes.to_vec());
}

#[test]
fn truncated_packets_are_refused() {
    let bytes = audio_bytes();
    let video = video_bytes();
    let field_ends = [0, 2, 7, 11, bytes.len()];
    for cut in 0..bytes.len() {
        let r = MediaPacket::parse_from_bytes(&bytes[..cut]);
        assert_eq!(r.is_ok(), field_ends.contains(&cut), "cut {cut}");
    }
    let field_ends = [0, 7, 12, 17, 20, video.len()];
    for cut in 0..video.len() {
        let r = MediaPacket::parse_from_bytes(&video[..cut]);
        assert_eq!(r.is_ok(), field_ends.contains(&cut), "cut {cut}");
    }
}

#[test]
fn wrapper_without_bytes_holds_the_empty_packet() {
    assert_eq!(
        MediaPacketWrapper::from_binary(None),
        Ok(MediaPacketWrapper(MediaPacket::default()))
    );
    assert_eq!(
        MediaPacketWrapper::from_binary(Some(Vec::new())),
        Ok(MediaPacketWrapper(MediaPacket::default()))
    );
}

#[test]
fn wrapper_from_binary_reads_the_packet() {
    assert_eq!(
        MediaPacketWrapper::from_binary(Some(audio_bytes())),
        Ok(MediaPacketWrapper(audio_packet()))
    );
}

#[test]
fn wrapper_from_text_holds_the_empty_packet() {
    assert_eq!(
        MediaPacketWrapper::from_text(None),
        MediaPacketWrapper(MediaPacket::default())
    );
    assert_eq!(
        MediaPacketWrapper::from_text(Some("hello".to_string())),
        MediaPacketWrapper(MediaPacket::default())
    );
}

#[test]
fn clone_is_equal() {
    assert_eq!(audio_packet().clone(), audio_packet());
    assert_eq!(video_packet().clone(), video_packet());
}

use media_packet::varint::{read_varint32, read_varint64, write_varint};
use media_packet::{AudioMetadata, MediaPacket, MediaType, ModelError};
use protobuf::rt::WireType;
use protobuf::{CodedInputStream, CodedOutputStream};

fn sample_packets() -> Vec<MediaPacket> {
    let video = MediaPacket {
        media_type: MediaType::VIDEO,
        email: "alice".to_string(),
        data: (0..1200).map(|i| (i % 256) as u8).collect(),
        frame_type: "key".to_string(),
        timestamp: 1000,
        duration: 33000,
        audio_metadata: None,
    };
    let audio = MediaPacket {
        media_type: MediaType::AUDIO,
        email: "bob".to_string(),
        data: vec![1, 2, 3, 4],
        frame_type: String::new(),
        timestamp: 0,
        duration: 0,
        audio_metadata: Some(AudioMetadata {
            audio_format: "f32-planar".to_string(),
            audio_number_of_channels: 2,
            audio_number_of_frames: 480,
            audio_sample_rate: 48000,
        }),
    };
    let odd = MediaPacket {
        media_type: MediaType::Other(-3),
        email: "zoë".to_string(),
        data: Vec::new(),
        frame_type: "delta".to_string(),
        timestamp: -1,
        duration: i64::MIN,
        audio_metadata: Some(AudioMetadata::default()),
    };
    vec![MediaPacket::default(), video, audio, odd]
}

fn metadata_by_protobuf(m: &AudioMetadata) -> Vec<u8> {
    let mut out = Vec::new();
    {
        let mut os = CodedOutputStream::vec(&mut out);
        if !m.audio_format.is_empty() {
            os.write_string(1, &m.audio_format).unwrap();
        }
        if m.audio_number_of_channels != 0 {
            os.write_uint32(2, m.audio_number_of_channels).unwrap();
        }
        if m.audio_number_of_frames != 0 {
            os.write_uint32(3, m.audio_number_of_frames).unwrap();
        }
        if m.audio_sample_rate != 0 {
            os.write_uint32(4, m.audio_sample_rate).unwrap();
        }
        os.flush().unwrap();
    }
    out
}

fn packet_by_protobuf(p: &MediaPacket) -> Vec<u8> {
    let mut out = Vec::new();
    {
        let mut os = CodedOutputStream::vec(&mut out);
        if p.media_type.value() != 0 {
            os.write_enum(1, p.media_type.value()).unwrap();
        }
        if !p.email.is_empty() {
            os.write_string(2, &p.email).unwrap();
        }
        if !p.data.is_empty() {
            os.write_bytes(3, &p.data).unwrap();
        }
        if !p.frame_type.is_empty() {
            os.write_string(4, &p.frame_type).unwrap();
        }
        if p.timestamp != 0 {
            os.write_int64(5, p.timestamp).unwrap();
        }
        if p.duration != 0 {
            os.write_int64(6, p.duration).unwrap();
        }
        if let Some(m) = &p.audio_metadata {
            let body = metadata_by_protobuf(m);
            os.write_tag(7, WireType::LengthDelimited).unwrap();
            os.write_raw_varint32(body.len() as u32).unwrap();
            os.write_raw_bytes(&body).unwrap();
        }
        os.flush().unwrap();
    }
    out
}

fn metadata_from_protobuf(is: &mut CodedInputStream) -> protobuf::Result<AudioMetadata> {
    let mut m = AudioMetadata::default();
    while let Some(tag) = is.read_raw_tag_or_eof()? {
        match tag {
            10 => m.audio_format = is.read_string()?,
            16 => m.audio_number_of_channels = is.read_uint32()?,
            24 => m.audio_number_of_frames = is.read_uint32()?,
            32 => m.audio_sample_rate = is.read_uint32()?,
            tag => protobuf::rt::skip_field_for_tag(tag, is)?,
        }
    }
    Ok(m)
}

fn packet_from_protobuf(bytes: &[u8]) -> protobuf::Result<MediaPacket> {
    let mut is = CodedInputStream::from_bytes(bytes);
    let mut p = MediaPacket::default();
    while let Some(tag) = is.read_raw_tag_or_eof()? {
        match tag {
            8 => p.media_type = MediaType::from_i32(is.read_int32()?),
            18 => p.email = is.read_string()?,
            26 => p.data = is.read_bytes()?,
            34 => p.frame_type = is.read_string()?,
            40 => p.timestamp = is.read_int64()?,
            48 => p.duration = is.read_int64()?,
            58 => {
                let len = is.read_raw_varint64()?;
                let old_limit = is.push_limit(len)?;
                p.audio_metadata = Some(metadata_from_protobuf(&mut is)?);
                is.pop_limit(old_limit);
            }
            tag => protobuf::rt::skip_field_for_tag(tag, &mut is)?,
        }
    }
    Ok(p)
}

#[test]
fn packets_are_written_as_protobuf_writes_them() {
    for packet in sample_packets() {
        assert_eq!(packet.write_to_bytes(), packet_by_protobuf(&packet));
    }
}

#[test]
fn metadata_is_written_as_protobuf_writes_it() {
    for packet in sample_packets() {
        if let Some(m) = &packet.audio_metadata {
            assert_eq!(m.write_to_bytes(), metadata_by_protobuf(m));
        }
    }
}

#[test]
fn protobuf_reads_what_is_written() {
    for packet in sample_packets() {
        let bytes = packet.write_to_bytes();
        assert_eq!(packet_from_protobuf(&bytes).unwrap(), packet);
    }
}

#[test]
fn what_protobuf_writes_is_read() {
    for packet in sample_packets() {
        let bytes = packet_by_protobuf(&packet);
        assert_eq!(MediaPacket::parse_from_bytes(&bytes), Ok(packet));
    }
}

#[test]
fn varints_are_written_as_protobuf_writes_them() {
    let mut v: u64 = 1;
    for i in 0..64 {
        for value in [v - 1, v, v + 1, v | 0x5555, u64::MAX - v] {
            let mut mine = Vec::new();
            write_varint(&mut mine, value);
            let mut theirs = Vec::new();
            {
                let mut os = CodedOutputStream::vec(&mut theirs);
                os.write_raw_varint64(value).unwrap();
                os.flush().unwrap();
            }
            assert_eq!(mine, theirs, "{value} at {i}");
        }
        v = v.wrapping_mul(2);
    }
}

fn varint_inputs() -> Vec<Vec<u8>> {
    let mut inputs: Vec<Vec<u8>> = Vec::new();
    for len in 0..12usize {
        for last in [0x00u8, 0x01, 0x02, 0x0f, 0x10, 0x7f, 0x80, 0xff] {
            for fill in [0x80u8, 0x81, 0xff] {
                let mut bytes = vec![fill; len];
                bytes.push(last);
                inputs.push(bytes.clone());
                bytes.push(0x2a);
                inputs.push(bytes);
            }
        }
    }
    inputs.push(Vec::new());
    inputs
}

#[test]
fn varint64_is_read_as_protobuf_reads_it() {
    for bytes in varint_inputs() {
        let mut is = CodedInputStream::from_bytes(&bytes);
        let theirs = is.read_raw_varint64().ok().map(|v| (v, is.pos() as usize));
        assert_eq!(read_varint64(&bytes, 0), theirs, "{bytes:?}");
    }
}

#[test]
fn varint32_is_read_as_protobuf_reads_it() {
    for bytes in varint_inputs() {
        let mut is = CodedInputStream::from_bytes(&bytes);
        let theirs = is.read_raw_varint32().ok().map(|v| (v, is.pos() as usize));
        assert_eq!(read_varint32(&bytes, 0), theirs, "{bytes:?}");
    }
}

#[test]
fn malformed_bytes_are_refused_by_both() {
    let cases: Vec<Vec<u8>> = vec![
        vec![0x12],
        vec![0x12, 0x05, b'a'],
        vec![0x80],
        vec![0x00],
        vec![0x07, 0x00],
        vec![0x28],
        vec![0x28, 0xff, 0xff, 0xff, 0xff, 0xff, 0xff, 0xff, 0xff, 0xff, 0x02],
        vec![0x12, 0x02, 0xc3, 0x28],
        vec![0x1a, 0x04, 1, 2, 3],
        vec![0x3a, 0x02, 0x0a, 0x05],
        vec![0x08, 0x80, 0x80, 0x80, 0x80, 0x10],
        vec![0x88, 0x80, 0x80, 0x80, 0x80, 0x00, 0x01],
        vec![0x49],
        vec![0x4d, 1, 2, 3],
    ];
    for bytes in cases {
        assert!(packet_from_protobuf(&bytes).is_err(), "{bytes:?}");
        assert_eq!(
            MediaPacket::parse_from_bytes(&bytes),
            Err(ModelError::MalformedPacket),
            "{bytes:?}"
        );
    }
}

#[test]
fn unknown_fields_are_stepped_over_by_both() {
    let mut bytes = vec![0x48, 0x96, 0x01];
    bytes.extend_from_slice(&[0x51, 1, 2, 3, 4, 5, 6, 7, 8]);
    bytes.extend_from_slice(&[0x5a, 0x02, 0xff, 0xfe]);
    bytes.extend_from_slice(&[0x65, 1, 2, 3, 4]);
    bytes.extend_from_slice(&[0x10, 0x2a, 0x28, 0x07]);
    let theirs = packet_from_protobuf(&bytes).unwrap();
    assert_eq!(theirs.timestamp, 7);
    assert_eq!(MediaPacket::parse_from_bytes(&bytes), Ok(theirs));
}

#[test]
fn groups_are_refused_where_protobuf_steps_over_them() {
    let group = [0x4b, 0x48, 0x01, 0x4c, 0x28, 0x07];
    assert_eq!(packet_from_protobuf(&group).unwrap().timestamp, 7);
    assert_eq!(
        MediaPacket::parse_from_bytes(&group),
        Err(ModelError::MalformedPacket)
    );
}

#[test]
fn metadata_cut_short_is_refused_where_protobuf_takes_what_is_there() {
    let cut = [0x3a, 0x03, 0x10, 0x02];
    let theirs = packet_from_protobuf(&cut).unwrap();
    assert_eq!(theirs.audio_metadata.unwrap().audio_number_of_channels, 2);
    assert_eq!(
        MediaPacket::parse_from_bytes(&cut),
        Err(ModelError::MalformedPacket)
    );
}

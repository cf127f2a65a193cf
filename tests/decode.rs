use flv_server::amf0::{AMF0Date, AMF0};
use flv_server::audio::{AudioTag, SoundFormatType, SoundSampleRate, SoundSampleSize, SoundType};
use flv_server::bytes::{get_timestamp, read_be};
use flv_server::error::{my_error, ErrorKind, Field, FlvError};
use flv_server::flv::{parse_flv, parse_pre_tag_size, FlvTag};
use flv_server::script::ScriptTag;
use flv_server::tag::TagHeader;
use flv_server::video::{AVCNALUData, AVCPacketData, VideoFrameType, VideoPacket, VideoTag};

fn e(field: Field, kind: ErrorKind) -> FlvError {
    FlvError { field, kind }
}

/// Tag header bytes (after the type byte) for a payload of `size` bytes.
fn header(size: u32) -> Vec<u8> {
    vec![(size >> 16) as u8, (size >> 8) as u8, size as u8, 0, 0, 0, 0, 0, 0, 0]
}

fn container(tags: &[u8]) -> Vec<u8> {
    let mut v = vec![b'F', b'L', b'V', 1, 0x05, 0, 0, 0, 9, 0, 0, 0, 0];
    v.extend_from_slice(tags);
    v
}

fn audio_tag(payload: &[u8], marker: u32) -> Vec<u8> {
    let mut v = vec![8];
    v.extend(header(payload.len() as u32));
    v.extend_from_slice(payload);
    v.extend_from_slice(&marker.to_be_bytes());
    v
}

#[test]
fn test_timestamp() {
    assert_eq!(get_timestamp(&[0x00, 0x00, 0x00, 0x80]), -0x80000000);
    assert_eq!(get_timestamp(&[0x00, 0x00, 0x00, 0x00]), 0);
    assert_eq!(get_timestamp(&[0xff, 0xff, 0xff, 0xff]), -1);
    assert_eq!(get_timestamp(&[0xff, 0xff, 0xfe, 0xff]), -2);
    assert_eq!(get_timestamp(&[0xff, 0xff, 0xff, 0x00]), 0xffffff);
}

#[test]
fn timestamp_high_byte_is_last() {
    assert_eq!(get_timestamp(&[0x01, 0x02, 0x03, 0x04]), 0x04010203);
}

#[test]
fn read_be_widths() {
    let d = [0x12, 0x34, 0x56, 0x78, 0x9a];
    assert_eq!(read_be(&d, 0, 2), 0x1234);
    assert_eq!(read_be(&d, 1, 3), 0x345678);
    assert_eq!(read_be(&d, 1, 4), 0x3456789a);
    assert_eq!(read_be(&d, 2, 0), 0);
}

#[test]
fn my_error_builds_error() {
    assert_eq!(my_error(Field::Tag, ErrorKind::Truncated), e(Field::Tag, ErrorKind::Truncated));
}

#[test]
fn tag_header_fields() {
    let d = [0x00, 0x01, 0x02, 0x10, 0x20, 0x30, 0x01, 0, 0, 0, 0xee];
    let (rest, h) = TagHeader::parse(&d).unwrap();
    assert_eq!(h.data_size, 0x102);
    assert_eq!(h.timestamp, 0x01102030);
    assert_eq!(rest, &[0xee]);
}

#[test]
fn tag_header_truncations() {
    assert_eq!(TagHeader::parse(&[0, 0]).err(), Some(e(Field::DataSize, ErrorKind::Truncated)));
    assert_eq!(TagHeader::parse(&[0; 5]).err(), Some(e(Field::Timestamp, ErrorKind::Truncated)));
    assert_eq!(TagHeader::parse(&[0; 9]).err(), Some(e(Field::StreamId, ErrorKind::Truncated)));
}

#[test]
fn stream_id_must_be_zero() {
    for i in 7..10 {
        let mut d = vec![0u8; 10];
        d[i] = 1;
        assert_eq!(TagHeader::parse(&d).err(), Some(e(Field::StreamId, ErrorKind::Malformed)));
    }
    let mut tag = audio_tag(&[0x2e], 12);
    tag[9] = 5;
    assert_eq!(FlvTag::parse(&tag).err(), Some(e(Field::StreamId, ErrorKind::Malformed)));
}

#[test]
fn end_to_end_single_audio_tag() {
    let data = container(&audio_tag(&[0x2e, 0xaa, 0xbb], 14));
    let tags = parse_flv(&data).unwrap();
    assert_eq!(tags.len(), 1);
    match &tags[0] {
        FlvTag::AudioTag(a) => {
            assert_eq!(a.header.data_size, 3);
            assert_eq!(a.sound_format, SoundFormatType::MP3);
            assert_eq!(a.sound_rate, SoundSampleRate::Rate44k);
            assert_eq!(a.sound_size, SoundSampleSize::Size16Bit);
            assert_eq!(a.sound_type, SoundType::TypeMono);
            assert_eq!(a.sound_data, vec![0xaa, 0xbb]);
            assert_eq!(a.len(), 14);
        }
        _ => panic!("expected an audio tag"),
    }
    assert_eq!(tags[0].tag_len(), 14);
}

#[test]
fn empty_container_has_no_tags() {
    assert_eq!(parse_flv(&container(&[])).unwrap().len(), 0);
}

#[test]
fn wrong_trailing_marker_is_rejected() {
    let data = container(&audio_tag(&[0x2e, 0xaa, 0xbb], 13));
    let kind = ErrorKind::LengthMismatch { index: 1, marker: 13, expected: 14 };
    assert_eq!(parse_flv(&data).err(), Some(e(Field::PreTagSize, kind)));
    let mut two = audio_tag(&[0x2e], 12);
    two.extend(audio_tag(&[0x2e, 1], 12));
    let kind = ErrorKind::LengthMismatch { index: 2, marker: 12, expected: 13 };
    assert_eq!(parse_flv(&container(&two)).err(), Some(e(Field::PreTagSize, kind)));
}

#[test]
fn missing_trailing_marker_is_truncation() {
    let mut data = container(&audio_tag(&[0x2e], 12));
    data.pop();
    assert_eq!(parse_flv(&data).err(), Some(e(Field::PreTagSize, ErrorKind::Truncated)));
}

#[test]
fn container_header_errors() {
    assert_eq!(parse_flv(&[b'F', b'L', b'V']).err(), Some(e(Field::FlvHeader, ErrorKind::Truncated)));
    let mut d = container(&[]);
    d[1] = b'X';
    assert_eq!(parse_flv(&d).err(), Some(e(Field::Signature, ErrorKind::Malformed)));
    let mut d = container(&[]);
    d[4] = 0x08;
    assert_eq!(parse_flv(&d).err(), Some(e(Field::TypeFlags, ErrorKind::Malformed)));
    let mut d = container(&[]);
    d[8] = 10;
    assert_eq!(parse_flv(&d).err(), Some(e(Field::DataOffset, ErrorKind::Malformed)));
    let mut d = container(&[]);
    d[12] = 1;
    assert_eq!(parse_flv(&d).err(), Some(e(Field::FirstPreTagSize, ErrorKind::Malformed)));
    let d = container(&[]);
    assert_eq!(parse_flv(&d[..11]).err(), Some(e(Field::FirstPreTagSize, ErrorKind::Truncated)));
}

#[test]
fn container_offset_for_other_versions() {
    let mut d = vec![b'F', b'L', b'V', 2, 0, 0, 0, 0, 10, 0xff, 0, 0, 0, 0];
    assert_eq!(parse_flv(&d).unwrap().len(), 0);
    d[8] = 100;
    assert_eq!(parse_flv(&d).err(), Some(e(Field::DataOffset, ErrorKind::Truncated)));
}

#[test]
fn pre_tag_size_reads_four_bytes() {
    let (rest, n) = parse_pre_tag_size(&[0, 0, 1, 2, 9]).unwrap();
    assert_eq!(n, 258);
    assert_eq!(rest, &[9]);
    assert_eq!(parse_pre_tag_size(&[0, 0, 1]).err(), Some(e(Field::PreTagSize, ErrorKind::Truncated)));
}

#[test]
fn unknown_tag_type() {
    let mut tag = audio_tag(&[0x2e], 12);
    tag[0] = 7;
    assert_eq!(FlvTag::parse(&tag).err(), Some(e(Field::TagType, ErrorKind::Unsupported(7))));
    assert_eq!(FlvTag::parse(&tag[..10]).err(), Some(e(Field::Tag, ErrorKind::Truncated)));
}

fn audio(payload: &[u8]) -> Result<AudioTag, FlvError> {
    let mut d = header(payload.len() as u32);
    d.extend_from_slice(payload);
    AudioTag::parse(&d).map(|(_, a)| a)
}

#[test]
fn aac_must_be_44k_16bit_stereo() {
    assert_eq!(audio(&[0xaf, 1, 2]).unwrap().sound_format, SoundFormatType::AAC);
    assert_eq!(audio(&[0xab]).err(), Some(e(Field::SoundRate, ErrorKind::Invariant)));
    assert_eq!(audio(&[0xad]).err(), Some(e(Field::SoundSize, ErrorKind::Invariant)));
    assert_eq!(audio(&[0xae]).err(), Some(e(Field::SoundType, ErrorKind::Invariant)));
}

#[test]
fn mp3_accepts_any_rate_size_and_channels() {
    for low in 0u8..16 {
        let a = audio(&[0x20 | low]).unwrap();
        assert_eq!(a.sound_format, SoundFormatType::MP3);
        assert_eq!(a.sound_data.len(), 0);
    }
    assert_eq!(audio(&[0x20]).unwrap().sound_rate, SoundSampleRate::Rate5500);
    assert_eq!(audio(&[0x24]).unwrap().sound_rate, SoundSampleRate::Rate11k);
    assert_eq!(audio(&[0x28]).unwrap().sound_rate, SoundSampleRate::Rate22k);
    assert_eq!(audio(&[0x21]).unwrap().sound_type, SoundType::TypeStero);
    assert_eq!(audio(&[0x20]).unwrap().sound_size, SoundSampleSize::Size8Bit);
}

#[test]
fn audio_errors() {
    assert_eq!(audio(&[0x3f]).err(), Some(e(Field::SoundFormat, ErrorKind::Unsupported(3))));
    assert_eq!(audio(&[]).err(), Some(e(Field::SoundFormat, ErrorKind::Truncated)));
    let d = header(5);
    assert_eq!(AudioTag::parse(&d).err(), Some(e(Field::TagBody, ErrorKind::Truncated)));
}

#[test]
fn audio_payload_is_bounded_by_declared_size() {
    let mut d = header(2);
    d.extend_from_slice(&[0x2e, 0x11, 0x22, 0x33]);
    let (rest, a) = AudioTag::parse(&d).unwrap();
    assert_eq!(a.sound_data, vec![0x11]);
    assert_eq!(rest, &[0x22, 0x33]);
}

fn video(payload: &[u8]) -> Result<VideoTag, FlvError> {
    let mut d = header(payload.len() as u32);
    d.extend_from_slice(payload);
    VideoTag::parse(&d).map(|(_, v)| v)
}

#[test]
fn video_avc_header() {
    let v = video(&[0x17, 0, 0, 0, 0, 0xaa, 0xbb]).unwrap();
    assert_eq!(v.frame_type, VideoFrameType::KeyFrame);
    match v.packet_data {
        VideoPacket::AVC(AVCPacketData::AVCHeader(h)) => assert_eq!(h, vec![0xaa, 0xbb]),
        _ => panic!("expected an AVC sequence header"),
    }
    assert_eq!(video(&[0x17, 0, 0, 1, 0]).err(), Some(e(Field::CompositionTime, ErrorKind::Malformed)));
}

#[test]
fn video_avc_nalu_and_end() {
    let v = video(&[0x27, 1, 0, 1, 2, 9, 8]).unwrap();
    assert_eq!(v.frame_type, VideoFrameType::InterFrame);
    match v.packet_data {
        VideoPacket::AVC(AVCPacketData::AVCNALU(n)) => {
            assert_eq!(n.composition_time, 0x102);
            assert_eq!(n.nalu_data, vec![9, 8]);
        }
        _ => panic!("expected a NAL unit"),
    }
    let v = video(&[0x17, 2]).unwrap();
    assert!(matches!(v.packet_data, VideoPacket::AVC(AVCPacketData::AVCEndOfSequence)));
}

#[test]
fn video_errors() {
    assert_eq!(video(&[0x37, 2]).err(), Some(e(Field::FrameType, ErrorKind::Unsupported(3))));
    assert_eq!(video(&[0x12, 2]).err(), Some(e(Field::CodecId, ErrorKind::Unsupported(2))));
    assert_eq!(video(&[0x17, 5]).err(), Some(e(Field::AvcPacketType, ErrorKind::Unsupported(5))));
    assert_eq!(video(&[0x17]).err(), Some(e(Field::AvcPacketType, ErrorKind::Truncated)));
    assert_eq!(video(&[]).err(), Some(e(Field::FrameType, ErrorKind::Truncated)));
    assert_eq!(video(&[0x17, 1, 0]).err(), Some(e(Field::CompositionTime, ErrorKind::Truncated)));
}

#[test]
fn video_parts_directly() {
    let (rest, f) = VideoFrameType::parse(&[0x17, 3]).unwrap();
    assert_eq!(f, VideoFrameType::KeyFrame);
    assert_eq!(rest, &[0x17, 3]);
    let (_, n) = AVCNALUData::parse(&[0, 0, 5, 1]).unwrap();
    assert_eq!(n.composition_time, 5);
    assert!(VideoPacket::parse(&[]).is_err());
    assert!(AVCPacketData::parse(&[2, 4]).is_ok());
}

fn amf0_string(s: &str) -> Vec<u8> {
    let mut v = vec![2, 0, s.len() as u8];
    v.extend_from_slice(s.as_bytes());
    v
}

fn key(s: &str) -> Vec<u8> {
    let mut v = vec![0, s.len() as u8];
    v.extend_from_slice(s.as_bytes());
    v
}

#[test]
fn amf0_scalars() {
    let mut d = vec![0];
    d.extend_from_slice(&1.5f64.to_be_bytes());
    d.push(0x77);
    let (rest, v) = AMF0::parse(&d).unwrap();
    match v {
        AMF0::Number(bits) => assert_eq!(f64::from_bits(bits), 1.5),
        _ => panic!("expected a number"),
    }
    assert_eq!(rest, &[0x77]);
    assert!(matches!(AMF0::parse(&[1, 0]).unwrap().1, AMF0::Boolean(true)));
    assert!(matches!(AMF0::parse(&[1, 1]).unwrap().1, AMF0::Boolean(false)));
    assert!(matches!(AMF0::parse(&[5]).unwrap().1, AMF0::Null));
    assert!(matches!(AMF0::parse(&[6]).unwrap().1, AMF0::Undefine));
    assert!(matches!(AMF0::parse(&[9]).unwrap().1, AMF0::EndIndicator));
    assert!(matches!(AMF0::parse(&[7, 1, 2]).unwrap().1, AMF0::Reference(0x102)));
    let mut d = vec![11];
    d.extend_from_slice(&2.0f64.to_be_bytes());
    d.extend_from_slice(&[0xff, 0xc4]);
    match AMF0::parse(&d).unwrap().1 {
        AMF0::Date(AMF0Date { date_time, local_offset }) => {
            assert_eq!(f64::from_bits(date_time), 2.0);
            assert_eq!(local_offset, -60);
        }
        _ => panic!("expected a date"),
    }
}

#[test]
fn amf0_scalar_truncations() {
    assert_eq!(AMF0::parse(&[]).err(), Some(e(Field::Amf0Type, ErrorKind::Truncated)));
    assert_eq!(AMF0::parse(&[0, 1, 2]).err(), Some(e(Field::Amf0Number, ErrorKind::Truncated)));
    assert_eq!(AMF0::parse(&[1]).err(), Some(e(Field::Amf0Boolean, ErrorKind::Truncated)));
    assert_eq!(AMF0::parse(&[7, 1]).err(), Some(e(Field::Amf0Reference, ErrorKind::Truncated)));
    assert_eq!(AMF0::parse(&[11, 0, 0]).err(), Some(e(Field::Amf0Date, ErrorKind::Truncated)));
    assert_eq!(AMF0::parse(&[13]).err(), Some(e(Field::Amf0Type, ErrorKind::Unsupported(13))));
}

#[test]
fn amf0_strings() {
    let (rest, v) = AMF0::parse(&[2, 0, 3, b'a', b'b', b'c', 4]).unwrap();
    match v {
        AMF0::String(s) => assert_eq!(s, "abc"),
        _ => panic!("expected a string"),
    }
    assert_eq!(rest, &[4]);
    match AMF0::parse(&[4, 0, 1, b'p']).unwrap().1 {
        AMF0::MovieClip(s) => assert_eq!(s, "p"),
        _ => panic!("expected a movie clip path"),
    }
    match AMF0::parse(&[12, 0, 0, 0, 2, b'h', b'i']).unwrap().1 {
        AMF0::LongString(s) => assert_eq!(s, "hi"),
        _ => panic!("expected a long string"),
    }
    assert_eq!(AMF0::parse(&[2, 0]).err(), Some(e(Field::Amf0StringLength, ErrorKind::Truncated)));
    assert_eq!(AMF0::parse(&[2, 0, 3, b'a']).err(), Some(e(Field::Amf0StringBody, ErrorKind::Truncated)));
    assert_eq!(AMF0::parse(&[12, 0, 0, 0, 9]).err(), Some(e(Field::Amf0StringBody, ErrorKind::Truncated)));
}

#[test]
fn invalid_utf8_is_replaced() {
    let (_, s) = AMF0::parse_string(&[0, 3, b'a', 0xff, b'b']).unwrap();
    assert_eq!(s, "a\u{fffd}b");
    let (_, s) = AMF0::parse_string(&[0, 2, 0xc3, 0xa9]).unwrap();
    assert_eq!(s, "\u{e9}");
}

#[test]
fn amf0_object_map_replaces_duplicate_keys() {
    let mut d = vec![3];
    d.extend(key("a"));
    d.extend(amf0_string("x"));
    d.extend(key("b"));
    d.extend([5]);
    d.extend(key("a"));
    d.extend(amf0_string("y"));
    d.extend([0, 0, 9, 0x42]);
    let (rest, v) = AMF0::parse(&d).unwrap();
    assert_eq!(rest, &[0x42]);
    match v {
        AMF0::ObjectMap(es) => {
            assert_eq!(es.len(), 2);
            let a = es.iter().find(|p| p.0 == "a").unwrap();
            assert!(matches!(&a.1, AMF0::String(s) if s == "y"));
            let b = es.iter().find(|p| p.0 == "b").unwrap();
            assert!(matches!(b.1, AMF0::Null));
        }
        _ => panic!("expected an object map"),
    }
}

#[test]
fn amf0_ecma_array_ignores_count_hint() {
    let mut d = vec![8, 0, 0, 0, 7];
    d.extend(key("n"));
    d.extend([1, 0]);
    d.extend([0, 0, 9]);
    match AMF0::parse(&d).unwrap().1 {
        AMF0::ECMAArray(hint, es) => {
            assert_eq!(hint, 7);
            assert_eq!(es.len(), 1);
            assert_eq!(es[0].0, "n");
        }
        _ => panic!("expected an ECMA array"),
    }
    assert_eq!(AMF0::parse(&[8, 0, 0]).err(), Some(e(Field::Amf0ArrayCount, ErrorKind::Truncated)));
}

#[test]
fn amf0_map_without_end_marker_fails() {
    let mut d = vec![3];
    d.extend(key("a"));
    d.extend([5]);
    assert_eq!(AMF0::parse(&d).err(), Some(e(Field::Amf0ObjectEnd, ErrorKind::Truncated)));
    let mut d = vec![8, 0, 0, 0, 1];
    d.extend(key("a"));
    d.extend([1, 1]);
    d.extend(key("b"));
    d.extend([6]);
    assert_eq!(AMF0::parse(&d).err(), Some(e(Field::Amf0ObjectEnd, ErrorKind::Truncated)));
    let nested = [3, 0, 1, b'k', 3, 0, 1, b'j', 5];
    assert!(AMF0::parse(&nested).is_err());
}

#[test]
fn amf0_strict_array_pairs() {
    let mut d = vec![10, 0, 0, 0, 2];
    d.extend(amf0_string("k"));
    d.extend([5]);
    d.extend(amf0_string("m"));
    d.extend([1, 0]);
    d.push(0x55);
    let (rest, v) = AMF0::parse(&d).unwrap();
    assert_eq!(rest, &[0x55]);
    match v {
        AMF0::Array(es) => {
            assert_eq!(es.len(), 2);
            assert_eq!(es[0].0, "k");
            assert_eq!(es[1].0, "m");
        }
        _ => panic!("expected a strict array"),
    }
    let mut d = vec![10, 0, 0, 0, 1, 5, 5];
    assert_eq!(AMF0::parse(&d).err(), Some(e(Field::Amf0ArrayName, ErrorKind::Malformed)));
    d[4] = 0;
    assert!(matches!(AMF0::parse(&d).unwrap().1, AMF0::Array(es) if es.is_empty()));
}

fn script(payload: &[u8]) -> Result<ScriptTag, FlvError> {
    let mut d = header(payload.len() as u32);
    d.extend_from_slice(payload);
    ScriptTag::parse(&d).map(|(_, s)| s)
}

#[test]
fn script_tag_name_and_value() {
    let mut p = amf0_string("onMetaData");
    p.extend([8, 0, 0, 0, 1]);
    p.extend(key("duration"));
    p.push(0);
    p.extend_from_slice(&3.0f64.to_be_bytes());
    p.extend([0, 0, 9]);
    let s = script(&p).unwrap();
    assert_eq!(s.obj_name, "onMetaData");
    assert_eq!(s.len(), 11 + p.len());
    match s.obj_val {
        AMF0::ECMAArray(_, es) => {
            assert_eq!(es[0].0, "duration");
            assert!(matches!(es[0].1, AMF0::Number(b) if f64::from_bits(b) == 3.0));
        }
        _ => panic!("expected an ECMA array"),
    }
    assert_eq!(script(&[5, 5]).err(), Some(e(Field::ScriptName, ErrorKind::Malformed)));
}

#[test]
fn container_with_mixed_tags() {
    let mut tags = audio_tag(&[0xaf, 1], 13);
    let video_payload = [0x17, 2];
    tags.push(9);
    tags.extend(header(2));
    tags.extend_from_slice(&video_payload);
    tags.extend_from_slice(&13u32.to_be_bytes());
    let mut sp = amf0_string("s");
    sp.push(5);
    tags.push(18);
    tags.extend(header(sp.len() as u32));
    tags.extend_from_slice(&sp);
    tags.extend_from_slice(&(11 + sp.len() as u32).to_be_bytes());
    let parsed = parse_flv(&container(&tags)).unwrap();
    assert_eq!(parsed.len(), 3);
    assert!(matches!(parsed[0], FlvTag::AudioTag(_)));
    assert!(matches!(parsed[1], FlvTag::VideoTag(_)));
    assert!(matches!(parsed[2], FlvTag::ScriptTag(_)));
}

use ambilight_player::format::{
    encode_header, encode_record, fps_bits_valid, load, parse_header, FormatError, Header,
    ZoneLayout,
};

fn edges_header(fps: f32, top: u16, bottom: u16, left: u16, right: u16, rgbw: bool) -> Header {
    Header {
        fps_bits: fps.to_bits(),
        layout: ZoneLayout::Edges { top, bottom, left, right },
        rgbw,
    }
}

fn stream(header: &Header, records: &[(u64, Vec<u8>)]) -> Vec<u8> {
    let mut data = encode_header(header);
    for (ts, payload) in records {
        data.extend_from_slice(&encode_record(*ts, payload));
    }
    data
}

#[test]
fn parse_header_edges_round_trip() {
    let h = edges_header(24.0, 2, 3, 4, 5, false);
    let bytes = encode_header(&h);
    assert_eq!(bytes.len(), 17);
    assert_eq!(&bytes[0..4], b"AMb2");
    assert_eq!(parse_header(&bytes), Ok(h));
}

#[test]
fn parse_header_combined_round_trip() {
    let h = Header {
        fps_bits: 30.0f32.to_bits(),
        layout: ZoneLayout::Combined { zones: 60, rotation: 7 },
        rgbw: true,
    };
    let bytes = encode_header(&h);
    assert_eq!(bytes.len(), 13);
    assert_eq!(&bytes[0..4], b"AMb1");
    assert_eq!(parse_header(&bytes), Ok(h));
}

#[test]
fn parse_header_field_layout() {
    // Hand-built per-edge header: magic, f32 rate, four u16 counts, format.
    let mut bytes = Vec::new();
    bytes.extend_from_slice(b"AMb2");
    bytes.extend_from_slice(&25.0f32.to_le_bytes());
    bytes.extend_from_slice(&10u16.to_le_bytes());
    bytes.extend_from_slice(&11u16.to_le_bytes());
    bytes.extend_from_slice(&12u16.to_le_bytes());
    bytes.extend_from_slice(&13u16.to_le_bytes());
    bytes.push(1);
    let h = parse_header(&bytes).unwrap();
    assert_eq!(h.fps_bits, 25.0f32.to_bits());
    assert_eq!(h.layout, ZoneLayout::Edges { top: 10, bottom: 11, left: 12, right: 13 });
    assert!(h.rgbw);
    assert_eq!(h.source_zones(), 46);
    assert_eq!(h.bytes_per_zone(), 4);
    assert_eq!(h.frame_size(), 184);
}

#[test]
fn load_pairs_every_timestamp_with_a_payload() {
    let h = edges_header(24.0, 2, 0, 0, 0, false);
    let data = stream(
        &h,
        &[(0, vec![255, 0, 0, 0, 255, 0]), (41666, vec![0, 0, 255, 255, 255, 0])],
    );
    let ls = load(&data).unwrap();
    assert_eq!(ls.timestamps.len(), ls.frames.len());
    assert_eq!(ls.timestamps, vec![0, 41666]);
    for frame in &ls.frames {
        assert_eq!(frame.len(), ls.header.frame_size());
    }
    assert_eq!(ls.frames[0], vec![255, 0, 0, 0, 255, 0]);
    assert_eq!(ls.frames[1], vec![0, 0, 255, 255, 255, 0]);
}

#[test]
fn load_drops_truncated_trailing_record() {
    let h = edges_header(24.0, 2, 0, 0, 0, false);
    let mut data = stream(&h, &[(0, vec![1, 2, 3, 4, 5, 6]), (41666, vec![7, 8, 9, 10, 11, 12])]);
    // A third timestamp with only half its payload: dropped entirely.
    data.extend_from_slice(&83332u64.to_le_bytes());
    data.extend_from_slice(&[9, 9, 9]);
    let ls = load(&data).unwrap();
    assert_eq!(ls.timestamps.len(), 2);
    assert_eq!(ls.frames.len(), 2);
    assert_eq!(ls.timestamps, vec![0, 41666]);
}

#[test]
fn load_drops_bare_trailing_timestamp() {
    let h = edges_header(24.0, 1, 0, 0, 0, false);
    let mut data = stream(&h, &[(0, vec![1, 2, 3])]);
    data.extend_from_slice(&41666u64.to_le_bytes()[..5]);
    let ls = load(&data).unwrap();
    assert_eq!(ls.timestamps.len(), 1);
}

#[test]
fn load_empty_record_section() {
    let h = edges_header(24.0, 1, 0, 0, 0, false);
    let data = stream(&h, &[]);
    let ls = load(&data).unwrap();
    assert!(ls.timestamps.is_empty());
    assert!(ls.frames.is_empty());
}

#[test]
fn bad_magic_is_fatal() {
    let mut data = b"XXXX".to_vec();
    data.extend_from_slice(&[0u8; 20]);
    assert_eq!(load(&data), Err(FormatError::BadMagic));
}

#[test]
fn truncated_header_is_fatal() {
    assert_eq!(parse_header(b"AM"), Err(FormatError::TruncatedHeader));
    assert_eq!(parse_header(b"AMb2\x00\x00"), Err(FormatError::TruncatedHeader));
    assert_eq!(parse_header(b"AMb1\x00\x00\x00\x00\x01\x00"), Err(FormatError::TruncatedHeader));
}

#[test]
fn fps_bit_validity_matches_float_range() {
    assert!(fps_bits_valid(24.0f32.to_bits()));
    assert!(fps_bits_valid(300.0f32.to_bits()));
    assert!(fps_bits_valid(0.001f32.to_bits()));
    assert!(!fps_bits_valid(0.0f32.to_bits()));
    assert!(!fps_bits_valid(300.1f32.to_bits()));
    assert!(!fps_bits_valid((-24.0f32).to_bits()));
    assert!(!fps_bits_valid(f32::NAN.to_bits()));
    assert!(!fps_bits_valid(f32::INFINITY.to_bits()));
}

use voicebbs::rtp::{build_header, chunk_bounds, frame, packetize, RtpCounters, RtpHeader};

#[test]
fn header_new_has_fixed_fields() {
    let h = RtpHeader::new(7, 1120, 0x12345678);
    assert_eq!(h.version, 2);
    assert!(!h.padding);
    assert!(!h.extension);
    assert_eq!(h.csrc_count, 0);
    assert!(!h.marker);
    assert_eq!(h.payload_type, 0);
    assert_eq!(h.sequence_number, 7);
    assert_eq!(h.timestamp, 1120);
    assert_eq!(h.ssrc, 0x12345678);
}

#[test]
fn header_build_is_network_order() {
    let h = RtpHeader::new(0x0102, 0x0A0B0C0D, 0x12345678);
    assert_eq!(
        h.build(),
        vec![0x80, 0x00, 0x01, 0x02, 0x0A, 0x0B, 0x0C, 0x0D, 0x12, 0x34, 0x56, 0x78]
    );
}

#[test]
fn header_build_sets_marker_and_payload_type() {
    let mut h = RtpHeader::new(0, 0, 0);
    h.marker = true;
    h.payload_type = 8;
    assert_eq!(h.build()[1], 0x88);
}

#[test]
fn build_header_carries_payload_type() {
    let b = build_header(65535, 4294967295, 1, 8);
    assert_eq!(b, vec![0x80, 0x08, 0xFF, 0xFF, 0xFF, 0xFF, 0xFF, 0xFF, 0, 0, 0, 1]);
}

#[test]
fn counters_wrap() {
    let c = RtpCounters::new(65535, 4294967200).advance();
    assert_eq!(c.sequence_number, 0);
    assert_eq!(c.timestamp, 64);
}

#[test]
fn frame_appends_chunk_unchanged() {
    let p = frame(&[1, 2, 3], RtpCounters::new(5, 800), 9, 0);
    assert_eq!(p.len(), 15);
    assert_eq!(&p[0..4], &[0x80, 0x00, 0x00, 0x05]);
    assert_eq!(&p[4..8], &[0, 0, 0x03, 0x20]);
    assert_eq!(&p[12..], &[1, 2, 3]);
}

#[test]
fn chunk_bounds_short_tail() {
    assert_eq!(chunk_bounds(330, 0), (0, 160));
    assert_eq!(chunk_bounds(330, 2), (320, 330));
}

#[test]
fn packetize_numbers_across_wrap() {
    let audio = vec![7u8; 330];
    let packets = packetize(&audio, RtpCounters::new(65534, 4294967200), 1, 0);
    assert_eq!(packets.len(), 3);
    let seqs: Vec<u16> = packets.iter().map(|p| u16::from_be_bytes([p[2], p[3]])).collect();
    let stamps: Vec<u32> = packets.iter().map(|p| u32::from_be_bytes([p[4], p[5], p[6], p[7]])).collect();
    assert_eq!(seqs, vec![65534, 65535, 0]);
    assert_eq!(stamps, vec![4294967200, 64, 224]);
    assert_eq!(packets[0].len(), 172);
    assert_eq!(packets[2].len(), 22);
}

#[test]
fn packetize_empty_audio_gives_no_packets() {
    assert!(packetize(&[], RtpCounters::new(0, 0), 1, 0).is_empty());
}

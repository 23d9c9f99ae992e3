use resc_client::binary::{CursorUpdate, PacketPrefix, VideoChunkPacket};
use resc_client::constants::{
    CURSOR_TOTAL_PACKET_BYTES, CURSOR_UPDATE_BYTES, INPUT_EVENT_BYTES, INPUT_TOTAL_PACKET_BYTES, MAGIC,
    MAX_DATAGRAM_BYTES, MAX_VIDEO_PAYLOAD_BYTES, PACKET_PREFIX_BYTES, PACKET_TYPE_CURSOR_UPDATE,
    PACKET_TYPE_VIDEO_CHUNK, PROTOCOL_VERSION, VIDEO_CHUNK_HEADER_BYTES, VIDEO_TOTAL_HEADER_BYTES,
};

#[test]
fn constants_self_consistent() {
    assert_eq!(PACKET_PREFIX_BYTES, 6);
    assert_eq!(VIDEO_TOTAL_HEADER_BYTES, PACKET_PREFIX_BYTES + VIDEO_CHUNK_HEADER_BYTES);
    assert_eq!(MAX_VIDEO_PAYLOAD_BYTES, MAX_DATAGRAM_BYTES - VIDEO_TOTAL_HEADER_BYTES);
    assert_eq!(CURSOR_TOTAL_PACKET_BYTES, PACKET_PREFIX_BYTES + CURSOR_UPDATE_BYTES);
    assert_eq!(INPUT_TOTAL_PACKET_BYTES, PACKET_PREFIX_BYTES + INPUT_EVENT_BYTES);
}

#[test]
fn packet_prefix_valid_parse() {
    let buf = [0x52, 0x45, 0x53, 0x43, 1, 0];
    let prefix = PacketPrefix::parse(&buf).unwrap();
    assert!(prefix.is_valid());
    assert_eq!(prefix.packet_type, PACKET_TYPE_VIDEO_CHUNK);
}

#[test]
fn packet_prefix_invalid_magic() {
    let buf = [0x00, 0x00, 0x00, 0x00, 1, 0];
    assert!(PacketPrefix::parse(&buf).is_none());
}

#[test]
fn packet_prefix_too_short() {
    let buf = [0x52, 0x45, 0x53];
    assert!(PacketPrefix::parse(&buf).is_none());
}

#[test]
fn packet_prefix_wrong_version_parses_but_is_invalid() {
    let buf = [0x52, 0x45, 0x53, 0x43, 2, 1];
    let prefix = PacketPrefix::parse(&buf).unwrap();
    assert!(!prefix.is_valid());
    assert_eq!(prefix.version, 2);
}

fn video_packet(chunk_id: u16, payload_len: usize) -> Vec<u8> {
    let mut buf = vec![0u8; VIDEO_TOTAL_HEADER_BYTES + payload_len];
    buf[0..4].copy_from_slice(&MAGIC);
    buf[4] = PROTOCOL_VERSION;
    buf[5] = PACKET_TYPE_VIDEO_CHUNK;
    buf[6..10].copy_from_slice(&1u32.to_le_bytes());
    buf[10..14].copy_from_slice(&2u32.to_le_bytes());
    buf[14..18].copy_from_slice(&3u32.to_le_bytes());
    buf[18..20].copy_from_slice(&chunk_id.to_le_bytes());
    buf[20..22].copy_from_slice(&(payload_len as u16).to_le_bytes());
    buf[22..30].copy_from_slice(&1000u64.to_le_bytes());
    buf[30] = 1;
    buf[31] = 0;
    buf[32..34].copy_from_slice(&1920u16.to_le_bytes());
    buf[34..36].copy_from_slice(&1080u16.to_le_bytes());
    buf[36..38].copy_from_slice(&1u16.to_le_bytes());
    buf[38..42].copy_from_slice(&(payload_len as u32).to_le_bytes());
    for b in buf[42..].iter_mut() {
        *b = 0xAA;
    }
    buf
}

#[test]
fn video_chunk_roundtrip() {
    let buf = video_packet(0, 10);
    let parsed = VideoChunkPacket::parse(&buf).unwrap();
    assert_eq!(parsed.per_packet.stream_id, 1);
    assert_eq!(parsed.per_packet.config_id, 2);
    assert_eq!(parsed.per_packet.frame_id, 3);
    assert_eq!(parsed.per_packet.chunk_id, 0);
    assert_eq!(parsed.per_packet.chunk_size, 10);
    let pf = parsed.per_frame.unwrap();
    assert_eq!(pf.timestamp_us, 1000);
    assert!(pf.is_keyframe);
    assert_eq!(pf.codec, 0);
    assert_eq!(pf.width, 1920);
    assert_eq!(pf.height, 1080);
    assert_eq!(pf.total_chunks, 1);
    assert_eq!(pf.total_bytes, 10);
    assert_eq!(parsed.payload, vec![0xAA; 10]);
}

#[test]
fn video_chunk_nonzero_id_has_no_frame_metadata() {
    let buf = video_packet(2, 4);
    let parsed = VideoChunkPacket::parse(&buf).unwrap();
    assert_eq!(parsed.per_packet.chunk_id, 2);
    assert!(parsed.per_frame.is_none());
    assert_eq!(parsed.payload, vec![0xAA; 4]);
}

#[test]
fn video_chunk_truncated_payload_rejected() {
    let mut buf = video_packet(0, 10);
    buf.truncate(VIDEO_TOTAL_HEADER_BYTES + 5);
    assert!(VideoChunkPacket::parse(&buf).is_none());
}

#[test]
fn cursor_update_roundtrip() {
    let mut buf = vec![0u8; CURSOR_TOTAL_PACKET_BYTES];
    buf[0..4].copy_from_slice(&MAGIC);
    buf[4] = PROTOCOL_VERSION;
    buf[5] = PACKET_TYPE_CURSOR_UPDATE;
    let off = PACKET_PREFIX_BYTES;
    buf[off..off + 4].copy_from_slice(&42u32.to_le_bytes());
    buf[off + 4..off + 12].copy_from_slice(&99999u64.to_le_bytes());
    buf[off + 12..off + 16].copy_from_slice(&100i32.to_le_bytes());
    buf[off + 16..off + 20].copy_from_slice(&200i32.to_le_bytes());
    buf[off + 20] = 1;

    let parsed = CursorUpdate::parse(&buf).unwrap();
    assert_eq!(parsed.seq, 42);
    assert_eq!(parsed.x_px, 100);
    assert_eq!(parsed.y_px, 200);
    assert_eq!(parsed.shape_id, 1);
}

use resc_client::v3wire::{
    classify, keyframe_claim_matches, newer_u24, newer_u32, parse_cursor, parse_frame_header, parse_move,
    parse_video_hello, parse_video_hello_ack, scan_annexb, scroll_transform, validate_session_first, AckStatus,
    FailureClass, NalSummary, WireError,
};

const RUN_ID: u64 = 0x1122334455667788;
const PROFILE_HASH: [u8; 8] = [0x0c, 0xc2, 0x24, 0x96, 0x62, 0x88, 0x05, 0x97];
const PLACEHOLDER_MAX_RECORD_BYTES: u64 = 2_097_184;

fn video_hello_bytes() -> Vec<u8> {
    let mut b = vec![0u8; 32];
    b[0..4].copy_from_slice(b"RSCV");
    b[4] = 3;
    b[6..8].copy_from_slice(&32u16.to_le_bytes());
    b[8..16].copy_from_slice(&RUN_ID.to_le_bytes());
    b[16..24].copy_from_slice(&PROFILE_HASH);
    b
}

fn video_hello_ack_bytes(status: u8) -> Vec<u8> {
    let mut b = vec![0u8; 16];
    b[0..4].copy_from_slice(b"RSCA");
    b[4] = 3;
    b[5] = status;
    b[6..8].copy_from_slice(&16u16.to_le_bytes());
    b[8..16].copy_from_slice(&RUN_ID.to_le_bytes());
    b
}

fn frame_header_bytes(flags: u8, ordinal: u64, payload_len: u32) -> [u8; 32] {
    let mut b = [0u8; 32];
    b[0] = b'V';
    b[1] = b'F';
    b[2] = 32;
    b[3] = flags;
    b[4..12].copy_from_slice(&ordinal.to_le_bytes());
    b[28..32].copy_from_slice(&payload_len.to_le_bytes());
    b
}

fn move_bytes() -> Vec<u8> {
    let mut b = vec![0u8; 26];
    b[0..4].copy_from_slice(b"RESC");
    b[4] = 3;
    b[5] = 2;
    b[6..14].copy_from_slice(&RUN_ID.to_le_bytes());
    b[14..18].copy_from_slice(&1u32.to_le_bytes());
    b[18..22].copy_from_slice(&100i32.to_le_bytes());
    b[22..26].copy_from_slice(&(-200i32).to_le_bytes());
    b
}

fn cursor_bytes(shape: u8, scale: f32) -> Vec<u8> {
    let mut b = vec![0u8; 43];
    b[0..4].copy_from_slice(b"RESC");
    b[4] = 3;
    b[5] = 1;
    b[6..14].copy_from_slice(&RUN_ID.to_le_bytes());
    b[14..18].copy_from_slice(&1u32.to_le_bytes());
    b[26..30].copy_from_slice(&100i32.to_le_bytes());
    b[30..34].copy_from_slice(&200i32.to_le_bytes());
    b[34] = shape;
    b[39..43].copy_from_slice(&scale.to_bits().to_le_bytes());
    b
}

#[test]
fn video_hello_parses_run_id_and_hash() {
    let parsed = parse_video_hello(&video_hello_bytes()).unwrap();
    assert_eq!(parsed.session_run_id, RUN_ID);
    assert_eq!(parsed.profile_hash, PROFILE_HASH);
}

#[test]
fn video_hello_rejections_name_the_first_broken_rule() {
    let mut b = video_hello_bytes();
    b[0] = b'X';
    assert_eq!(parse_video_hello(&b), Err(WireError::ProtocolViolation("video_hello: bad magic")));
    assert_eq!(
        parse_video_hello(&video_hello_bytes()[..31]),
        Err(WireError::ProtocolViolation("video_hello: length must be 32 B"))
    );
    let mut b = video_hello_bytes();
    b[5] = 1;
    assert_eq!(parse_video_hello(&b), Err(WireError::ProtocolViolation("video_hello: reserved u8 must be 0")));
    let mut b = video_hello_bytes();
    b[31] = 1;
    assert_eq!(parse_video_hello(&b), Err(WireError::ProtocolViolation("video_hello: reserved u64 must be 0")));
}

#[test]
fn video_hello_ack_statuses() {
    let cases = [(0u8, AckStatus::Accepted), (1, AckStatus::Mismatch), (2, AckStatus::Busy), (3, AckStatus::Internal)];
    for (byte, expected) in cases {
        let parsed = parse_video_hello_ack(&video_hello_ack_bytes(byte)).unwrap();
        assert_eq!(parsed.status, expected);
        assert_eq!(parsed.session_run_id, RUN_ID);
    }
    assert_eq!(
        parse_video_hello_ack(&video_hello_ack_bytes(4)),
        Err(WireError::ProtocolViolation("video_hello_ack: unknown status byte"))
    );
}

#[test]
fn frame_header_minimal_parses() {
    let parsed = parse_frame_header(&frame_header_bytes(1, 1, 0), PLACEHOLDER_MAX_RECORD_BYTES).unwrap();
    assert!(parsed.keyframe_claim);
    assert_eq!(parsed.frame_ordinal, 1);
    assert_eq!(parsed.capture_seq, 0);
    assert_eq!(parsed.content_capture_ts_us, 0);
    assert_eq!(parsed.payload_len, 0);
}

#[test]
fn frame_header_rejections() {
    assert!(matches!(
        parse_frame_header(&frame_header_bytes(2, 1, 0), PLACEHOLDER_MAX_RECORD_BYTES),
        Err(WireError::ProtocolViolation(_))
    ));
    assert!(matches!(
        parse_frame_header(&frame_header_bytes(0, 0, 0), PLACEHOLDER_MAX_RECORD_BYTES),
        Err(WireError::ProtocolViolation(_))
    ));
    assert!(matches!(
        parse_frame_header(&frame_header_bytes(0, 1u64 << 63, 0), PLACEHOLDER_MAX_RECORD_BYTES),
        Err(WireError::ProtocolViolation(_))
    ));
    match parse_frame_header(&frame_header_bytes(0, 1, 0xFFFF_FFFF), PLACEHOLDER_MAX_RECORD_BYTES) {
        Err(WireError::RecordCapViolation { total, cap }) => {
            assert_eq!(total, 32u64 + 0xFFFF_FFFFu64);
            assert_eq!(cap, PLACEHOLDER_MAX_RECORD_BYTES);
        }
        other => panic!("expected RecordCapViolation, got {other:?}"),
    }
    // Exactly at the cap is accepted.
    let at_cap = (PLACEHOLDER_MAX_RECORD_BYTES - 32) as u32;
    assert!(parse_frame_header(&frame_header_bytes(0, 1, at_cap), PLACEHOLDER_MAX_RECORD_BYTES).is_ok());
}

#[test]
fn move_parses_and_rejects_short() {
    let parsed = parse_move(&move_bytes()).unwrap();
    assert_eq!(parsed.session_run_id, RUN_ID);
    assert_eq!(parsed.seq, 1);
    assert_eq!(parsed.x, 100);
    assert_eq!(parsed.y, -200);
    assert!(matches!(parse_move(&move_bytes()[..25]), Err(WireError::ProtocolViolation(_))));
}

#[test]
fn cursor_parses_and_checks_scale_and_shape() {
    let parsed = parse_cursor(&cursor_bytes(0, 1.0)).unwrap();
    assert_eq!(parsed.session_run_id, RUN_ID);
    assert_eq!(parsed.x_px, 100);
    assert_eq!(parsed.y_px, 200);
    assert_eq!(f32::from_bits(parsed.cursor_scale_bits), 1.0);
    for bad in [0.0f32, -1.0, f32::INFINITY, f32::NAN] {
        assert_eq!(
            parse_cursor(&cursor_bytes(0, bad)),
            Err(WireError::ProtocolViolation("cursor: cursor_scale must be finite and > 0"))
        );
    }
    assert_eq!(
        parse_cursor(&cursor_bytes(16, 1.0)),
        Err(WireError::ProtocolViolation("cursor: shape_id out of 0..=15"))
    );
    let mut long = cursor_bytes(0, 1.0);
    long.push(0);
    assert!(matches!(parse_cursor(&long), Err(WireError::ProtocolViolation(_))));
}

#[test]
fn unspecified_is_none() {
    assert_eq!(classify(0), None);
}

#[test]
fn unknown_numeric_is_none() {
    assert_eq!(classify(99), None);
}

#[test]
fn classes_of_known_codes() {
    assert_eq!(classify(1), Some(FailureClass::Deterministic));
    assert_eq!(classify(10), Some(FailureClass::Transient));
    assert_eq!(classify(19), Some(FailureClass::Terminal));
    assert_eq!(classify(20), Some(FailureClass::Terminal));
    assert_eq!(classify(21), Some(FailureClass::Deterministic));
    assert_eq!(classify(22), Some(FailureClass::Transient));
    assert_eq!(classify(23), None);
    assert_eq!(classify(-1), None);
}

#[test]
fn u32_equal_is_not_newer() {
    assert!(!newer_u32(5, 5));
}

#[test]
fn u32_forward_small_is_newer() {
    assert!(newer_u32(6, 5));
}

#[test]
fn u32_wrap_forward_is_newer() {
    assert!(newer_u32(5, 0xFFFF_FFF0));
}

#[test]
fn u32_stale_reverse_is_not_newer() {
    assert!(!newer_u32(5, 6));
    assert!(!newer_u32(0xFFFF_FFF0, 5));
}

#[test]
fn u32_half_range_boundary() {
    assert!(!newer_u32(0x8000_0000, 0));
    assert!(newer_u32(0x7FFF_FFFF, 0));
}

#[test]
fn u24_equal_is_not_newer() {
    assert!(!newer_u24(5, 5));
}

#[test]
fn u24_forward_small_is_newer() {
    assert!(newer_u24(6, 5));
}

#[test]
fn u24_wrap_forward_is_newer() {
    assert!(newer_u24(5, 0xFF_FFF0));
}

#[test]
fn u24_stale_reverse_is_not_newer() {
    assert!(!newer_u24(5, 6));
    assert!(!newer_u24(0xFF_FFF0, 5));
}

#[test]
fn u24_half_range_boundary() {
    assert!(!newer_u24(0x80_0000, 0));
    assert!(newer_u24(0x7F_FFFF, 0));
}

#[test]
fn u24_masks_high_bits_of_its_inputs() {
    assert_eq!(newer_u24(0x0100_0005, 0x0100_0000), newer_u24(5, 0));
}

#[test]
fn scroll_transform_quantizes_and_rotates() {
    assert_eq!(scroll_transform(0, 0, false), (0, 0));
    assert_eq!(scroll_transform(1, 2, false), (10, 20));
    assert_eq!(scroll_transform(1, 2, true), (-20, 10));
    assert_eq!(scroll_transform(i32::MIN, 0, true), (0, i32::MIN));
    assert_eq!(scroll_transform(0, i32::MIN, true), (i32::MAX, 0));
    assert_eq!(scroll_transform(i32::MAX, i32::MIN, false), (i32::MAX, i32::MIN));
}

fn annexb_4byte(nal_types: &[u8]) -> Vec<u8> {
    let mut out = Vec::new();
    for &t in nal_types {
        out.extend_from_slice(&[0, 0, 0, 1]);
        out.push(t << 1);
    }
    out
}

#[test]
fn full_valid_set_idr_w_radl_passes() {
    let s = scan_annexb(&annexb_4byte(&[32, 33, 34, 19]));
    assert_eq!(s.types, vec![32, 33, 34, 19]);
    assert!(s.has_vps && s.has_sps && s.has_pps && s.has_idr && !s.has_cra);
    assert_eq!(validate_session_first(&s), Ok(()));
    assert!(keyframe_claim_matches(&s, true));
    assert!(!keyframe_claim_matches(&s, false));
}

#[test]
fn full_valid_set_idr_n_lp_passes() {
    let s = scan_annexb(&annexb_4byte(&[32, 33, 34, 20]));
    assert_eq!(s.types, vec![32, 33, 34, 20]);
    assert!(s.has_vps && s.has_sps && s.has_pps && s.has_idr && !s.has_cra);
    assert_eq!(validate_session_first(&s), Ok(()));
    assert!(keyframe_claim_matches(&s, true));
}

#[test]
fn missing_pps_fails() {
    let s = scan_annexb(&annexb_4byte(&[32, 33, 19]));
    assert!(s.has_vps && s.has_sps && !s.has_pps && s.has_idr);
    assert!(validate_session_first(&s).is_err());
}

#[test]
fn cra_instead_of_idr_fails() {
    let s = scan_annexb(&annexb_4byte(&[32, 33, 34, 21]));
    assert!(s.has_vps && s.has_sps && s.has_pps && s.has_cra && !s.has_idr);
    assert!(validate_session_first(&s).is_err());
}

#[test]
fn cra_alongside_idr_fails() {
    let s = scan_annexb(&annexb_4byte(&[32, 33, 34, 21, 19]));
    assert!(s.has_vps && s.has_sps && s.has_pps && s.has_cra && s.has_idr);
    assert!(validate_session_first(&s).is_err());
}

#[test]
fn keyframe_claim_mismatch_both_directions() {
    let idr = scan_annexb(&annexb_4byte(&[32, 33, 34, 19]));
    assert!(!keyframe_claim_matches(&idr, false));

    let non_idr = scan_annexb(&annexb_4byte(&[32, 33, 34]));
    assert!(!keyframe_claim_matches(&non_idr, true));
    assert!(keyframe_claim_matches(&non_idr, false));
}

#[test]
fn three_byte_start_code_parsing() {
    let mut data = Vec::new();
    for &t in &[32u8, 33, 34, 19] {
        data.extend_from_slice(&[0, 0, 1]);
        data.push(t << 1);
    }
    let s = scan_annexb(&data);
    assert_eq!(s.types, vec![32, 33, 34, 19]);
    assert_eq!(validate_session_first(&s), Ok(()));
}

#[test]
fn empty_input() {
    let s = scan_annexb(&[]);
    assert_eq!(s, NalSummary::default());
    assert!(validate_session_first(&s).is_err());
}

#[test]
fn session_first_messages() {
    let s = scan_annexb(&annexb_4byte(&[32, 33, 34, 21, 19]));
    assert_eq!(validate_session_first(&s), Err("CRA present in session-first AU (rejected)"));
    let s = scan_annexb(&annexb_4byte(&[32, 34, 19]));
    assert_eq!(
        validate_session_first(&s),
        Err("session-first AU missing a required parameter set (VPS/SPS/PPS)")
    );
    let s = scan_annexb(&annexb_4byte(&[32, 33, 34, 1]));
    assert_eq!(validate_session_first(&s), Err("session-first AU missing an IDR (NAL 19/20)"));
}

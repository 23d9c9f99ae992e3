use resc_client::harness::{build_ack, parse_header, Connection};
use resc_client::loop_engine::{CallLog, FrameBudget, DecoderLoopBackend, FrameOutcome, SendOutcome};
use std::collections::VecDeque;

fn header(flags: u8, ordinal: u64, reserved: u32, payload_len: u32) -> [u8; 32] {
    let mut b = [0u8; 32];
    b[0] = 0x56;
    b[1] = 0x46;
    b[2] = 32;
    b[3] = flags;
    b[4..12].copy_from_slice(&ordinal.to_le_bytes());
    b[12..16].copy_from_slice(&7u32.to_le_bytes());
    b[16..24].copy_from_slice(&99u64.to_le_bytes());
    b[24..28].copy_from_slice(&reserved.to_le_bytes());
    b[28..32].copy_from_slice(&payload_len.to_le_bytes());
    b
}

#[test]
fn parse_header_accepts_a_valid_record() {
    let h = parse_header(&header(1, 5, 0, 10)).unwrap();
    assert_eq!(h.flags, 1);
    assert_eq!(h.frame_ordinal, 5);
    assert_eq!(h.capture_seq, 7);
    assert_eq!(h.content_capture_ts_us, 99);
    assert_eq!(h.payload_len, 10);
}

#[test]
fn parse_header_error_texts() {
    let mut b = header(0, 1, 0, 0);
    b[0] = 0xab;
    assert_eq!(parse_header(&b).unwrap_err(), "bad magic: ab 46 (want 56 46)");
    let mut b = header(0, 1, 0, 0);
    b[2] = 31;
    assert_eq!(parse_header(&b).unwrap_err(), "bad headerLen: 31 (want 32)");
    assert_eq!(parse_header(&header(6, 1, 0, 0)).unwrap_err(), "unknown flag bits set: 0x06");
    assert_eq!(parse_header(&header(0, 0, 0, 0)).unwrap_err(), "frameOrdinal 0 out of domain 1..i64::MAX");
    assert_eq!(
        parse_header(&header(0, 1u64 << 63, 0, 0)).unwrap_err(),
        "frameOrdinal 9223372036854775808 out of domain 1..i64::MAX"
    );
    assert_eq!(parse_header(&header(0, 1, 3, 0)).unwrap_err(), "reserved field nonzero: 3");
    assert_eq!(
        parse_header(&header(0, 1, 0, 8 * 1024 * 1024)).unwrap_err(),
        "record cap exceeded: headerLen+payloadLen=8388640 > 8388608 (8 MiB hard sanity cap)"
    );
    assert!(parse_header(&header(0, 1, 0, 8 * 1024 * 1024 - 32)).is_ok());
}

#[test]
fn build_ack_layout() {
    let a = build_ack(0x0102030405060708);
    assert_eq!(a, [0x41, 0x4B, 0, 0, 8, 7, 6, 5, 4, 3, 2, 1]);
}

#[derive(Default)]
struct Scripted {
    sends: VecDeque<Result<SendOutcome, String>>,
    frames: VecDeque<Result<FrameOutcome, String>>,
    eofs: VecDeque<Result<SendOutcome, String>>,
}

impl DecoderLoopBackend for Scripted {
    fn calls(&self) -> CallLog {
        unreachable!("specification item: the verifier reads it, nothing calls it")
    }

    fn ready_frames(&self) -> FrameBudget {
        unreachable!("specification item: the verifier reads it, nothing calls it")
    }

    fn send_packet(&mut self, _ordinal: i64, _data: &[u8]) -> Result<SendOutcome, String> {
        self.sends.pop_front().expect("send script exhausted")
    }
    fn receive_frame(&mut self) -> Result<FrameOutcome, String> {
        self.frames.pop_front().expect("frame script exhausted")
    }
    fn send_eof(&mut self) -> Result<SendOutcome, String> {
        self.eofs.pop_front().expect("eof script exhausted")
    }
}

#[test]
fn connection_clean_run_passes() {
    let mut b = Scripted::default();
    b.sends.extend([Ok(SendOutcome::Accepted), Ok(SendOutcome::Accepted)]);
    b.frames.extend([
        Ok(FrameOutcome::Frame(Some(1))),
        Ok(FrameOutcome::Empty),
        Ok(FrameOutcome::Empty),
        Ok(FrameOutcome::Frame(Some(2))),
        Ok(FrameOutcome::Empty),
    ]);
    b.eofs.extend([Ok(SendOutcome::Accepted)]);
    let mut c = Connection::new();
    for ord in 1..=2u64 {
        let h = c.on_header(&header(0, ord, 0, 3)).unwrap();
        assert_eq!(c.on_record(&mut b, &h, &[1, 2, 3]), Some(ord));
        c.on_ack_written();
    }
    c.on_clean_eof(&mut b);
    let v = c.verdict_inputs();
    assert!(v.evaluate());
    let s = c.summary();
    assert_eq!(s.frames_received, 2);
    assert_eq!(s.frames_acked, 2);
    assert_eq!(s.frames_emitted, 2);
    assert_eq!(s.outstanding_at_exit, 0);
    assert!(s.clean_eof_tail_drain);
    assert!(!s.torn_down);
    assert!(s.fail_reasons.is_empty());
}

#[test]
fn connection_ack_order_violation_tears_down() {
    let mut b = Scripted::default();
    b.sends.extend([Ok(SendOutcome::Accepted)]);
    b.frames.extend([Ok(FrameOutcome::Frame(Some(5))), Ok(FrameOutcome::Empty)]);
    let mut c = Connection::new();
    let h = c.on_header(&header(0, 5, 0, 1)).unwrap();
    assert_eq!(c.on_record(&mut b, &h, &[0]), Some(5));
    c.on_ack_written();
    let h = c.on_header(&header(0, 5, 0, 1)).unwrap();
    assert_eq!(c.on_record(&mut b, &h, &[0]), None);
    let s = c.summary();
    assert_eq!(s.ack_order_violations, 1);
    assert!(s.torn_down);
    assert_eq!(s.fail_reasons, vec!["ACK-order violation: ordinal 5 did not increase past last-acked 5".to_string()]);
    assert!(!c.verdict_inputs().evaluate());
}

#[test]
fn connection_protocol_and_decoder_errors() {
    let mut c = Connection::new();
    assert!(c.on_header(&header(0, 0, 0, 1)).is_none());
    let s = c.summary();
    assert_eq!(s.protocol_errors, 1);
    assert_eq!(s.fail_reasons, vec!["PROTOCOL_VIOLATION parsing header: frameOrdinal 0 out of domain 1..i64::MAX".to_string()]);

    let mut b = Scripted::default();
    b.sends.extend([Err("boom".to_string())]);
    let mut c = Connection::new();
    let h = c.on_header(&header(0, 3, 0, 1)).unwrap();
    assert_eq!(c.on_record(&mut b, &h, &[0]), None);
    let s = c.summary();
    assert_eq!(s.fatal_decoder_errors, 1);
    assert_eq!(s.fail_reasons, vec!["teardown at ordinal 3: boom".to_string()]);
}

#[test]
fn connection_read_and_write_failures() {
    let mut b = Scripted::default();
    b.sends.extend([Ok(SendOutcome::Accepted)]);
    b.frames.extend([Ok(FrameOutcome::Empty)]);
    let mut c = Connection::new();
    let h = c.on_header(&header(0, 9, 0, 4)).unwrap();
    c.on_payload_read_error(&h, "eof");
    assert_eq!(c.summary().fail_reasons, vec!["payload read error (ordinal 9, 4 bytes): eof".to_string()]);
    let mut c = Connection::new();
    let h = c.on_header(&header(0, 9, 0, 4)).unwrap();
    assert_eq!(c.on_record(&mut b, &h, &[0, 0, 0, 0]), Some(9));
    c.on_ack_write_error("reset");
    let s = c.summary();
    assert_eq!(s.fail_reasons, vec!["ACK write failed at ordinal 9: reset".to_string()]);
    assert_eq!(s.outstanding_at_exit, 1);
    let mut c = Connection::new();
    c.on_header_read_error("broken pipe");
    assert_eq!(c.summary().fail_reasons, vec!["header read error: broken pipe".to_string()]);
}

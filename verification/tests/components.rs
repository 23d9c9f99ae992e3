use resc_client::buildinfo::{build_commit_choice, build_dirty_from, lock_file_name, run_token, run_token_text, trace_flush_due};
use resc_client::profile::hash8;
use resc_client::control::{check_start_streaming, control_frame_len, track_session};
use resc_client::cursor::{arrow_rects, CursorRect, CursorRenderer};
use resc_client::doctor::{combine_exit, environment_exit, input_capability, sdl_texture_verdict, DecodeSampleRun, SdlProbe};
use resc_client::input::{encode_input_event, sdl_scancode_to_hid, InputCapture, InputOwnership};
use resc_client::ledger::{IdentityLedger, ResolveOutcome, SubmitOutcome};
use resc_client::loop_engine::{CallLog, FrameBudget, DecoderLoopBackend, FrameOutcome, SendOutcome};
use resc_client::ordinals::{Emission, EmissionLog};
use resc_client::receiver::{QueueFullAction, ReceiverCore};
use resc_client::text::{parse_u64, str_eq};
use resc_client::video::{
    concealment_frame, cuvid_decoder_names, gray_sample_offsets, is_rotated, needs_new_texture, software_codec,
    split_nv12_chroma, tint_interleaved, tint_plane, DecoderState, FrameFormat, IDRReason, Recovery, SoftwareCodec,
};
use std::collections::VecDeque;

#[test]
fn parse_u64_like_std() {
    for s in ["0", "42", "+7", "18446744073709551615", "", "+", "-1", "1x", "18446744073709551616", " 1"] {
        assert_eq!(parse_u64(s), s.parse::<u64>().ok(), "{s:?}");
    }
    assert!(str_eq("abc", "abc"));
    assert!(!str_eq("abc", "abd"));
}

#[test]
fn ordinal_classes() {
    let mut l = EmissionLog::new();
    assert_eq!(l.record(Some(1)), Emission::InOrder);
    assert_eq!(l.record(Some(3)), Emission::Skip);
    assert_eq!(l.record(Some(2)), Emission::Reorder);
    assert_eq!(l.record(Some(3)), Emission::InOrder);
    assert_eq!(l.record(Some(3)), Emission::Duplicate);
    assert_eq!(l.record(None), Emission::Unknown);
    let c = l.counts();
    assert_eq!((c.emitted, c.skips, c.reorders, c.duplicates, c.unknown_pts), (6, 1, 1, 1, 1));
    assert_eq!(l.expected(), 4);
}

#[test]
fn input_hotkeys_and_forwarding() {
    let mut c = InputCapture::new(true, 1920, 1080);
    assert!(c.process_key(4, 97, true, 0).is_none());
    assert!(c.process_key(10, 103, true, 0x0040 | 0x0100).is_none());
    assert!(c.grab_pending);
    assert!(c.process_key(41, 27, true, 0x0080 | 0x0200).is_none());
    assert!(c.release_pending);
    c.grab();
    assert_eq!(c.ownership, InputOwnership::RemoteControlGrabbed);
    let k = c.process_key(300, 1, false, 5).unwrap();
    assert_eq!((k.hid_usage, k.logical_keysym, k.is_down, k.modifiers), (0, 1, false, 5));
    let p = c.send_mouse_move(-5, 7).unwrap();
    assert_eq!(&p[0..6], &[0x52, 0x45, 0x53, 0x43, 1, 2]);
    assert_eq!(u32::from_le_bytes([p[6], p[7], p[8], p[9]]), 1);
    assert_eq!(p[10], 0);
    assert_eq!(i32::from_le_bytes([p[11], p[12], p[13], p[14]]), -5);
    assert_eq!(i32::from_le_bytes([p[15], p[16], p[17], p[18]]), 7);
    c.rotated = true;
    let p = c.send_scroll(3, -4).unwrap();
    assert_eq!(p[10], 3);
    assert_eq!(i16::from_le_bytes([p[20], p[21]]), 4);
    assert_eq!(i16::from_le_bytes([p[22], p[23]]), 3);
    assert_eq!(c.seq, 2);
    c.release();
    assert!(c.send_mouse_down(0, 0, 1).is_none());
    let mut no_socket = InputCapture::new(false, 10, 10);
    no_socket.grab();
    assert!(no_socket.send_mouse_up(1, 1, 1).is_none());
    assert_eq!(no_socket.seq, 0);
    assert_eq!(sdl_scancode_to_hid(4), 4);
    assert_eq!(encode_input_event(9, 2, 1, 2, 3, 4, 5)[19], 3);
}

#[test]
fn recovery_state_machine() {
    let mut r = Recovery::new();
    r.enter_waiting_for_idr(IDRReason::DecodeError, 1_000_000);
    assert_eq!(r.state, DecoderState::WaitingForIDR);
    assert_eq!(r.pending_idr_reason, Some(IDRReason::DecodeError));
    r.pending_idr_reason = None;
    r.request_idr(IDRReason::CorruptFrame, 1_200_000);
    assert_eq!(r.pending_idr_reason, None);
    r.request_idr(IDRReason::CorruptFrame, 1_250_000);
    assert_eq!(r.pending_idr_reason, Some(IDRReason::CorruptFrame));
    assert!(r.skips(false));
    assert!(!r.skips(true));
    r.on_emission(true);
    assert_eq!(r.state, DecoderState::Recovering);
    for _ in 0..3 {
        r.on_emission(false);
    }
    assert_eq!(r.state, DecoderState::Recovering);
    r.on_emission(false);
    assert_eq!(r.state, DecoderState::Healthy);
}

#[test]
fn codec_names() {
    assert_eq!(cuvid_decoder_names(1).unwrap(), ("hevc_cuvid", "HEVC CUVID"));
    assert_eq!(cuvid_decoder_names(2).unwrap_err(), "Unknown codec ID: 2");
    assert_eq!(software_codec(0).unwrap(), (SoftwareCodec::H264, "H.264"));
}

#[test]
fn gray_detection() {
    assert!(concealment_frame(&[128u8; 16]));
    assert!(!concealment_frame(&[50u8; 16]));
    let mut v = [128u8; 16];
    v[0] = 0;
    v[1] = 255;
    assert!(!concealment_frame(&v));
    let offs = gray_sample_offsets(64, 32, 80);
    assert_eq!(offs[0], 0);
    assert_eq!(offs[1], 2 * 80 + 4);
    assert_eq!(offs[15], 30 * 80 + 60);
}

#[test]
fn nv12_split_and_tint() {
    let uv = vec![1, 2, 3, 4, 9, 9, 5, 6, 7, 8, 9, 9];
    let (u, v) = split_nv12_chroma(&uv, 6, 4, 4);
    assert_eq!(u, vec![1, 3, 5, 7]);
    assert_eq!(v, vec![2, 4, 6, 8]);
    let mut p = vec![0u8, 10, 250];
    tint_plane(&mut p, 10);
    assert_eq!(p, vec![10, 20, 255]);
    let mut q = vec![5u8, 5, 5];
    tint_interleaved(&mut q, -10, 3);
    assert_eq!(q, vec![0, 8, 5]);
    assert!(is_rotated(1080, 1920, 1920, 1080));
    assert!(!is_rotated(1920, 1080, 1920, 1080));
    assert!(needs_new_texture(None, 1, 1, FrameFormat::Nv12));
    assert!(!needs_new_texture(Some((1, 1, FrameFormat::Nv12)), 1, 1, FrameFormat::Nv12));
    assert!(needs_new_texture(Some((1, 1, FrameFormat::Nv12)), 1, 1, FrameFormat::I420));
}

#[test]
fn ledger_pairs_each_emission_with_its_receipt() {
    let mut l = IdentityLedger::new();
    assert_eq!(l.submit(4, 400), SubmitOutcome::Recorded);
    assert_eq!(l.submit(4, 401), SubmitOutcome::DuplicateSubmit);
    assert_eq!(l.resolve(Some(4)), ResolveOutcome::Resolved(400));
    assert_eq!(l.resolve(Some(4)), ResolveOutcome::MissingLedgerEntry);
    assert_eq!(l.resolve(None), ResolveOutcome::UnrecoveredPts);
    assert_eq!(l.identity_failures(), 3);
    let mut l = IdentityLedger::new();
    for id in 0..1024u32 {
        assert_eq!(l.submit(id, id as u64), SubmitOutcome::Recorded);
    }
    assert_eq!(l.submit(5000, 1), SubmitOutcome::CapOverflow);
}

fn video_packet(stream: u32, config: u32, chunk_id: u16, payload: &[u8], total_chunks: u16) -> Vec<u8> {
    let mut b = vec![0u8; 42];
    b[0..4].copy_from_slice(b"RESC");
    b[4] = 1;
    b[5] = 0;
    b[6..10].copy_from_slice(&stream.to_le_bytes());
    b[10..14].copy_from_slice(&config.to_le_bytes());
    b[14..18].copy_from_slice(&1u32.to_le_bytes());
    b[18..20].copy_from_slice(&chunk_id.to_le_bytes());
    b[20..22].copy_from_slice(&(payload.len() as u16).to_le_bytes());
    b[30] = 1;
    b[36..38].copy_from_slice(&total_chunks.to_le_bytes());
    b[38..42].copy_from_slice(&(payload.len() as u32).to_le_bytes());
    b.extend_from_slice(payload);
    b
}

#[test]
fn receiver_filters_and_assembles() {
    let mut r = ReceiverCore::new(7, 8, 16, 100_000);
    assert!(r.on_datagram(&[0u8; 10]).is_none());
    assert!(r.on_datagram(&video_packet(9, 8, 0, &[1, 2], 1)).is_none());
    assert_eq!(r.packets_dropped, 2);
    let f = r.on_datagram(&video_packet(7, 8, 0, &[1, 2], 1)).unwrap();
    assert_eq!(f.data, vec![1, 2]);
    assert!(f.is_keyframe);
    assert_eq!(r.packets_received, 1);
    assert!(!r.stats_due());
    assert_eq!(r.on_queue_full(true), QueueFullAction::Block);
    assert_eq!(r.on_queue_full(false), QueueFullAction::Drop);
    assert_eq!(r.assembler.frames_dropped, 1);
    r.update_stream_config(1, 2);
    assert_eq!((r.stream_id, r.config_id), (1, 2));
}

#[test]
fn cursor_rects() {
    let mut c = CursorRenderer::new();
    assert!(c.rects().0.is_empty());
    c.update(10, 20, 1);
    let (outline, fill) = c.rects();
    assert_eq!(outline.len(), 20);
    assert_eq!(outline[0], CursorRect { x: 9, y: 19, w: 3, h: 3 });
    assert_eq!(fill[0], CursorRect { x: 11, y: 21, w: 1, h: 1 });
    let r = arrow_rects(100, 100, 0, true);
    assert_eq!(r[10], CursorRect { x: 110, y: 90, w: 1, h: 11 });
}

#[test]
fn control_channel_rules() {
    assert_eq!(control_frame_len(0u32.to_le_bytes()).unwrap_err(), "Invalid message length: 0");
    assert_eq!(control_frame_len(1_000_000u32.to_le_bytes()), Ok(1_000_000));
    assert_eq!(control_frame_len(1_000_001u32.to_le_bytes()).unwrap_err(), "Invalid message length: 1000001");
    assert_eq!(track_session(5, 0), 5);
    assert_eq!(track_session(5, 6), 6);
    assert!(check_start_streaming(1, 2, 1, 2).is_ok());
    assert_eq!(check_start_streaming(1, 3, 1, 2).unwrap_err(), "StartStreaming ID mismatch");
}

#[test]
fn build_info_choices() {
    assert_eq!(build_commit_choice(Some("abc".into()), Some("def".into())), "abc");
    assert_eq!(build_commit_choice(Some(String::new()), Some("def".into())), "def");
    assert_eq!(build_commit_choice(None, Some(String::new())), "unknown");
    assert_eq!(build_dirty_from(Some(" M x".into())), Some(true));
    assert_eq!(build_dirty_from(Some(String::new())), Some(false));
    assert_eq!(build_dirty_from(None), None);
    assert_eq!(lock_file_name("moyunfei-desk-1"), "moyunfei-desk-1.lock");
    assert_eq!(run_token_text([0x0c, 0xc2, 0x24, 0x96, 0x62, 0x88, 0x05, 0x97]), "0cc2249662880597");
    assert!(trace_flush_due(64, false, false));
    assert!(!trace_flush_due(63, false, false));
}

#[test]
fn doctor_verdicts() {
    let p = SdlProbe {
        init_ok: true,
        video_ok: false,
        num_displays: 0,
        window_ok: false,
        canvas_ok: false,
        iyuv_ok: false,
        nv12_ok: false,
        error: None,
    };
    assert_eq!(sdl_texture_verdict(&p), (false, 2));
    let (ok, subs, display) = input_capability(&p);
    assert!(!ok);
    assert_eq!(subs, vec!["events"]);
    assert!(!display);
    let good = SdlProbe { video_ok: true, window_ok: true, canvas_ok: true, iyuv_ok: true, num_displays: 1, ..p.clone() };
    assert_eq!(sdl_texture_verdict(&good), (true, 0));
    let bad = SdlProbe { iyuv_ok: false, ..good.clone() };
    assert_eq!(sdl_texture_verdict(&bad), (false, 3));
    assert_eq!(combine_exit(2, 3), 3);
    assert_eq!(environment_exit(false), 2);
}

#[derive(Default)]
struct Mock {
    sends: VecDeque<Result<SendOutcome, String>>,
    frames: VecDeque<Result<FrameOutcome, String>>,
    eofs: VecDeque<Result<SendOutcome, String>>,
}

impl DecoderLoopBackend for Mock {
    fn calls(&self) -> CallLog {
        unreachable!("specification item: the verifier reads it, nothing calls it")
    }

    fn ready_frames(&self) -> FrameBudget {
        unreachable!("specification item: the verifier reads it, nothing calls it")
    }

    fn send_packet(&mut self, _o: i64, _d: &[u8]) -> Result<SendOutcome, String> {
        self.sends.pop_front().expect("send script exhausted")
    }
    fn receive_frame(&mut self) -> Result<FrameOutcome, String> {
        self.frames.pop_front().expect("frame script exhausted")
    }
    fn send_eof(&mut self) -> Result<SendOutcome, String> {
        self.eofs.pop_front().expect("eof script exhausted")
    }
}

#[test]
fn decode_sample_check() {
    let mut m = Mock::default();
    m.sends.extend([Ok(SendOutcome::Again), Ok(SendOutcome::Accepted), Ok(SendOutcome::Accepted)]);
    m.frames.extend([
        Ok(FrameOutcome::Empty),
        Ok(FrameOutcome::Frame(Some(1))),
        Ok(FrameOutcome::Empty),
        Ok(FrameOutcome::Empty),
        Ok(FrameOutcome::Frame(Some(2))),
        Ok(FrameOutcome::Empty),
    ]);
    m.eofs.extend([Ok(SendOutcome::Accepted)]);
    let mut run = DecodeSampleRun::new();
    assert!(run.wants_more());
    run.on_packet(&mut m, &[1]);
    run.on_packet(&mut m, &[2]);
    let r = run.finish(&mut m);
    assert!(r.ok);
    assert_eq!((r.frames_submitted, r.frames_emitted, r.eagain_retries), (2, 2, 1));
    assert!(r.detail.is_none());

    let mut m = Mock::default();
    m.sends.extend([Err("send_packet fatal error: x".to_string())]);
    let mut run = DecodeSampleRun::new();
    run.on_packet(&mut m, &[1]);
    assert!(!run.wants_more());
    let r = run.finish(&mut m);
    assert!(!r.ok);
    assert_eq!(r.detail.as_deref(), Some("send_packet fatal error: x"));
}

#[test]
fn hash8_is_the_sha256_prefix() {
    assert_eq!(hash8(b"abc"), [0xba, 0x78, 0x16, 0xbf, 0x8f, 0x01, 0xcf, 0xea]);
    assert_eq!(hash8(b""), [0xe3, 0xb0, 0xc4, 0x42, 0x98, 0xfc, 0x1c, 0x14]);
    let t = run_token(b"abc");
    assert_eq!(t, "ba7816bf8f01cfea");
}

#[test]
fn generate_run_token_is_16_lowercase_hex_chars() {
    let seed = format!("{}-{}-{}", 4242u32, 12345u64, 67890u128);
    let token = run_token(seed.as_bytes());
    assert_eq!(token.len(), 16);
    assert!(token.chars().all(|c| c.is_ascii_hexdigit() && !c.is_ascii_uppercase()));
}

#[test]
fn decode_sample_run_all_submits_at_most_sixty() {
    let mut m = Mock::default();
    for k in 1..=60i64 {
        m.sends.push_back(Ok(SendOutcome::Accepted));
        m.frames.push_back(Ok(FrameOutcome::Frame(Some(k))));
        m.frames.push_back(Ok(FrameOutcome::Empty));
    }
    m.eofs.push_back(Ok(SendOutcome::Accepted));
    m.frames.push_back(Ok(FrameOutcome::Empty));
    let packets: Vec<Vec<u8>> = (0..70u8).map(|b| vec![b]).collect();
    let mut run = DecodeSampleRun::new();
    let r = run.run_all(&mut m, &packets);
    assert!(r.ok);
    assert_eq!((r.frames_submitted, r.frames_emitted, r.reorders), (60, 60, 0));
    assert!(m.sends.is_empty() && m.frames.is_empty() && m.eofs.is_empty());
}

#[test]
fn decode_sample_run_all_stops_at_first_failure() {
    let mut m = Mock::default();
    m.sends.extend([Ok(SendOutcome::Accepted), Err("send_packet fatal error: y".to_string())]);
    m.frames.extend([Ok(FrameOutcome::Frame(Some(1))), Ok(FrameOutcome::Empty)]);
    let packets: Vec<Vec<u8>> = vec![vec![1], vec![2], vec![3]];
    let mut run = DecodeSampleRun::new();
    let r = run.run_all(&mut m, &packets);
    assert!(!r.ok);
    assert_eq!(r.frames_submitted, 1);
    assert_eq!(r.detail.as_deref(), Some("send_packet fatal error: y"));
    assert!(m.sends.is_empty() && m.eofs.is_empty());
}

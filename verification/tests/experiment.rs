use resc_client::backend::{classify_open_error, frame_outcome, recovered_ordinal, select_backend, Backend, BackendOpenError, ReceiveOutcome};
use resc_client::cli::{mode_name, parse_experiment_args, parse_harness_args};
use resc_client::experiment::{
    classify_drain, coverage, send_outcome_label, CharacterizeRun, ForceZeroRun, LoopStop, PhaseAStop, PhaseStatus,
    Strategy, StreamingRun, ZeroContext,
};
use resc_client::loop_engine::{CallLog, FrameBudget, AttemptRecord, DecoderLoopBackend, FrameOutcome, SendOutcome, SubmitRecord};
use std::collections::VecDeque;

fn args(v: &[&str]) -> Vec<String> {
    v.iter().map(|s| s.to_string()).collect()
}

#[test]
fn backend_ids_round_trip() {
    assert_eq!(Backend::parse("cuvid-lowdelay"), Ok(Backend::CuvidLowDelay));
    assert_eq!(Backend::parse("sw1-lowdelay").unwrap().id(), "sw1-lowdelay");
    assert_eq!(
        Backend::parse("x").unwrap_err(),
        "unknown --backend 'x'; must be cuvid-lowdelay or sw1-lowdelay (the two closed backend IDs)"
    );
}

#[test]
fn select_backend_rejects_placeholder_and_unknown() {
    assert!(matches!(select_backend("sw1-lowdelay"), Ok(Backend::Sw1LowDelay)));
    let e = select_backend("TBD-A00").unwrap_err();
    assert_eq!(e.failing_call, "decoder_backend");
    assert!(e.detail.starts_with("\"TBD-A00\" is the canonical-profile placeholder"));
    let e = select_backend("hevc").unwrap_err();
    assert!(e.detail.starts_with("unknown decoder_backend 'hevc'"));
    assert_eq!(e.message(), format!("decoder_backend failed: {}", e.detail));
}

#[test]
fn open_error_fields() {
    let be = BackendOpenError { failing_call: "avcodec_open2".to_string(), detail: "nope".to_string() };
    assert_eq!(classify_open_error(Some(&be), "ignored"), ("avcodec_open2".to_string(), "nope".to_string()));
    assert_eq!(classify_open_error(None, "text"), ("open_decoder".to_string(), "text".to_string()));
}

#[test]
fn ordinal_recovery_and_receive_outcomes() {
    assert_eq!(recovered_ordinal(Some(3), Some(4)), Some(3));
    assert_eq!(recovered_ordinal(None, Some(4)), Some(4));
    assert_eq!(recovered_ordinal(None, None), None);
    assert_eq!(frame_outcome(ReceiveOutcome::Frame, Some(2)), FrameOutcome::Frame(Some(2)));
    assert_eq!(frame_outcome(ReceiveOutcome::Eof, Some(2)), FrameOutcome::Empty);
    assert_eq!(frame_outcome(ReceiveOutcome::Again, None), FrameOutcome::Empty);
}

#[test]
fn experiment_args_defaults_and_errors() {
    let a = parse_experiment_args(&args(&["--input", "s.hevc", "--backend", "sw1-lowdelay"])).unwrap();
    assert_eq!(a.input, "s.hevc");
    assert_eq!(a.max_packets, 480);
    assert_eq!(a.timeout_secs, 90);
    assert_eq!(mode_name(&a), "default");
    let a = parse_experiment_args(&args(&["--force-zero-output", "--input", "s", "--backend", "cuvid-lowdelay"])).unwrap();
    assert_eq!(a.timeout_secs, 60);
    assert_eq!(mode_name(&a), "force_zero_output");
    let a = parse_experiment_args(&args(&["--input", "s", "--backend", "sw1-lowdelay", "--frames", "+7", "--timeout-secs", "5", "--clean"]))
        .unwrap();
    assert_eq!(a.frames, Some(7));
    assert_eq!(a.timeout_secs, 5);
    assert_eq!(mode_name(&a), "clean");
    assert_eq!(parse_experiment_args(&args(&["--frames"])).unwrap_err(), "--frames requires a value");
    assert_eq!(
        parse_experiment_args(&args(&["--frames", "-1"])).unwrap_err(),
        "--frames must be a non-negative integer"
    );
    assert_eq!(
        parse_experiment_args(&args(&["--max-packets", "18446744073709551616"])).unwrap_err(),
        "--max-packets must be a non-negative integer"
    );
    assert_eq!(parse_experiment_args(&args(&["--bogus"])).unwrap_err(), "unknown argument: --bogus");
    assert_eq!(
        parse_experiment_args(&args(&["--clean", "--characterize"])).unwrap_err(),
        "--characterize, --clean, and --force-zero-output are mutually exclusive (each is a separate invocation)"
    );
    assert_eq!(parse_experiment_args(&args(&["--backend", "sw1-lowdelay"])).unwrap_err(), "--input is required");
    assert_eq!(parse_experiment_args(&args(&["--input", "x"])).unwrap_err(), "--backend is required");
}

#[test]
fn harness_args() {
    let a = parse_harness_args(&args(&["--listen", "0.0.0.0:9", "--backend", "sw1-lowdelay"]), &[false, true, false, false]).unwrap();
    assert_eq!(a.listen, "0.0.0.0:9");
    assert_eq!(a.backend, Backend::Sw1LowDelay);
    assert_eq!(
        parse_harness_args(&args(&["--listen", "nope"]), &[false, false]).unwrap_err(),
        "invalid --listen address 'nope'"
    );
    assert_eq!(parse_harness_args(&args(&["--backend", "sw1-lowdelay"]), &[false, false]).unwrap_err(), "--listen is required");
}

#[test]
fn drain_classification() {
    let (mut z, mut m, mut mx) = (0u64, 0u64, 0usize);
    classify_drain(&[], &mut z, &mut m, &mut mx);
    classify_drain(&[Some(1), Some(2), Some(3)], &mut z, &mut m, &mut mx);
    classify_drain(&[Some(4)], &mut z, &mut m, &mut mx);
    assert_eq!((z, m, mx), (1, 1, 3));
}

#[test]
fn outcome_labels() {
    let accepted = SubmitRecord { attempts: vec![AttemptRecord { again: false }], drains: vec![] };
    assert_eq!(send_outcome_label(&accepted), "accepted");
    let again = SubmitRecord {
        attempts: vec![AttemptRecord { again: true }, AttemptRecord { again: false }],
        drains: vec![vec![]],
    };
    assert_eq!(send_outcome_label(&again), "accepted_after_eagain");
}

#[test]
fn coverage_counts() {
    let c = coverage(&vec![Some(2), Some(1), Some(3)], 3, false);
    assert!(c.exact);
    assert_eq!((c.emitted, c.unknown_pts, c.duplicates), (3, 0, 0));
    let c = coverage(&vec![Some(1), Some(1), None], 2, false);
    assert!(!c.exact);
    assert_eq!((c.emitted, c.unknown_pts, c.duplicates), (3, 1, 1));
    let c = coverage(&vec![Some(0), Some(1)], 1, false);
    assert!(!c.ordinal_zero_never_emitted);
    assert!(!c.exact);
    assert!(!coverage(&vec![Some(1)], 1, true).exact);
}

#[derive(Default)]
struct Mock {
    sends: VecDeque<Result<SendOutcome, String>>,
    frames: VecDeque<Result<FrameOutcome, String>>,
    eofs: VecDeque<Result<SendOutcome, String>>,
    sent: Vec<(i64, Vec<u8>)>,
}

impl DecoderLoopBackend for Mock {
    fn calls(&self) -> CallLog {
        unreachable!("specification item: the verifier reads it, nothing calls it")
    }

    fn ready_frames(&self) -> FrameBudget {
        unreachable!("specification item: the verifier reads it, nothing calls it")
    }

    fn send_packet(&mut self, ordinal: i64, data: &[u8]) -> Result<SendOutcome, String> {
        self.sent.push((ordinal, data.to_vec()));
        self.sends.pop_front().expect("send script exhausted")
    }
    fn receive_frame(&mut self) -> Result<FrameOutcome, String> {
        self.frames.pop_front().expect("frame script exhausted")
    }
    fn send_eof(&mut self) -> Result<SendOutcome, String> {
        self.eofs.pop_front().expect("eof script exhausted")
    }
}

#[test]
fn streaming_run_in_order_passes() {
    let mut m = Mock::default();
    m.sends.extend([Ok(SendOutcome::Accepted), Ok(SendOutcome::Accepted)]);
    m.frames.extend([
        Ok(FrameOutcome::Frame(Some(1))),
        Ok(FrameOutcome::Empty),
        Ok(FrameOutcome::Empty),
        Ok(FrameOutcome::Frame(Some(2))),
        Ok(FrameOutcome::Empty),
    ]);
    m.eofs.extend([Ok(SendOutcome::Accepted)]);
    let mut run = StreamingRun::new();
    let packets = [vec![1u8], vec![2u8]];
    for p in &packets {
        assert!(run.wants_more(None));
        run.on_packet(&mut m, Some(p.as_slice()));
    }
    let r = run.finish(&mut m);
    assert!(r.pass);
    assert_eq!((r.frames_submitted, r.frames_emitted, r.reorders), (2, 2, 0));
    assert_eq!(r.delays_us.len(), 2);
    assert_eq!(m.sent, vec![(1, vec![1u8]), (2, vec![2u8])]);
}

#[test]
fn streaming_run_notes_anomalies() {
    let mut m = Mock::default();
    m.sends.extend([Ok(SendOutcome::Accepted), Ok(SendOutcome::Accepted)]);
    m.frames.extend([
        Ok(FrameOutcome::Frame(Some(2))),
        Ok(FrameOutcome::Empty),
        Ok(FrameOutcome::Frame(Some(2))),
        Ok(FrameOutcome::Frame(None)),
        Ok(FrameOutcome::Empty),
        Ok(FrameOutcome::Empty),
    ]);
    m.eofs.extend([Ok(SendOutcome::Accepted)]);
    let mut run = StreamingRun::new();
    run.on_packet(&mut m, Some(&[1u8][..]));
    run.on_packet(&mut m, Some(&[2u8][..]));
    let r = run.finish(&mut m);
    assert!(!r.pass);
    assert_eq!((r.frames_emitted, r.reorders, r.duplicates, r.unknown_pts), (3, 1, 1, 1));
    assert_eq!(
        r.fail_reasons,
        vec![
            "silent skip: expected ordinal 1, got 2 instead (1 ordinal(s) 1..1 never emitted before this)".to_string(),
            "duplicate: ordinal 2 emitted again (expected 3)".to_string(),
            "emission #3: unknown pts (neither pts nor best_effort_timestamp set)".to_string(),
        ]
    );
}

#[test]
fn streaming_run_missing_data_and_limit() {
    let mut m = Mock::default();
    let mut run = StreamingRun::new();
    assert!(!run.wants_more(Some(0)));
    run.on_packet(&mut m, None);
    assert!(!run.wants_more(None));
    let r = run.finish(&mut m);
    assert!(!r.pass);
    assert_eq!(r.fail_reasons, vec!["ordinal 1: demuxed packet has no data".to_string()]);
}

#[test]
fn streaming_run_counts_never_emitted() {
    let mut m = Mock::default();
    m.sends.extend([Ok(SendOutcome::Accepted)]);
    m.frames.extend([Ok(FrameOutcome::Empty), Ok(FrameOutcome::Empty)]);
    m.eofs.extend([Ok(SendOutcome::Accepted)]);
    let mut run = StreamingRun::new();
    run.on_packet(&mut m, Some(&[9u8][..]));
    let r = run.finish(&mut m);
    assert!(!r.pass);
    assert_eq!(
        r.fail_reasons,
        vec!["1 frame(s) submitted but never emitted by end of flush (1 submitted, 0 emitted)".to_string()]
    );
}

#[test]
fn characterize_phase_a_then_b() {
    let mut m = Mock::default();
    // Phase A: three EAGAIN events across packets 1..3, no post-accept drains.
    m.sends.extend([
        Ok(SendOutcome::Again),
        Ok(SendOutcome::Accepted),
        Ok(SendOutcome::Again),
        Ok(SendOutcome::Accepted),
        Ok(SendOutcome::Again),
        Ok(SendOutcome::Accepted),
        Ok(SendOutcome::Accepted),
    ]);
    m.frames.extend([
        Ok(FrameOutcome::Empty),
        Ok(FrameOutcome::Frame(Some(1))),
        Ok(FrameOutcome::Empty),
        Ok(FrameOutcome::Frame(Some(2))),
        Ok(FrameOutcome::Empty),
        // phase B post-accept drain of packet 4
        Ok(FrameOutcome::Frame(Some(3))),
        Ok(FrameOutcome::Empty),
        // tail
        Ok(FrameOutcome::Frame(Some(4))),
        Ok(FrameOutcome::Empty),
    ]);
    m.eofs.extend([Ok(SendOutcome::Accepted)]);
    let mut run = CharacterizeRun::new(480, 90);
    for p in 1..=4u8 {
        assert!(run.wants_more());
        run.on_packet(&mut m, Some(&[p][..]));
    }
    let r = run.finish(&mut m);
    assert!(r.pass, "{:?}", r.fail_reasons);
    assert_eq!(r.phase_a_stop, PhaseAStop::EagainEventsReached);
    assert_eq!(r.phase_a_status, PhaseStatus::Forced);
    assert_eq!(r.phase_a_eagain, 3);
    assert_eq!(r.phase_b_status, PhaseStatus::NotForced);
    assert_eq!(r.tail_status, PhaseStatus::NotForced);
    assert_eq!(r.zero_output_packets, 1);
    assert_eq!(r.eagain_events.len(), 3);
    assert_eq!((r.submitted, r.accepted, r.emitted, r.tail_outputs), (4, 4, 4, 1));
    assert_eq!(r.attempts.len(), 7);
}

#[test]
fn characterize_max_packets_and_tail_error() {
    let mut m = Mock::default();
    m.sends.extend([Ok(SendOutcome::Accepted)]);
    m.frames.extend([Ok(FrameOutcome::Empty)]);
    m.eofs.extend([Err("eof broke".to_string())]);
    let mut run = CharacterizeRun::new(0, 90);
    run.on_packet(&mut m, Some(&[1u8][..]));
    let r = run.finish(&mut m);
    assert_eq!(r.phase_a_stop, PhaseAStop::MaxPacketsReached);
    assert_eq!(r.tail_status, PhaseStatus::Error);
    assert!(!r.pass);
    assert_eq!(r.fail_reasons, vec!["tail flush: eof broke".to_string()]);
}

fn au_with_param_sets() -> Vec<u8> {
    let mut v = Vec::new();
    for t in [32u8, 33, 34, 19] {
        v.extend_from_slice(&[0, 0, 0, 1, t << 1, 1, 0xAA]);
    }
    v
}

#[test]
fn force_zero_output_strategy_a() {
    let mut m = Mock::default();
    m.sends.extend([Ok(SendOutcome::Accepted), Ok(SendOutcome::Accepted), Ok(SendOutcome::Accepted)]);
    m.frames.extend([
        Ok(FrameOutcome::Empty),
        Ok(FrameOutcome::Frame(Some(1))),
        Ok(FrameOutcome::Empty),
        Ok(FrameOutcome::Frame(Some(2))),
        Ok(FrameOutcome::Empty),
        Ok(FrameOutcome::Empty),
    ]);
    m.eofs.extend([Ok(SendOutcome::Accepted)]);
    let mut run = ForceZeroRun::new(480, 60);
    let au1 = au_with_param_sets();
    run.start(&mut m, &au1);
    run.begin_loop();
    assert!(run.check_bounds());
    run.on_packet(&mut m, Some(&[7u8][..]));
    let r = run.finish(&mut m);
    assert!(r.pass, "{:?}", r.fail_reasons);
    assert_eq!(r.strategy_used, Strategy::ParamSetPacket);
    assert_eq!(r.zero_output_detail.len(), 1);
    assert_eq!(r.zero_output_detail[0].context, ZeroContext::ForcedParamSetPacket);
    assert_eq!(r.crafted_param_set_nal_types, vec![32, 33, 34]);
    assert_eq!(r.loop_stop_reason, LoopStop::EndOfSample);
    assert_eq!(m.sent[0].0, 0);
    assert_eq!(m.sent[1], (1, au1.clone()));
    assert_eq!(m.sent[2], (2, vec![7u8]));
}

#[test]
fn force_zero_output_strategy_b_when_no_param_sets() {
    let mut m = Mock::default();
    m.sends.extend([Ok(SendOutcome::Accepted)]);
    m.frames.extend([Ok(FrameOutcome::Empty), Ok(FrameOutcome::Frame(Some(1))), Ok(FrameOutcome::Empty)]);
    m.eofs.extend([Ok(SendOutcome::Accepted)]);
    let mut run = ForceZeroRun::new(480, 60);
    run.start(&mut m, &[0, 0, 1, 19 << 1, 1]);
    run.begin_loop();
    let r = run.finish(&mut m);
    assert!(r.pass, "{:?}", r.fail_reasons);
    assert_eq!(r.strategy_used, Strategy::FirstAuImmediateDrain);
    assert_eq!(r.notes, vec!["AU 1 carried no VPS/SPS/PPS NAL units (types found: []); strategy A unavailable".to_string()]);
}

#[test]
fn whole_streaming_run_respects_the_frame_limit_and_order() {
    let mut m = Mock::default();
    m.sends.extend([Ok(SendOutcome::Accepted), Ok(SendOutcome::Accepted)]);
    m.frames.extend([
        Ok(FrameOutcome::Frame(Some(1))),
        Ok(FrameOutcome::Empty),
        Ok(FrameOutcome::Empty),
        Ok(FrameOutcome::Frame(Some(2))),
        Ok(FrameOutcome::Empty),
    ]);
    m.eofs.extend([Ok(SendOutcome::Accepted)]);
    let packets = vec![Some(vec![1u8]), Some(vec![2u8]), Some(vec![3u8])];
    let mut run = StreamingRun::new();
    let r = run.run_all(&mut m, &packets, Some(2));
    assert!(r.pass);
    assert_eq!(r.frames_submitted, 2);
    assert_eq!(m.sent, vec![(1, vec![1u8]), (2, vec![2u8])]);
}

#[test]
fn whole_streaming_run_fails_on_a_packet_without_data() {
    let mut m = Mock::default();
    m.sends.extend([Ok(SendOutcome::Accepted)]);
    m.frames.extend([Ok(FrameOutcome::Frame(Some(1))), Ok(FrameOutcome::Empty)]);
    let packets = vec![Some(vec![1u8]), None, Some(vec![3u8])];
    let mut run = StreamingRun::new();
    let r = run.run_all(&mut m, &packets, None);
    assert!(!r.pass);
    assert_eq!(r.frames_submitted, 1);
    assert_eq!(m.sent.len(), 1);
}

#[test]
fn whole_characterize_run_with_a_duplicate_fails() {
    let mut m = Mock::default();
    m.sends.extend([Ok(SendOutcome::Accepted), Ok(SendOutcome::Accepted)]);
    m.frames.extend([
        Ok(FrameOutcome::Frame(Some(1))),
        Ok(FrameOutcome::Empty),
        Ok(FrameOutcome::Frame(Some(1))),
        Ok(FrameOutcome::Empty),
        Ok(FrameOutcome::Empty),
    ]);
    m.eofs.extend([Ok(SendOutcome::Accepted)]);
    let packets = vec![Some(vec![1u8]), Some(vec![2u8])];
    let mut run = CharacterizeRun::new(0, 90);
    let r = run.run_all(&mut m, &packets);
    assert_eq!((r.submitted, r.accepted), (2, 2));
    assert!(!r.pass);
}

#[test]
fn whole_characterize_run_in_order_passes() {
    let mut m = Mock::default();
    m.sends.extend([Ok(SendOutcome::Accepted), Ok(SendOutcome::Accepted)]);
    m.frames.extend([
        Ok(FrameOutcome::Frame(Some(1))),
        Ok(FrameOutcome::Empty),
        Ok(FrameOutcome::Frame(Some(2))),
        Ok(FrameOutcome::Empty),
        Ok(FrameOutcome::Empty),
    ]);
    m.eofs.extend([Ok(SendOutcome::Accepted)]);
    let packets = vec![Some(vec![1u8]), Some(vec![2u8])];
    let mut run = CharacterizeRun::new(0, 90);
    let r = run.run_all(&mut m, &packets);
    assert!(r.pass, "{:?}", r.fail_reasons);
}

#[test]
fn whole_forcing_run_with_strategy_a_passes() {
    let mut m = Mock::default();
    m.sends.extend([Ok(SendOutcome::Accepted), Ok(SendOutcome::Accepted), Ok(SendOutcome::Accepted)]);
    m.frames.extend([
        Ok(FrameOutcome::Empty),
        Ok(FrameOutcome::Frame(Some(1))),
        Ok(FrameOutcome::Empty),
        Ok(FrameOutcome::Frame(Some(2))),
        Ok(FrameOutcome::Empty),
        Ok(FrameOutcome::Empty),
    ]);
    m.eofs.extend([Ok(SendOutcome::Accepted)]);
    let mut run = ForceZeroRun::new(480, 60);
    let au1 = au_with_param_sets();
    let r = run.run_all(&mut m, &au1, &vec![Some(vec![7u8])]);
    assert!(r.pass, "{:?}", r.fail_reasons);
    assert_eq!(r.strategy_used, Strategy::ParamSetPacket);
    assert_eq!(r.crafted_param_set_nal_types, vec![32, 33, 34]);
    assert_eq!(m.sent.len(), 3);
}

#[test]
fn whole_forcing_run_stops_at_a_packet_without_data() {
    let mut m = Mock::default();
    m.sends.extend([Ok(SendOutcome::Accepted), Ok(SendOutcome::Accepted)]);
    m.frames.extend([Ok(FrameOutcome::Empty), Ok(FrameOutcome::Frame(Some(1))), Ok(FrameOutcome::Empty)]);
    let mut run = ForceZeroRun::new(480, 60);
    let au1 = au_with_param_sets();
    let r = run.run_all(&mut m, &au1, &vec![None, Some(vec![9u8])]);
    assert!(!r.pass);
    assert_eq!(r.loop_stop_reason, LoopStop::FatalError);
    assert_eq!(m.sent.len(), 2);
}

use resc_client::v3dispatch::{
    note_outbound, note_video_ack, validate_inbound, Accepted, DisplaySettings, Envelope, FatalCode, FrameAck,
    Heartbeat, KeyEvent, OutboundKind, Payload, Phase, ProfileResult, Role,
};

const RUN: u64 = 0x0102_0304_0506_0708;

const KEY: OutboundKind = OutboundKind::KeyEvent;
const HB: OutboundKind = OutboundKind::Heartbeat;
const ACK: OutboundKind = OutboundKind::FrameAck;

#[derive(Clone, Copy, PartialEq)]
enum Ev {
    A,
    D,
    H,
}

fn env(payload: Payload) -> Envelope {
    Envelope { session_run_id: RUN, protocol_version: 3, payload: Some(payload) }
}

fn heartbeat() -> Envelope {
    env(Payload::Heartbeat(Heartbeat { t_mono_us: 0 }))
}

fn display_settings() -> Envelope {
    env(Payload::DisplaySettings(DisplaySettings { warm_strength_bits: 0.5f32.to_bits() }))
}

fn key_event() -> Envelope {
    env(Payload::KeyEvent(KeyEvent { hid_usage: 4, is_down: true, modifiers: 0 }))
}

fn frame_ack() -> Envelope {
    env(Payload::FrameAck(FrameAck { frame_ordinal: 1 }))
}

fn profile_result_accepted() -> Envelope {
    env(Payload::ProfileResult(ProfileResult {
        accepted: true,
        profile_canonical: vec![b'x'; 20],
        profile_hash: vec![1, 2, 3, 4, 5, 6, 7, 8],
        build_commit: "a".repeat(40),
        build_dirty: false,
        reject_code: 0,
        video_listener_ready: true,
    }))
}

fn expect_next(d: Result<Accepted, FatalCode>) -> Phase {
    match d {
        Ok(Accepted { next, .. }) => next,
        other => panic!("expected an accepted envelope, got {other:?}"),
    }
}

const CLIENT_INPUT_KINDS: [OutboundKind; 5] = [
    OutboundKind::KeyEvent,
    OutboundKind::ButtonEvent,
    OutboundKind::ScrollEvent,
    OutboundKind::ReleaseInput,
    OutboundKind::Heartbeat,
];

fn client_input_armed(phase: Phase) -> bool {
    CLIENT_INPUT_KINDS.iter().all(|k| note_outbound(Role::Client, phase, *k) == Ok(Phase::Active))
}

fn client_input_fully_disarmed(phase: Phase) -> bool {
    CLIENT_INPUT_KINDS.iter().all(|k| note_outbound(Role::Client, phase, *k).is_err())
}

#[test]
fn client_correct_schedule_arms_input_only_at_activation() {
    let mut phase = Phase::ProfileAccepted;
    assert!(client_input_fully_disarmed(phase));
    assert!(note_outbound(Role::Client, phase, OutboundKind::FrameAck).is_err());

    phase = note_video_ack(phase).expect("ProfileAccepted -> VideoAckAccepted");
    assert_eq!(phase, Phase::VideoAckAccepted);

    assert!(client_input_fully_disarmed(phase));
    assert_eq!(note_outbound(Role::Client, phase, OutboundKind::FrameAck), Ok(Phase::VideoAckAccepted));

    let next = expect_next(validate_inbound(Role::Client, phase, &display_settings(), Some(RUN)));
    assert_eq!(next, Phase::VideoAckAccepted);
    phase = next;
    assert!(client_input_fully_disarmed(phase));

    let next = expect_next(validate_inbound(Role::Client, phase, &heartbeat(), Some(RUN)));
    assert_eq!(next, Phase::Active);
    phase = next;

    assert!(client_input_armed(phase));
    assert_eq!(expect_next(validate_inbound(Role::Client, phase, &heartbeat(), Some(RUN))), Phase::Active);
}

#[test]
fn client_reordered_schedule_is_surfaced_not_silently_armed() {
    let phase = Phase::ProfileAccepted;
    assert_eq!(
        validate_inbound(Role::Client, phase, &heartbeat(), Some(RUN)).unwrap_err(),
        FatalCode::ProtocolViolation
    );
    assert_eq!(
        validate_inbound(Role::Client, phase, &display_settings(), Some(RUN)).unwrap_err(),
        FatalCode::ProtocolViolation
    );
    assert!(client_input_fully_disarmed(phase));
}

#[test]
fn client_prefix_sweep_arms_exactly_at_activation() {
    let schedule = [Ev::A, Ev::D, Ev::H];
    for cut in 0..=schedule.len() {
        let mut phase = Phase::ProfileAccepted;
        let mut activated = false;
        for ev in &schedule[..cut] {
            phase = match ev {
                Ev::A => note_video_ack(phase).unwrap(),
                Ev::D => expect_next(validate_inbound(Role::Client, phase, &display_settings(), Some(RUN))),
                Ev::H => {
                    activated = true;
                    expect_next(validate_inbound(Role::Client, phase, &heartbeat(), Some(RUN)))
                }
            };
        }
        assert_eq!(client_input_armed(phase), activated, "prefix length {cut}: armed must equal activated");
        if !activated {
            assert!(client_input_fully_disarmed(phase), "prefix length {cut}");
        }
    }
}

#[test]
fn host_rejects_early_input_and_accepts_first_post_barrier_input() {
    let phase = note_outbound(Role::Host, Phase::Bootstrap, OutboundKind::HostProfileAnnounce)
        .expect("announce from Bootstrap");
    assert_eq!(phase, Phase::Announced);

    let phase = expect_next(validate_inbound(Role::Host, phase, &profile_result_accepted(), Some(RUN)));
    assert_eq!(phase, Phase::ProfileAccepted);

    assert!(note_outbound(Role::Host, phase, OutboundKind::Heartbeat).is_err());

    let phase = note_video_ack(phase).unwrap();
    assert_eq!(phase, Phase::VideoAckAccepted);

    assert_eq!(
        validate_inbound(Role::Host, phase, &key_event(), Some(RUN)).unwrap_err(),
        FatalCode::ProtocolViolation
    );
    assert_eq!(
        validate_inbound(Role::Host, phase, &heartbeat(), Some(RUN)).unwrap_err(),
        FatalCode::ProtocolViolation
    );
    assert_eq!(expect_next(validate_inbound(Role::Host, phase, &frame_ack(), Some(RUN))), Phase::VideoAckAccepted);

    let phase = note_outbound(Role::Host, phase, OutboundKind::Heartbeat).expect("activation heartbeat send");
    assert_eq!(phase, Phase::Active);

    for envlp in [key_event(), heartbeat(), frame_ack()] {
        assert_eq!(expect_next(validate_inbound(Role::Host, phase, &envlp, Some(RUN))), Phase::Active);
    }
}

#[derive(Debug, Clone, Copy, PartialEq, Eq)]
struct Attempt {
    kind: OutboundKind,
    written: bool,
}

fn a(kind: OutboundKind, written: bool) -> Attempt {
    Attempt { kind, written }
}

struct ClientGate {
    phase: Phase,
    attempts: Vec<Attempt>,
}

impl ClientGate {
    fn new() -> Self {
        ClientGate { phase: Phase::ProfileAccepted, attempts: Vec::new() }
    }

    fn try_send(&mut self, kind: OutboundKind) {
        match note_outbound(Role::Client, self.phase, kind) {
            Ok(next) => {
                self.attempts.push(a(kind, true));
                self.phase = next;
            }
            Err(_) => self.attempts.push(a(kind, false)),
        }
    }

    fn on_video_ack_noted(&mut self) {
        self.phase = note_video_ack(self.phase).expect("ack noted from ProfileAccepted");
    }

    fn on_inbound_heartbeat(&mut self) -> bool {
        match validate_inbound(Role::Client, self.phase, &heartbeat(), Some(RUN)) {
            Ok(Accepted { next, .. }) => {
                self.phase = next;
                true
            }
            _ => false,
        }
    }

    fn writes(&self) -> Vec<OutboundKind> {
        self.attempts.iter().filter(|at| at.written).map(|at| at.kind).collect()
    }
}

#[test]
fn s1_correct_schedule_first_write_is_post_activation() {
    let mut g = ClientGate::new();
    g.try_send(KEY);
    g.try_send(HB);
    g.on_video_ack_noted();
    g.try_send(KEY);
    g.try_send(ACK);
    g.try_send(HB);
    assert!(g.on_inbound_heartbeat(), "activation accepted in VideoAckAccepted");
    g.try_send(KEY);
    g.try_send(HB);
    assert_eq!(
        g.attempts,
        vec![a(KEY, false), a(HB, false), a(KEY, false), a(ACK, true), a(HB, false), a(KEY, true), a(HB, true)]
    );
    assert_eq!(g.writes(), vec![ACK, KEY, HB]);
}

#[test]
fn s2_reordered_control_first_never_writes_early() {
    let mut g = ClientGate::new();
    assert!(!g.on_inbound_heartbeat(), "activation before ack-note must be rejected");
    g.try_send(KEY);
    g.on_video_ack_noted();
    g.try_send(KEY);
    assert!(g.on_inbound_heartbeat(), "activation accepted after ack-note");
    g.try_send(KEY);
    assert_eq!(g.attempts, vec![a(KEY, false), a(KEY, false), a(KEY, true)]);
    assert_eq!(g.writes(), vec![KEY]);
}

#[test]
fn s3_delayed_activation_sweep_zero_writes_before() {
    const ATTEMPTS: usize = 5;
    for activation_at in 0..=ATTEMPTS {
        let mut g = ClientGate::new();
        g.on_video_ack_noted();
        let mut activated = false;
        for i in 0..ATTEMPTS {
            if i == activation_at {
                assert!(g.on_inbound_heartbeat());
                activated = true;
            }
            g.try_send(KEY);
        }
        if activation_at == ATTEMPTS {
            assert!(!activated);
        }
        let writes = g.writes();
        let expected_writes = ATTEMPTS.saturating_sub(activation_at.min(ATTEMPTS));
        assert_eq!(writes.len(), expected_writes, "activation_at={activation_at}");
        assert!(writes.iter().all(|k| *k == KEY));
        let refused = g.attempts.iter().filter(|at| !at.written).count();
        assert_eq!(refused, ATTEMPTS - expected_writes, "activation_at={activation_at}");
    }
}

#[test]
fn s4_host_activation_write_after_ack_note_then_first_input_accepted() {
    let mut attempts: Vec<Attempt> = Vec::new();
    let mut phase = Phase::ProfileAccepted;
    match note_outbound(Role::Host, phase, HB) {
        Ok(_) => attempts.push(a(HB, true)),
        Err(_) => attempts.push(a(HB, false)),
    }
    phase = note_video_ack(phase).unwrap();
    match note_outbound(Role::Host, phase, HB) {
        Ok(next) => {
            attempts.push(a(HB, true));
            phase = next;
        }
        Err(_) => attempts.push(a(HB, false)),
    }
    assert_eq!(attempts, vec![a(HB, false), a(HB, true)]);
    assert_eq!(phase, Phase::Active);
    match validate_inbound(Role::Host, phase, &key_event(), Some(RUN)) {
        Ok(Accepted { next, .. }) => assert_eq!(next, Phase::Active),
        other => panic!("first post-barrier input must be accepted, got {other:?}"),
    }
}

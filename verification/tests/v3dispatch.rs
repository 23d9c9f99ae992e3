use resc_client::v3dispatch::{
    frame_body_len, note_outbound, note_video_ack, validate_inbound, Accepted, DisplaySettings, Envelope, FatalCode,
    Heartbeat, KeyEvent, OutboundKind, Payload, Phase, Role,
};

const ALL_INPUT_KINDS: [OutboundKind; 4] =
    [OutboundKind::KeyEvent, OutboundKind::ButtonEvent, OutboundKind::ScrollEvent, OutboundKind::ReleaseInput];
const PRE_ACTIVE_PHASES: [Phase; 5] =
    [Phase::Bootstrap, Phase::Announced, Phase::ProfileAccepted, Phase::ProfileRejected, Phase::VideoAckAccepted];

#[test]
fn boundary_65536_ok() {
    assert_eq!(frame_body_len(65536u32.to_le_bytes()), Ok(65536));
}

#[test]
fn boundary_65537_err() {
    assert_eq!(frame_body_len(65537u32.to_le_bytes()), Err(FatalCode::MalformedFraming));
}

#[test]
fn max_u32_err() {
    assert_eq!(frame_body_len(0xFFFF_FFFFu32.to_le_bytes()), Err(FatalCode::MalformedFraming));
}

#[test]
fn zero_len_ok() {
    assert_eq!(frame_body_len(0u32.to_le_bytes()), Ok(0));
}

#[test]
fn host_announce_bootstrap_to_announced() {
    assert_eq!(
        note_outbound(Role::Host, Phase::Bootstrap, OutboundKind::HostProfileAnnounce),
        Ok(Phase::Announced)
    );
}

#[test]
fn client_input_rejected_in_every_phase_except_active() {
    for &phase in &PRE_ACTIVE_PHASES {
        for &kind in &ALL_INPUT_KINDS {
            assert_eq!(note_outbound(Role::Client, phase, kind), Err(FatalCode::ProtocolViolation), "{phase:?} {kind:?}");
        }
    }
    for &kind in &ALL_INPUT_KINDS {
        assert_eq!(note_outbound(Role::Client, Phase::Active, kind), Ok(Phase::Active), "{kind:?}");
    }
}

#[test]
fn client_heartbeat_rejected_pre_active() {
    for &phase in &PRE_ACTIVE_PHASES {
        assert_eq!(
            note_outbound(Role::Client, phase, OutboundKind::Heartbeat),
            Err(FatalCode::ProtocolViolation),
            "{phase:?}"
        );
    }
    assert_eq!(note_outbound(Role::Client, Phase::Active, OutboundKind::Heartbeat), Ok(Phase::Active));
}

#[test]
fn activation_transitions_both_sides() {
    assert_eq!(note_outbound(Role::Host, Phase::VideoAckAccepted, OutboundKind::Heartbeat), Ok(Phase::Active));
    let env = Envelope {
        session_run_id: 0x0102030405060708,
        protocol_version: 3,
        payload: Some(Payload::Heartbeat(Heartbeat { t_mono_us: 1 })),
    };
    let accepted = validate_inbound(Role::Client, Phase::VideoAckAccepted, &env, Some(0x0102030405060708))
        .expect("client must accept the host's activation heartbeat");
    assert_eq!(accepted.next, Phase::Active);
}

#[test]
fn note_video_ack_profile_accepted_to_video_ack_accepted() {
    assert_eq!(note_video_ack(Phase::ProfileAccepted), Ok(Phase::VideoAckAccepted));
}

#[test]
fn note_video_ack_every_other_phase_rejected() {
    for phase in [Phase::Bootstrap, Phase::Announced, Phase::ProfileRejected, Phase::VideoAckAccepted, Phase::Active] {
        assert_eq!(note_video_ack(phase), Err(FatalCode::ProtocolViolation), "{phase:?}");
    }
}

fn env(version: u32, run_id: u64, payload: Option<Payload>) -> Envelope {
    Envelope { session_run_id: run_id, protocol_version: version, payload }
}

#[test]
fn inbound_version_run_id_and_payload_checks() {
    let hb = Some(Payload::Heartbeat(Heartbeat { t_mono_us: 1 }));
    assert_eq!(
        validate_inbound(Role::Host, Phase::Active, &env(2, 7, hb.clone()), Some(7)),
        Err(FatalCode::VersionMismatch)
    );
    assert_eq!(
        validate_inbound(Role::Host, Phase::Active, &env(3, 8, hb.clone()), Some(7)),
        Err(FatalCode::ProtocolViolation)
    );
    assert_eq!(
        validate_inbound(Role::Host, Phase::Active, &env(3, 7, None), Some(7)),
        Err(FatalCode::ProtocolViolation)
    );
    assert_eq!(
        validate_inbound(Role::Host, Phase::Active, &env(3, 9, hb), None),
        Ok(Accepted { next: Phase::Active, learned_run_id: Some(9) })
    );
}

#[test]
fn host_accepts_input_only_when_active() {
    let key = Some(Payload::KeyEvent(KeyEvent { hid_usage: 4, is_down: true, modifiers: 0 }));
    assert_eq!(
        validate_inbound(Role::Host, Phase::Active, &env(3, 1, key.clone()), Some(1)),
        Ok(Accepted { next: Phase::Active, learned_run_id: None })
    );
    for &phase in &PRE_ACTIVE_PHASES {
        assert_eq!(
            validate_inbound(Role::Host, phase, &env(3, 1, key.clone()), Some(1)),
            Err(FatalCode::ProtocolViolation)
        );
    }
}

#[test]
fn display_settings_strength_must_be_unit_interval() {
    let ds = |v: f32| Some(Payload::DisplaySettings(DisplaySettings { warm_strength_bits: v.to_bits() }));
    assert!(validate_inbound(Role::Client, Phase::Active, &env(3, 1, ds(0.5)), Some(1)).is_ok());
    assert!(validate_inbound(Role::Client, Phase::Active, &env(3, 1, ds(1.0)), Some(1)).is_ok());
    assert!(validate_inbound(Role::Client, Phase::Active, &env(3, 1, ds(0.0)), Some(1)).is_ok());
    assert_eq!(
        validate_inbound(Role::Client, Phase::Active, &env(3, 1, ds(1.5)), Some(1)),
        Err(FatalCode::ProtocolViolation)
    );
    assert_eq!(
        validate_inbound(Role::Client, Phase::Active, &env(3, 1, ds(f32::NAN)), Some(1)),
        Err(FatalCode::ProtocolViolation)
    );
}

use std::io::Read;

struct CountingReader<R> {
    inner: R,
    bytes_read: usize,
    read_calls: usize,
}

impl<R: Read> Read for CountingReader<R> {
    fn read(&mut self, buf: &mut [u8]) -> std::io::Result<usize> {
        self.read_calls += 1;
        let n = self.inner.read(buf)?;
        self.bytes_read += n;
        Ok(n)
    }
}

fn reference_read_loop<R: Read>(r: &mut R) -> (Result<usize, FatalCode>, usize) {
    let mut prefix = [0u8; 4];
    r.read_exact(&mut prefix).expect("prefix read");
    match frame_body_len(prefix) {
        Ok(len) => {
            let mut body = vec![0u8; len];
            r.read_exact(&mut body).expect("body read");
            (Ok(len), 1)
        }
        Err(e) => (Err(e), 0),
    }
}

#[test]
fn oversized_prefix_zero_body_reads_zero_allocations() {
    let prefix = 65537u32.to_le_bytes();
    let mut reader = CountingReader { inner: &prefix[..], bytes_read: 0, read_calls: 0 };
    let (result, allocations) = reference_read_loop(&mut reader);
    assert_eq!(result, Err(FatalCode::MalformedFraming));
    assert_eq!(allocations, 0, "must not allocate a body buffer on the error path");
    assert_eq!(reader.bytes_read, 4, "must read only the 4-byte prefix, never the body");
    assert_eq!(reader.read_calls, 1, "must issue exactly one read call (the prefix)");
}

#[test]
fn accepted_prefix_reads_exactly_the_body() {
    let mut data = 3u32.to_le_bytes().to_vec();
    data.extend_from_slice(&[0xAA, 0xBB, 0xCC]);
    let mut reader = CountingReader { inner: &data[..], bytes_read: 0, read_calls: 0 };
    let (result, allocations) = reference_read_loop(&mut reader);
    assert_eq!(result, Ok(3));
    assert_eq!(allocations, 1);
    assert_eq!(reader.bytes_read, 7);
}

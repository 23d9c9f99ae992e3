//! Protocol v3 control-plane dispatch in two pure layers.
//!
//! Layer 1 ([`frame_body_len`]) gates the 4-byte little-endian length prefix
//! that precedes every control envelope, before any body buffer exists.
//! Layer 2 ([`validate_inbound`], [`note_outbound`], [`note_video_ack`]) is
//! the phase/direction validator for envelopes an endpoint receives, the
//! mirror-image table for envelopes it sends, and the video-handshake step.
//!
//! Input and heartbeats toward the host are legal only once both sides have
//! passed the activation barrier (`Phase::Active`); the host's activation
//! heartbeat is what moves the client there.
use vstd::prelude::*;
use vstd::string::StringSliceAdditionalSpecFns;

verus! {

/// The fatal codes this layer can report.
#[derive(Debug, Clone, Copy, PartialEq, Eq, Structural)]
pub enum FatalCode {
    FatalUnspecified,
    VersionMismatch,
    ProtocolViolation,
    RecordCapViolation,
    MalformedFraming,
}

/// Largest envelope body the length prefix may announce.
pub const MAX_FRAME_BODY_LEN: u32 = 65536;

/// Layer 1: the body length announced by a little-endian `u32` prefix, or
/// `MalformedFraming` when it exceeds 64 KiB. Length 0 passes this gate (an
/// empty body later fails as an absent payload).
pub fn frame_body_len(prefix: [u8; 4]) -> (r: Result<usize, FatalCode>)
    ensures
        ({
            let len = prefix@[0] + prefix@[1] * 256 + prefix@[2] * 65536 + prefix@[3] * 16777216;
            if len > MAX_FRAME_BODY_LEN {
                r == Err::<usize, FatalCode>(FatalCode::MalformedFraming)
            } else {
                r == Ok::<usize, FatalCode>(len as usize)
            }
        }),
{
    let len: u32 = prefix[0] as u32 + (prefix[1] as u32) * 256 + (prefix[2] as u32) * 65536
        + (prefix[3] as u32) * 16777216;
    if len > MAX_FRAME_BODY_LEN {
        Err(FatalCode::MalformedFraming)
    } else {
        Ok(len as usize)
    }
}

// ---------------------------------------------------------------------------
// Envelope model
// ---------------------------------------------------------------------------

/// The endpoint validating an inbound envelope.
#[derive(Debug, Clone, Copy, PartialEq, Eq, Structural)]
pub enum Role {
    Host,
    Client,
}

/// Session phase shared by both roles.
#[derive(Debug, Clone, Copy, PartialEq, Eq, Structural)]
pub enum Phase {
    /// Control connection open, announce not yet exchanged.
    Bootstrap,
    /// Announce sent (host) or received (client).
    Announced,
    ProfileAccepted,
    /// Terminal; only a fatal report is legal inbound.
    ProfileRejected,
    /// Video handshake done.
    VideoAckAccepted,
    /// Activation barrier passed.
    Active,
}

#[derive(Debug, Clone, PartialEq, Eq)]
pub struct HostProfileAnnounce {
    pub profile_canonical: Vec<u8>,
    pub profile_hash: Vec<u8>,
    pub build_commit: String,
    pub build_dirty: bool,
}

#[derive(Debug, Clone, PartialEq, Eq)]
pub struct ProfileResult {
    pub accepted: bool,
    pub profile_canonical: Vec<u8>,
    pub profile_hash: Vec<u8>,
    pub build_commit: String,
    pub build_dirty: bool,
    /// Raw fatal-code numeric; zero means unspecified.
    pub reject_code: i32,
    pub video_listener_ready: bool,
}

#[derive(Debug, Clone, Copy, PartialEq, Eq)]
pub struct FrameAck {
    pub frame_ordinal: u64,
}

#[derive(Debug, Clone, Copy, PartialEq, Eq)]
pub struct KeyEvent {
    pub hid_usage: u32,
    pub is_down: bool,
    pub modifiers: u32,
}

#[derive(Debug, Clone, Copy, PartialEq, Eq)]
pub struct ButtonEvent {
    pub button: u32,
    pub is_down: bool,
    pub x_px: i32,
    pub y_px: i32,
    pub modifiers: u32,
}

#[derive(Debug, Clone, Copy, PartialEq, Eq)]
pub struct ScrollEvent {
    pub dx: i32,
    pub dy: i32,
}

#[derive(Debug, Clone, Copy, PartialEq, Eq)]
pub struct Heartbeat {
    pub t_mono_us: u64,
}

#[derive(Debug, Clone, Copy, PartialEq, Eq)]
pub struct ClockPing {
    pub t1_mono_us: u64,
    pub seq: u32,
}

#[derive(Debug, Clone, Copy, PartialEq, Eq)]
pub struct ClockPong {
    pub t1_mono_us: u64,
    pub t2_mono_us: u64,
    pub t3_mono_us: u64,
    pub seq: u32,
}

/// Display settings; the warm strength is carried as the raw IEEE-754 bit
/// pattern of the wire's `f32`.
#[derive(Debug, Clone, Copy, PartialEq, Eq)]
pub struct DisplaySettings {
    pub warm_strength_bits: u32,
}

#[derive(Debug, Clone, PartialEq, Eq)]
pub struct FatalReport {
    pub code: i32,
    pub component: String,
    pub native_domain: String,
    pub native_code: i64,
    pub summary: String,
}

/// The envelope's oneof payload.
#[derive(Debug, Clone, PartialEq, Eq)]
pub enum Payload {
    HostProfileAnnounce(HostProfileAnnounce),
    ProfileResult(ProfileResult),
    FrameAck(FrameAck),
    KeyEvent(KeyEvent),
    ButtonEvent(ButtonEvent),
    ScrollEvent(ScrollEvent),
    ReleaseInput,
    Heartbeat(Heartbeat),
    ClockPing(ClockPing),
    ClockPong(ClockPong),
    DisplaySettings(DisplaySettings),
    FatalReport(FatalReport),
}

/// One decoded control envelope. A payload that was absent or carried only
/// unknown fields is `None`.
#[derive(Debug, Clone, PartialEq, Eq)]
pub struct Envelope {
    pub session_run_id: u64,
    pub protocol_version: u32,
    pub payload: Option<Payload>,
}

/// Result of a successful [`validate_inbound`].
#[derive(Debug, Clone, Copy, PartialEq, Eq, Structural)]
pub struct Accepted {
    pub next: Phase,
    /// Set only when no run id was expected and the envelope's id became the
    /// candidate.
    pub learned_run_id: Option<u64>,
}

// ---------------------------------------------------------------------------
// Direction/phase tables
// ---------------------------------------------------------------------------

/// Phases in which clock pings and pongs are legal.
pub open spec fn clock_phase(phase: Phase) -> bool {
    phase == Phase::ProfileAccepted || phase == Phase::VideoAckAccepted || phase == Phase::Active
}

/// Phases after the video handshake.
pub open spec fn post_video_ack(phase: Phase) -> bool {
    phase == Phase::VideoAckAccepted || phase == Phase::Active
}

/// Client-side inbound table: the next phase, or `None` when the payload is
/// illegal in `phase` (or travels in the wrong direction).
pub open spec fn client_next(phase: Phase, p: Payload) -> Option<Phase> {
    match p {
        Payload::HostProfileAnnounce(_) => if phase == Phase::Bootstrap { Some(Phase::Announced) } else { None },
        Payload::DisplaySettings(_) => if post_video_ack(phase) { Some(phase) } else { None },
        Payload::Heartbeat(_) => if post_video_ack(phase) { Some(Phase::Active) } else { None },
        Payload::ClockPing(_) | Payload::ClockPong(_) => if clock_phase(phase) { Some(phase) } else { None },
        Payload::FatalReport(_) => Some(phase),
        _ => None,
    }
}

/// Host-side inbound table.
pub open spec fn host_next(phase: Phase, p: Payload) -> Option<Phase> {
    match p {
        Payload::ProfileResult(r) => if phase == Phase::Announced {
            Some(if r.accepted { Phase::ProfileAccepted } else { Phase::ProfileRejected })
        } else {
            None
        },
        Payload::FrameAck(_) => if post_video_ack(phase) { Some(phase) } else { None },
        Payload::KeyEvent(_) | Payload::ButtonEvent(_) | Payload::ScrollEvent(_)
        | Payload::ReleaseInput | Payload::Heartbeat(_) => if phase == Phase::Active { Some(Phase::Active) } else { None },
        Payload::ClockPing(_) | Payload::ClockPong(_) => if clock_phase(phase) { Some(phase) } else { None },
        Payload::FatalReport(_) => if phase != Phase::Bootstrap { Some(phase) } else { None },
        _ => None,
    }
}

pub open spec fn inbound_next(role: Role, phase: Phase, p: Payload) -> Option<Phase> {
    match role {
        Role::Client => client_next(phase, p),
        Role::Host => host_next(phase, p),
    }
}

/// UTF-8 bytes of a string field.
pub open spec fn utf8_of(s: String) -> Seq<u8> {
    vstd::utf8::encode_utf8(s@)
}

/// Per-field caps: strings at most 256 bytes except a fatal report's summary
/// (2048); canonical profiles at most 4096 bytes; profile hashes exactly 8.
pub open spec fn caps_ok(p: Payload) -> bool {
    match p {
        Payload::HostProfileAnnounce(a) => utf8_of(a.build_commit).len() <= 256
            && a.profile_canonical@.len() <= 4096 && a.profile_hash@.len() == 8,
        Payload::ProfileResult(r) => utf8_of(r.build_commit).len() <= 256
            && r.profile_canonical@.len() <= 4096 && r.profile_hash@.len() == 8,
        Payload::FatalReport(f) => utf8_of(f.component).len() <= 256
            && utf8_of(f.native_domain).len() <= 256 && utf8_of(f.summary).len() <= 2048,
        _ => true,
    }
}

/// Exactly 40 lowercase hexadecimal characters.
pub open spec fn is_commit_id(bytes: Seq<u8>) -> bool {
    bytes.len() == 40 && forall|i: int| 0 <= i < 40 ==> #[trigger] is_lower_hex(bytes[i])
}

pub open spec fn is_lower_hex(b: u8) -> bool {
    (0x30 <= b <= 0x39) || (0x61 <= b <= 0x66)
}

/// An `f32` bit pattern is finite and within `[0.0, 1.0]` (negative zero
/// included).
pub open spec fn unit_interval_bits(bits: u32) -> bool {
    bits <= 0x3F80_0000 || bits == 0x8000_0000
}

/// Semantic ranges: button index in `{0, 1, 2}`; warm strength finite and in
/// `[0, 1]`; a profile result's reject code is unspecified and the video
/// listener ready exactly when accepted; build commits are full lowercase
/// hex object ids.
pub open spec fn semantic_ok(p: Payload) -> bool {
    match p {
        Payload::ButtonEvent(b) => b.button <= 2,
        Payload::DisplaySettings(d) => unit_interval_bits(d.warm_strength_bits),
        Payload::ProfileResult(r) => (r.reject_code == 0) == r.accepted
            && r.video_listener_ready == r.accepted && is_commit_id(utf8_of(r.build_commit)),
        Payload::HostProfileAnnounce(a) => is_commit_id(utf8_of(a.build_commit)),
        _ => true,
    }
}

/// The verdict for one inbound envelope, checked in this fixed order:
/// version, run id, payload presence, field caps, direction/phase, semantic
/// ranges.
pub open spec fn inbound_result(role: Role, phase: Phase, env: Envelope, expected_run_id: Option<u64>)
    -> Result<Accepted, FatalCode>
{
    if env.protocol_version != 3 {
        Err(FatalCode::VersionMismatch)
    } else if expected_run_id matches Some(id) && env.session_run_id != id {
        Err(FatalCode::ProtocolViolation)
    } else if env.payload is None {
        Err(FatalCode::ProtocolViolation)
    } else if !caps_ok(env.payload.unwrap()) {
        Err(FatalCode::RecordCapViolation)
    } else if inbound_next(role, phase, env.payload.unwrap()) is None {
        Err(FatalCode::ProtocolViolation)
    } else if !semantic_ok(env.payload.unwrap()) {
        Err(FatalCode::ProtocolViolation)
    } else {
        Ok(Accepted {
            next: inbound_next(role, phase, env.payload.unwrap()).unwrap(),
            learned_run_id: if expected_run_id is None { Some(env.session_run_id) } else { None },
        })
    }
}


/// The active host, given an envelope of version 3 with the expected run id
/// that carries a button event, accepts it and stays active when the button
/// index is 0, 1 or 2, and answers a protocol violation for any higher
/// index.
pub proof fn lemma_host_button_range(env: Envelope, run_id: u64)
    requires
        env.protocol_version == 3,
        env.session_run_id == run_id,
        env.payload matches Some(Payload::ButtonEvent(_)),
    ensures
        env.payload matches Some(Payload::ButtonEvent(be)) && (be.button < 3 ==>
            inbound_result(Role::Host, Phase::Active, env, Some(run_id))
                == Ok::<Accepted, FatalCode>(Accepted { next: Phase::Active, learned_run_id: None })),
        env.payload matches Some(Payload::ButtonEvent(be)) && (be.button >= 3 ==>
            inbound_result(Role::Host, Phase::Active, env, Some(run_id))
                == Err::<Accepted, FatalCode>(FatalCode::ProtocolViolation)),
{
}

/// Whatever the role, phase and payload, an envelope of another version
/// than 3 is a version mismatch, and one of version 3 whose run id differs
/// from the expected one is a protocol violation.
pub proof fn lemma_version_and_run_id_first(role: Role, phase: Phase, env: Envelope, expected_run_id: Option<u64>)
    ensures
        env.protocol_version != 3 ==> inbound_result(role, phase, env, expected_run_id)
            == Err::<Accepted, FatalCode>(FatalCode::VersionMismatch),
        (env.protocol_version == 3 && expected_run_id is Some && env.session_run_id != expected_run_id.unwrap())
            ==> inbound_result(role, phase, env, expected_run_id)
                == Err::<Accepted, FatalCode>(FatalCode::ProtocolViolation),
        inbound_result(role, phase, env, expected_run_id) matches Ok(a) ==>
            a.learned_run_id == (if expected_run_id is None { Some(env.session_run_id) } else { None::<u64> }),
{
}

/// The client, after the video handshake, given an envelope of version 3
/// with the expected run id that carries display settings, keeps its phase
/// when the warm strength is a finite `f32` in `[0, 1]` (bit pattern at most
/// that of 1.0, or negative zero), and answers a protocol violation for any
/// other bit pattern.
pub proof fn lemma_client_warm_strength_range(phase: Phase, env: Envelope, run_id: u64)
    requires
        phase == Phase::VideoAckAccepted || phase == Phase::Active,
        env.protocol_version == 3,
        env.session_run_id == run_id,
        env.payload matches Some(Payload::DisplaySettings(_)),
    ensures
        env.payload matches Some(Payload::DisplaySettings(d)) && (
            (d.warm_strength_bits <= 0x3F80_0000 || d.warm_strength_bits == 0x8000_0000) ==>
                inbound_result(Role::Client, phase, env, Some(run_id))
                    == Ok::<Accepted, FatalCode>(Accepted { next: phase, learned_run_id: None })),
        env.payload matches Some(Payload::DisplaySettings(d)) && (
            !(d.warm_strength_bits <= 0x3F80_0000 || d.warm_strength_bits == 0x8000_0000) ==>
                inbound_result(Role::Client, phase, env, Some(run_id))
                    == Err::<Accepted, FatalCode>(FatalCode::ProtocolViolation)),
{
}

// ---------------------------------------------------------------------------
// Layer 2 implementation
// ---------------------------------------------------------------------------

fn is_clock_phase(phase: Phase) -> (r: bool)
    ensures
        r == clock_phase(phase),
{
    phase == Phase::ProfileAccepted || phase == Phase::VideoAckAccepted || phase == Phase::Active
}

fn is_post_video_ack(phase: Phase) -> (r: bool)
    ensures
        r == post_video_ack(phase),
{
    phase == Phase::VideoAckAccepted || phase == Phase::Active
}

fn client_transition(phase: Phase, payload: &Payload) -> (r: Option<Phase>)
    ensures
        r == client_next(phase, *payload),
{
    match payload {
        Payload::HostProfileAnnounce(_) => if phase == Phase::Bootstrap { Some(Phase::Announced) } else { None },
        Payload::DisplaySettings(_) => if is_post_video_ack(phase) { Some(phase) } else { None },
        Payload::Heartbeat(_) => if is_post_video_ack(phase) { Some(Phase::Active) } else { None },
        Payload::ClockPing(_) | Payload::ClockPong(_) => if is_clock_phase(phase) { Some(phase) } else { None },
        Payload::FatalReport(_) => Some(phase),
        _ => None,
    }
}

fn host_transition(phase: Phase, payload: &Payload) -> (r: Option<Phase>)
    ensures
        r == host_next(phase, *payload),
{
    match payload {
        Payload::ProfileResult(p) => {
            if phase != Phase::Announced {
                return None;
            }
            Some(if p.accepted { Phase::ProfileAccepted } else { Phase::ProfileRejected })
        },
        Payload::FrameAck(_) => if is_post_video_ack(phase) { Some(phase) } else { None },
        Payload::KeyEvent(_) | Payload::ButtonEvent(_) | Payload::ScrollEvent(_)
        | Payload::ReleaseInput | Payload::Heartbeat(_) => if phase == Phase::Active { Some(Phase::Active) } else { None },
        Payload::ClockPing(_) | Payload::ClockPong(_) => if is_clock_phase(phase) { Some(phase) } else { None },
        Payload::FatalReport(_) => if phase != Phase::Bootstrap { Some(phase) } else { None },
        _ => None,
    }
}

/// Byte length of a string field.
fn utf8_len(s: &String) -> (n: usize)
    ensures
        n == utf8_of(*s).len(),
{
    let b = s.as_str().as_bytes();
    b.len()
}

fn check_caps(payload: &Payload) -> (r: Result<(), FatalCode>)
    ensures
        r is Ok <==> caps_ok(*payload),
        r is Err ==> r == Err::<(), FatalCode>(FatalCode::RecordCapViolation),
{
    match payload {
        Payload::HostProfileAnnounce(p) => {
            if utf8_len(&p.build_commit) > 256 || p.profile_canonical.len() > 4096 || p.profile_hash.len() != 8 {
                return Err(FatalCode::RecordCapViolation);
            }
        },
        Payload::ProfileResult(p) => {
            if utf8_len(&p.build_commit) > 256 || p.profile_canonical.len() > 4096 || p.profile_hash.len() != 8 {
                return Err(FatalCode::RecordCapViolation);
            }
        },
        Payload::FatalReport(p) => {
            if utf8_len(&p.component) > 256 || utf8_len(&p.native_domain) > 256 || utf8_len(&p.summary) > 2048 {
                return Err(FatalCode::RecordCapViolation);
            }
        },
        _ => {},
    }
    Ok(())
}

/// Exactly 40 lowercase hexadecimal characters (a full object id).
fn build_commit_valid(s: &str) -> (r: bool)
    ensures
        r == is_commit_id(s.spec_bytes()),
{
    let b = s.as_bytes();
    if b.len() != 40 {
        return false;
    }
    let mut i: usize = 0;
    while i < 40
        invariant
            b@ == s.spec_bytes(),
            b@.len() == 40,
            i <= 40,
            forall|j: int| 0 <= j < i ==> #[trigger] is_lower_hex(b@[j]),
        decreases 40 - i,
    {
        let c = b[i];
        if !((0x30 <= c && c <= 0x39) || (0x61 <= c && c <= 0x66)) {
            assert(!is_lower_hex(b@[i as int]));
            return false;
        }
        i += 1;
    }
    true
}

fn check_semantic(payload: &Payload) -> (r: Result<(), FatalCode>)
    ensures
        r is Ok <==> semantic_ok(*payload),
        r is Err ==> r == Err::<(), FatalCode>(FatalCode::ProtocolViolation),
{
    match payload {
        Payload::ButtonEvent(p) => {
            if p.button > 2 {
                return Err(FatalCode::ProtocolViolation);
            }
        },
        Payload::DisplaySettings(p) => {
            let bits = p.warm_strength_bits;
            if !(bits <= 0x3F80_0000 || bits == 0x8000_0000) {
                return Err(FatalCode::ProtocolViolation);
            }
        },
        Payload::ProfileResult(p) => {
            let unspecified = p.reject_code == 0;
            if unspecified != p.accepted {
                return Err(FatalCode::ProtocolViolation);
            }
            if p.video_listener_ready != p.accepted {
                return Err(FatalCode::ProtocolViolation);
            }
            if !build_commit_valid(p.build_commit.as_str()) {
                return Err(FatalCode::ProtocolViolation);
            }
        },
        Payload::HostProfileAnnounce(p) => {
            if !build_commit_valid(p.build_commit.as_str()) {
                return Err(FatalCode::ProtocolViolation);
            }
        },
        _ => {},
    }
    Ok(())
}

/// Validate one inbound envelope against the receiver's current
/// `(role, phase)`: version 3, then the run id (a mismatch is a protocol
/// violation; with none expected the envelope's id is learned), then payload
/// presence, per-field caps, direction/phase legality, and semantic ranges.
pub fn validate_inbound(role: Role, phase: Phase, env: &Envelope, expected_run_id: Option<u64>)
    -> (r: Result<Accepted, FatalCode>)
    ensures
        r == inbound_result(role, phase, *env, expected_run_id),
{
    if env.protocol_version != 3 {
        return Err(FatalCode::VersionMismatch);
    }
    let learned_run_id = match expected_run_id {
        Some(id) => {
            if env.session_run_id != id {
                return Err(FatalCode::ProtocolViolation);
            }
            None
        },
        None => Some(env.session_run_id),
    };
    let payload = match &env.payload {
        Some(p) => p,
        None => return Err(FatalCode::ProtocolViolation),
    };
    check_caps(payload)?;
    let next = match role {
        Role::Client => client_transition(phase, payload),
        Role::Host => host_transition(phase, payload),
    };
    let next = match next {
        Some(n) => n,
        None => return Err(FatalCode::ProtocolViolation),
    };
    check_semantic(payload)?;
    Ok(Accepted { next, learned_run_id })
}

/// Payload kinds an endpoint may send; the two profile-result outcomes are
/// distinct because the sender always knows which one it sends.
#[derive(Debug, Clone, Copy, PartialEq, Eq, Structural)]
pub enum OutboundKind {
    HostProfileAnnounce,
    ProfileResultAccepted,
    ProfileResultRejected,
    FrameAck,
    KeyEvent,
    ButtonEvent,
    ScrollEvent,
    ReleaseInput,
    Heartbeat,
    ClockPing,
    ClockPong,
    DisplaySettings,
    FatalReport,
}

/// Sender-side table: the phase an endpoint moves to when it sends `kind`.
pub open spec fn outbound_next(role: Role, phase: Phase, kind: OutboundKind) -> Option<Phase> {
    match role {
        Role::Host => match kind {
            OutboundKind::HostProfileAnnounce => if phase == Phase::Bootstrap { Some(Phase::Announced) } else { None },
            OutboundKind::DisplaySettings => if post_video_ack(phase) { Some(phase) } else { None },
            OutboundKind::Heartbeat => if post_video_ack(phase) { Some(Phase::Active) } else { None },
            OutboundKind::ClockPing | OutboundKind::ClockPong => if clock_phase(phase) { Some(phase) } else { None },
            OutboundKind::FatalReport => Some(phase),
            _ => None,
        },
        Role::Client => match kind {
            OutboundKind::ProfileResultAccepted => if phase == Phase::Announced { Some(Phase::ProfileAccepted) } else { None },
            OutboundKind::ProfileResultRejected => if phase == Phase::Announced { Some(Phase::ProfileRejected) } else { None },
            OutboundKind::FrameAck => if post_video_ack(phase) { Some(phase) } else { None },
            OutboundKind::KeyEvent | OutboundKind::ButtonEvent | OutboundKind::ScrollEvent
            | OutboundKind::ReleaseInput | OutboundKind::Heartbeat => if phase == Phase::Active { Some(Phase::Active) } else { None },
            OutboundKind::ClockPing | OutboundKind::ClockPong => if clock_phase(phase) { Some(phase) } else { None },
            OutboundKind::FatalReport => if phase != Phase::Bootstrap { Some(phase) } else { None },
            _ => None,
        },
    }
}

/// Advance `phase` for an endpoint about to send `kind`; an illegal send is
/// a protocol violation. The host's heartbeat while `VideoAckAccepted` is
/// its activation send; client input and heartbeats need `Active`.
pub fn note_outbound(role: Role, phase: Phase, kind: OutboundKind) -> (r: Result<Phase, FatalCode>)
    ensures
        match outbound_next(role, phase, kind) {
            Some(n) => r == Ok::<Phase, FatalCode>(n),
            None => r == Err::<Phase, FatalCode>(FatalCode::ProtocolViolation),
        },
{
    let next = match role {
        Role::Host => match kind {
            OutboundKind::HostProfileAnnounce => if phase == Phase::Bootstrap { Some(Phase::Announced) } else { None },
            OutboundKind::DisplaySettings => if is_post_video_ack(phase) { Some(phase) } else { None },
            OutboundKind::Heartbeat => if is_post_video_ack(phase) { Some(Phase::Active) } else { None },
            OutboundKind::ClockPing | OutboundKind::ClockPong => if is_clock_phase(phase) { Some(phase) } else { None },
            OutboundKind::FatalReport => Some(phase),
            _ => None,
        },
        Role::Client => match kind {
            OutboundKind::ProfileResultAccepted => if phase == Phase::Announced { Some(Phase::ProfileAccepted) } else { None },
            OutboundKind::ProfileResultRejected => if phase == Phase::Announced { Some(Phase::ProfileRejected) } else { None },
            OutboundKind::FrameAck => if is_post_video_ack(phase) { Some(phase) } else { None },
            OutboundKind::KeyEvent | OutboundKind::ButtonEvent | OutboundKind::ScrollEvent
            | OutboundKind::ReleaseInput | OutboundKind::Heartbeat => if phase == Phase::Active { Some(Phase::Active) } else { None },
            OutboundKind::ClockPing | OutboundKind::ClockPong => if is_clock_phase(phase) { Some(phase) } else { None },
            OutboundKind::FatalReport => if phase != Phase::Bootstrap { Some(phase) } else { None },
            _ => None,
        },
    };
    match next {
        Some(n) => Ok(n),
        None => Err(FatalCode::ProtocolViolation),
    }
}

/// Video handshake completion: `ProfileAccepted -> VideoAckAccepted` is the
/// only legal transition.
pub fn note_video_ack(phase: Phase) -> (r: Result<Phase, FatalCode>)
    ensures
        phase == Phase::ProfileAccepted ==> r == Ok::<Phase, FatalCode>(Phase::VideoAckAccepted),
        phase != Phase::ProfileAccepted ==> r == Err::<Phase, FatalCode>(FatalCode::ProtocolViolation),
{
    match phase {
        Phase::ProfileAccepted => Ok(Phase::VideoAckAccepted),
        _ => Err(FatalCode::ProtocolViolation),
    }
}


// ---------------------------------------------------------------------------
// Properties of the tables
// ---------------------------------------------------------------------------

/// Host-bound input (key, button, scroll, release) and heartbeats.
pub open spec fn is_host_bound_input(p: Payload) -> bool {
    match p {
        Payload::KeyEvent(_) | Payload::ButtonEvent(_) | Payload::ScrollEvent(_)
        | Payload::ReleaseInput | Payload::Heartbeat(_) => true,
        _ => false,
    }
}

/// The kind a sender uses for payload `p`.
pub open spec fn kind_of(p: Payload) -> OutboundKind {
    match p {
        Payload::HostProfileAnnounce(_) => OutboundKind::HostProfileAnnounce,
        Payload::ProfileResult(r) => if r.accepted { OutboundKind::ProfileResultAccepted } else { OutboundKind::ProfileResultRejected },
        Payload::FrameAck(_) => OutboundKind::FrameAck,
        Payload::KeyEvent(_) => OutboundKind::KeyEvent,
        Payload::ButtonEvent(_) => OutboundKind::ButtonEvent,
        Payload::ScrollEvent(_) => OutboundKind::ScrollEvent,
        Payload::ReleaseInput => OutboundKind::ReleaseInput,
        Payload::Heartbeat(_) => OutboundKind::Heartbeat,
        Payload::ClockPing(_) => OutboundKind::ClockPing,
        Payload::ClockPong(_) => OutboundKind::ClockPong,
        Payload::DisplaySettings(_) => OutboundKind::DisplaySettings,
        Payload::FatalReport(_) => OutboundKind::FatalReport,
    }
}

/// The endpoint on the other side of the control connection.
pub open spec fn peer(role: Role) -> Role {
    match role {
        Role::Host => Role::Client,
        Role::Client => Role::Host,
    }
}

/// Position of a phase in the session's progression.
pub open spec fn phase_rank(phase: Phase) -> int {
    match phase {
        Phase::Bootstrap => 0,
        Phase::Announced => 1,
        Phase::ProfileAccepted => 2,
        Phase::ProfileRejected => 2,
        Phase::VideoAckAccepted => 3,
        Phase::Active => 4,
    }
}

/// Activation barrier at the host: input and heartbeats from the client are
/// accepted only once the host is `Active`, whatever the envelope holds.
pub proof fn lemma_host_accepts_input_only_when_active(
    phase: Phase,
    env: Envelope,
    expected_run_id: Option<u64>,
)
    requires
        env.payload matches Some(p) && is_host_bound_input(p),
        inbound_result(Role::Host, phase, env, expected_run_id) is Ok,
    ensures
        phase == Phase::Active,
        inbound_result(Role::Host, phase, env, expected_run_id).unwrap().next == Phase::Active,
{
}

/// Activation barrier at the client: it may send input or heartbeats only
/// once it is itself `Active`.
pub proof fn lemma_client_sends_input_only_when_active(phase: Phase, kind: OutboundKind)
    requires
        kind == OutboundKind::KeyEvent || kind == OutboundKind::ButtonEvent
            || kind == OutboundKind::ScrollEvent || kind == OutboundKind::ReleaseInput
            || kind == OutboundKind::Heartbeat,
        outbound_next(Role::Client, phase, kind) is Some,
    ensures
        phase == Phase::Active,
{
}

/// Lockstep: sending a payload moves the sender to exactly the phase that
/// receiving it moves the peer to, and a payload illegal to send is illegal
/// to receive.
pub proof fn lemma_sender_and_receiver_agree(sender: Role, phase: Phase, p: Payload)
    ensures
        outbound_next(sender, phase, kind_of(p)) == inbound_next(peer(sender), phase, p),
{
}

/// A rejected profile is terminal: only a fatal report is legal in either
/// direction, and it leaves the phase unchanged.
pub proof fn lemma_rejected_is_terminal(role: Role, p: Payload, kind: OutboundKind)
    ensures
        inbound_next(role, Phase::ProfileRejected, p) is Some ==> (p is FatalReport
            && inbound_next(role, Phase::ProfileRejected, p) == Some(Phase::ProfileRejected)),
        outbound_next(role, Phase::ProfileRejected, kind) is Some ==> (kind == OutboundKind::FatalReport
            && outbound_next(role, Phase::ProfileRejected, kind) == Some(Phase::ProfileRejected)),
{
}

/// Phases never move backwards, on either the receiving or the sending side.
pub proof fn lemma_phases_only_advance(role: Role, phase: Phase, p: Payload, kind: OutboundKind)
    ensures
        inbound_next(role, phase, p) matches Some(n) ==> phase_rank(phase) <= phase_rank(n),
        outbound_next(role, phase, kind) matches Some(n) ==> phase_rank(phase) <= phase_rank(n),
        note_video_ack_next(phase) matches Some(n) ==> phase_rank(phase) < phase_rank(n),
{
}

/// The video handshake step as a table.
pub open spec fn note_video_ack_next(phase: Phase) -> Option<Phase> {
    if phase == Phase::ProfileAccepted { Some(Phase::VideoAckAccepted) } else { None }
}

/// A run id is learned exactly when none was expected, and an accepted
/// envelope always carries the expected id.
pub proof fn lemma_run_id_learning(role: Role, phase: Phase, env: Envelope, expected_run_id: Option<u64>)
    requires
        inbound_result(role, phase, env, expected_run_id) is Ok,
    ensures
        expected_run_id is None ==> inbound_result(role, phase, env, expected_run_id).unwrap().learned_run_id
            == Some(env.session_run_id),
        expected_run_id matches Some(id) ==> (env.session_run_id == id
            && inbound_result(role, phase, env, expected_run_id).unwrap().learned_run_id is None),
{
}

} // verus!

//! Protocol v3 fixed-binary wire records: video handshake, frame-record
//! header, UDP move/cursor records, fatal-code classes, sequence comparators,
//! the scroll transform, and Annex-B NAL scanning for random-access checks.
//!
//! Every parser takes an already-received byte slice and returns either the
//! parsed record or a [`WireError`]; callers own all socket and file I/O.
use vstd::prelude::*;
use crate::le::{u16le, u32le, u64le, i32le};

verus! {

/// Classification of a malformed record: everything is a protocol violation
/// except a frame record whose total size exceeds the negotiated cap.
#[derive(Debug, Clone, Copy, PartialEq, Eq)]
pub enum WireError {
    ProtocolViolation(&'static str),
    RecordCapViolation { total: u64, cap: u64 },
}

/// `b` starts with the four ASCII bytes `m0 m1 m2 m3`.
pub open spec fn has_magic4(b: Seq<u8>, m0: u8, m1: u8, m2: u8, m3: u8) -> bool {
    b.len() >= 4 && b[0] == m0 && b[1] == m1 && b[2] == m2 && b[3] == m3
}

fn starts_with4(b: &[u8], m0: u8, m1: u8, m2: u8, m3: u8) -> (r: bool)
    ensures
        r == has_magic4(b@, m0, m1, m2, m3),
{
    b.len() >= 4 && b[0] == m0 && b[1] == m1 && b[2] == m2 && b[3] == m3
}

// ---------------------------------------------------------------------------
// Video handshake
// ---------------------------------------------------------------------------

/// Parsed `VideoHello`, 32 bytes, host to client.
#[derive(Debug, Clone, Copy, PartialEq, Eq)]
pub struct VideoHello {
    pub session_run_id: u64,
    pub profile_hash: [u8; 8],
}

/// The first rule of the `VideoHello` layout that `b` breaks, if any.
pub open spec fn video_hello_violation(b: Seq<u8>) -> Option<&'static str> {
    if b.len() != 32 {
        Some("video_hello: length must be 32 B")
    } else if !has_magic4(b, 0x52, 0x53, 0x43, 0x56) {
        Some("video_hello: bad magic")
    } else if b[4] != 3 {
        Some("video_hello: ver must be 3")
    } else if b[5] != 0 {
        Some("video_hello: reserved u8 must be 0")
    } else if crate::le::le16(b, 6) != 32 {
        Some("video_hello: len field must be 32")
    } else if crate::le::le64(b, 24) != 0 {
        Some("video_hello: reserved u64 must be 0")
    } else {
        None
    }
}

/// The session run id a `VideoHello` carries.
pub open spec fn hello_run_id(b: Seq<u8>) -> int {
    crate::le::le64(b, 8)
}

/// The profile hash a `VideoHello` carries.
pub open spec fn hello_hash(b: Seq<u8>) -> Seq<u8> {
    b.subrange(16, 24)
}

/// `VideoHello`: exactly 32 bytes, magic `RSCV`, version 3, reserved byte 0,
/// length field 32, trailing reserved `u64` 0.
pub fn parse_video_hello(buf: &[u8]) -> (r: Result<VideoHello, WireError>)
    ensures
        match video_hello_violation(buf@) {
            Some(msg) => r == Err::<VideoHello, WireError>(WireError::ProtocolViolation(msg)),
            None => r matches Ok(h) && h.session_run_id == hello_run_id(buf@)
                && h.profile_hash@ == hello_hash(buf@),
        },
{
    if buf.len() != 32 {
        return Err(WireError::ProtocolViolation("video_hello: length must be 32 B"));
    }
    if !starts_with4(buf, 0x52, 0x53, 0x43, 0x56) {
        return Err(WireError::ProtocolViolation("video_hello: bad magic"));
    }
    if buf[4] != 3 {
        return Err(WireError::ProtocolViolation("video_hello: ver must be 3"));
    }
    if buf[5] != 0 {
        return Err(WireError::ProtocolViolation("video_hello: reserved u8 must be 0"));
    }
    if u16le(buf, 6) != 32 {
        return Err(WireError::ProtocolViolation("video_hello: len field must be 32"));
    }
    let session_run_id = u64le(buf, 8);
    let profile_hash = [buf[16], buf[17], buf[18], buf[19], buf[20], buf[21], buf[22], buf[23]];
    if u64le(buf, 24) != 0 {
        return Err(WireError::ProtocolViolation("video_hello: reserved u64 must be 0"));
    }
    assert(profile_hash@ =~= buf@.subrange(16, 24));
    Ok(VideoHello { session_run_id, profile_hash })
}


/// `VideoHelloAck` status byte; any byte outside `0..=3` is rejected by the
/// parser rather than mapped to a fifth variant.
#[derive(Debug, Clone, Copy, PartialEq, Eq)]
pub enum AckStatus {
    Accepted,
    Mismatch,
    Busy,
    Internal,
}

/// Parsed `VideoHelloAck`, 16 bytes, client to host.
#[derive(Debug, Clone, Copy, PartialEq, Eq)]
pub struct VideoHelloAck {
    pub status: AckStatus,
    pub session_run_id: u64,
}

/// The status a known status byte stands for.
pub open spec fn ack_status_of(byte: u8) -> Option<AckStatus> {
    if byte == 0 {
        Some(AckStatus::Accepted)
    } else if byte == 1 {
        Some(AckStatus::Mismatch)
    } else if byte == 2 {
        Some(AckStatus::Busy)
    } else if byte == 3 {
        Some(AckStatus::Internal)
    } else {
        None
    }
}

/// The first rule of the `VideoHelloAck` layout that `b` breaks, if any.
pub open spec fn video_hello_ack_violation(b: Seq<u8>) -> Option<&'static str> {
    if b.len() != 16 {
        Some("video_hello_ack: length must be 16 B")
    } else if !has_magic4(b, 0x52, 0x53, 0x43, 0x41) {
        Some("video_hello_ack: bad magic")
    } else if b[4] != 3 {
        Some("video_hello_ack: ver must be 3")
    } else if crate::le::le16(b, 6) != 16 {
        Some("video_hello_ack: len field must be 16")
    } else if ack_status_of(b[5]) is None {
        Some("video_hello_ack: unknown status byte")
    } else {
        None
    }
}

/// The fields of a well-formed `VideoHelloAck`.
pub open spec fn hello_ack_of(b: Seq<u8>) -> VideoHelloAck {
    VideoHelloAck { status: ack_status_of(b[5]).unwrap(), session_run_id: crate::le::le64(b, 8) as u64 }
}

/// `VideoHelloAck`: exactly 16 bytes, magic `RSCA`, version 3, length field
/// 16, status byte in `0..=3`.
pub fn parse_video_hello_ack(buf: &[u8]) -> (r: Result<VideoHelloAck, WireError>)
    ensures
        match video_hello_ack_violation(buf@) {
            Some(msg) => r == Err::<VideoHelloAck, WireError>(WireError::ProtocolViolation(msg)),
            None => r == Ok::<VideoHelloAck, WireError>(hello_ack_of(buf@)),
        },
{
    if buf.len() != 16 {
        return Err(WireError::ProtocolViolation("video_hello_ack: length must be 16 B"));
    }
    if !starts_with4(buf, 0x52, 0x53, 0x43, 0x41) {
        return Err(WireError::ProtocolViolation("video_hello_ack: bad magic"));
    }
    if buf[4] != 3 {
        return Err(WireError::ProtocolViolation("video_hello_ack: ver must be 3"));
    }
    if u16le(buf, 6) != 16 {
        return Err(WireError::ProtocolViolation("video_hello_ack: len field must be 16"));
    }
    let status = match buf[5] {
        0 => AckStatus::Accepted,
        1 => AckStatus::Mismatch,
        2 => AckStatus::Busy,
        3 => AckStatus::Internal,
        _ => return Err(WireError::ProtocolViolation("video_hello_ack: unknown status byte")),
    };
    let session_run_id = u64le(buf, 8);
    Ok(VideoHelloAck { status, session_run_id })
}

// ---------------------------------------------------------------------------
// Frame record header
// ---------------------------------------------------------------------------

/// Parsed 32-byte frame-record header. The Annex-B payload that follows it
/// is read separately by the caller once the size cap has been checked.
#[derive(Debug, Clone, Copy, PartialEq, Eq)]
pub struct FrameHeader {
    pub keyframe_claim: bool,
    pub frame_ordinal: u64,
    pub capture_seq: u32,
    pub content_capture_ts_us: u64,
    pub payload_len: u32,
}

/// The outcome the frame-record rules give for header bytes `b` under the
/// record cap `cap`.
pub open spec fn frame_header_result(b: Seq<u8>, cap: u64) -> Result<FrameHeader, WireError> {
    if !(b[0] == 0x56 && b[1] == 0x46) {
        Err(WireError::ProtocolViolation("frame_header: bad magic"))
    } else if b[2] != 32 {
        Err(WireError::ProtocolViolation("frame_header: headerLen must be 32"))
    } else if b[3] > 1 {
        Err(WireError::ProtocolViolation("frame_header: unknown flag bit set"))
    } else if !(1 <= crate::le::le64(b, 4) <= i64::MAX) {
        Err(WireError::ProtocolViolation("frame_header: frameOrdinal out of domain"))
    } else if crate::le::le32(b, 24) != 0 {
        Err(WireError::ProtocolViolation("frame_header: reserved u32 must be 0"))
    } else if 32 + crate::le::le32(b, 28) > cap {
        Err(WireError::RecordCapViolation { total: (32 + crate::le::le32(b, 28)) as u64, cap })
    } else {
        Ok(FrameHeader {
            keyframe_claim: b[3] == 1,
            frame_ordinal: crate::le::le64(b, 4) as u64,
            capture_seq: crate::le::le32(b, 12) as u32,
            content_capture_ts_us: crate::le::le64(b, 16) as u64,
            payload_len: crate::le::le32(b, 28) as u32,
        })
    }
}

/// Frame-record header: magic `VF`, header length 32, only the keyframe
/// claim bit (bit 0) may be set in `flags`, `frameOrdinal` in
/// `1..=i64::MAX`, reserved `u32` zero, and `32 + payload_len` (computed in
/// `u64`) at most `max_record_bytes`.
pub fn parse_frame_header(buf: &[u8; 32], max_record_bytes: u64) -> (r: Result<FrameHeader, WireError>)
    ensures
        r == frame_header_result(buf@, max_record_bytes),
{
    broadcast use vstd::array::group_array_axioms;
    let b: &[u8] = buf.as_slice();
    assert(b@ == buf@);
    if !(b[0] == 0x56 && b[1] == 0x46) {
        return Err(WireError::ProtocolViolation("frame_header: bad magic"));
    }
    if b[2] != 32 {
        return Err(WireError::ProtocolViolation("frame_header: headerLen must be 32"));
    }
    let flags = b[3];
    if flags > 1 {
        return Err(WireError::ProtocolViolation("frame_header: unknown flag bit set"));
    }
    let keyframe_claim = flags == 1;
    let frame_ordinal = u64le(b, 4);
    if !(1 <= frame_ordinal && frame_ordinal <= 0x7FFF_FFFF_FFFF_FFFF) {
        return Err(WireError::ProtocolViolation("frame_header: frameOrdinal out of domain"));
    }
    let capture_seq = u32le(b, 12);
    let content_capture_ts_us = u64le(b, 16);
    if u32le(b, 24) != 0 {
        return Err(WireError::ProtocolViolation("frame_header: reserved u32 must be 0"));
    }
    let payload_len = u32le(b, 28);
    let total: u64 = 32u64 + payload_len as u64;
    if total > max_record_bytes {
        return Err(WireError::RecordCapViolation { total, cap: max_record_bytes });
    }
    Ok(FrameHeader { keyframe_claim, frame_ordinal, capture_seq, content_capture_ts_us, payload_len })
}

/// An accepted frame header carries each field at its fixed offset, little
/// endian: the keyframe claim is bit 0 of the flags byte at 3, the frame
/// ordinal the `u64` at 4..12, the capture sequence the `u32` at 12..16,
/// the capture timestamp the `u64` at 16..24 and the payload length the
/// `u32` at 28..32; the header starts `VF`, gives 32 as its length and has
/// a zero reserved word at 24..28, and the whole record fits the cap.
pub proof fn lemma_frame_header_fields(b: Seq<u8>, cap: u64)
    requires
        b.len() == 32,
    ensures
        frame_header_result(b, cap) matches Ok(h) ==> {
            &&& b[0] == 0x56 && b[1] == 0x46 && b[2] == 32 && b[3] <= 1
            &&& h.keyframe_claim == (b[3] == 1)
            &&& h.frame_ordinal == b[4] + b[5] * 0x100 + b[6] * 0x1_0000 + b[7] * 0x100_0000
                + b[8] * 0x1_0000_0000 + b[9] * 0x100_0000_0000 + b[10] * 0x1_0000_0000_0000
                + b[11] * 0x100_0000_0000_0000
            &&& h.capture_seq == b[12] + b[13] * 0x100 + b[14] * 0x1_0000 + b[15] * 0x100_0000
            &&& h.content_capture_ts_us == b[16] + b[17] * 0x100 + b[18] * 0x1_0000 + b[19] * 0x100_0000
                + b[20] * 0x1_0000_0000 + b[21] * 0x100_0000_0000 + b[22] * 0x1_0000_0000_0000
                + b[23] * 0x100_0000_0000_0000
            &&& b[24] == 0 && b[25] == 0 && b[26] == 0 && b[27] == 0
            &&& h.payload_len == b[28] + b[29] * 0x100 + b[30] * 0x1_0000 + b[31] * 0x100_0000
            &&& 32 + h.payload_len <= cap
        },
{
}

// ---------------------------------------------------------------------------
// UDP records: Move and Cursor (no reserved fields)
// ---------------------------------------------------------------------------

/// Parsed `Move` UDP record, 26 bytes, client to host.
#[derive(Debug, Clone, Copy, PartialEq, Eq)]
pub struct MoveEvent {
    pub session_run_id: u64,
    pub seq: u32,
    pub x: i32,
    pub y: i32,
}

/// The first rule of the `Move` layout that `b` breaks, if any.
pub open spec fn move_violation(b: Seq<u8>) -> Option<&'static str> {
    if b.len() != 26 {
        Some("move: length must be 26 B")
    } else if !has_magic4(b, 0x52, 0x45, 0x53, 0x43) {
        Some("move: bad magic")
    } else if b[4] != 3 {
        Some("move: ver must be 3")
    } else if b[5] != 2 {
        Some("move: type must be 2")
    } else {
        None
    }
}

/// The fields of a well-formed `Move` record.
pub open spec fn move_of(b: Seq<u8>) -> MoveEvent {
    MoveEvent {
        session_run_id: crate::le::le64(b, 6) as u64,
        seq: crate::le::le32(b, 14) as u32,
        x: (crate::le::le32(b, 18) as u32) as i32,
        y: (crate::le::le32(b, 22) as u32) as i32,
    }
}

/// `Move`: exactly 26 bytes, prefix magic `RESC`, version 3, type 2.
pub fn parse_move(buf: &[u8]) -> (r: Result<MoveEvent, WireError>)
    ensures
        match move_violation(buf@) {
            Some(msg) => r == Err::<MoveEvent, WireError>(WireError::ProtocolViolation(msg)),
            None => r == Ok::<MoveEvent, WireError>(move_of(buf@)),
        },
{
    if buf.len() != 26 {
        return Err(WireError::ProtocolViolation("move: length must be 26 B"));
    }
    if !starts_with4(buf, 0x52, 0x45, 0x53, 0x43) {
        return Err(WireError::ProtocolViolation("move: bad magic"));
    }
    if buf[4] != 3 {
        return Err(WireError::ProtocolViolation("move: ver must be 3"));
    }
    if buf[5] != 2 {
        return Err(WireError::ProtocolViolation("move: type must be 2"));
    }
    let session_run_id = u64le(buf, 6);
    let seq = u32le(buf, 14);
    let x = i32le(buf, 18);
    let y = i32le(buf, 22);
    Ok(MoveEvent { session_run_id, seq, x, y })
}

/// Parsed `Cursor` UDP record, 43 bytes, host to client. The scale factor is
/// carried as the raw IEEE-754 bit pattern of the wire's `f32`.
#[derive(Debug, Clone, Copy, PartialEq, Eq)]
pub struct CursorUpdate3 {
    pub session_run_id: u64,
    pub seq: u32,
    pub timestamp_us: u64,
    pub x_px: i32,
    pub y_px: i32,
    pub shape_id: u8,
    pub hotspot_x_px: u16,
    pub hotspot_y_px: u16,
    pub cursor_scale_bits: u32,
}

/// An `f32` bit pattern is finite and strictly positive exactly when its
/// sign bit is clear, it is not zero, and its exponent is not all ones.
pub open spec fn f32_bits_finite_positive(bits: int) -> bool {
    1 <= bits && bits < 0x7F80_0000
}

/// The first rule of the `Cursor` layout that `b` breaks, if any.
pub open spec fn cursor_violation(b: Seq<u8>) -> Option<&'static str> {
    if b.len() != 43 {
        Some("cursor: length must be 43 B")
    } else if !has_magic4(b, 0x52, 0x45, 0x53, 0x43) {
        Some("cursor: bad magic")
    } else if b[4] != 3 {
        Some("cursor: ver must be 3")
    } else if b[5] != 1 {
        Some("cursor: type must be 1")
    } else if b[34] > 15 {
        Some("cursor: shape_id out of 0..=15")
    } else if !f32_bits_finite_positive(crate::le::le32(b, 39)) {
        Some("cursor: cursor_scale must be finite and > 0")
    } else {
        None
    }
}

/// The fields of a well-formed `Cursor` record.
pub open spec fn cursor_of(b: Seq<u8>) -> CursorUpdate3 {
    CursorUpdate3 {
        session_run_id: crate::le::le64(b, 6) as u64,
        seq: crate::le::le32(b, 14) as u32,
        timestamp_us: crate::le::le64(b, 18) as u64,
        x_px: (crate::le::le32(b, 26) as u32) as i32,
        y_px: (crate::le::le32(b, 30) as u32) as i32,
        shape_id: b[34],
        hotspot_x_px: crate::le::le16(b, 35) as u16,
        hotspot_y_px: crate::le::le16(b, 37) as u16,
        cursor_scale_bits: crate::le::le32(b, 39) as u32,
    }
}

/// `Cursor`: exactly 43 bytes, prefix magic `RESC`, version 3, type 1,
/// `shape_id` in `0..=15`, and `cursor_scale` finite and positive.
pub fn parse_cursor(buf: &[u8]) -> (r: Result<CursorUpdate3, WireError>)
    ensures
        match cursor_violation(buf@) {
            Some(msg) => r == Err::<CursorUpdate3, WireError>(WireError::ProtocolViolation(msg)),
            None => r == Ok::<CursorUpdate3, WireError>(cursor_of(buf@)),
        },
{
    if buf.len() != 43 {
        return Err(WireError::ProtocolViolation("cursor: length must be 43 B"));
    }
    if !starts_with4(buf, 0x52, 0x45, 0x53, 0x43) {
        return Err(WireError::ProtocolViolation("cursor: bad magic"));
    }
    if buf[4] != 3 {
        return Err(WireError::ProtocolViolation("cursor: ver must be 3"));
    }
    if buf[5] != 1 {
        return Err(WireError::ProtocolViolation("cursor: type must be 1"));
    }
    let session_run_id = u64le(buf, 6);
    let seq = u32le(buf, 14);
    let timestamp_us = u64le(buf, 18);
    let x_px = i32le(buf, 26);
    let y_px = i32le(buf, 30);
    let shape_id = buf[34];
    if shape_id > 15 {
        return Err(WireError::ProtocolViolation("cursor: shape_id out of 0..=15"));
    }
    let hotspot_x_px = u16le(buf, 35);
    let hotspot_y_px = u16le(buf, 37);
    let cursor_scale_bits = u32le(buf, 39);
    if !(1 <= cursor_scale_bits && cursor_scale_bits < 0x7F80_0000) {
        return Err(WireError::ProtocolViolation("cursor: cursor_scale must be finite and > 0"));
    }
    Ok(CursorUpdate3 {
        session_run_id,
        seq,
        timestamp_us,
        x_px,
        y_px,
        shape_id,
        hotspot_x_px,
        hotspot_y_px,
        cursor_scale_bits,
    })
}


/// The little-endian unsigned value of `b[i..i + 2]`, spelt byte by byte.
pub open spec fn u16_at(b: Seq<u8>, i: int) -> int {
    b[i] + b[i + 1] * 0x100
}

/// The little-endian unsigned value of `b[i..i + 4]`, spelt byte by byte.
pub open spec fn u32_at(b: Seq<u8>, i: int) -> int {
    b[i] + b[i + 1] * 0x100 + b[i + 2] * 0x1_0000 + b[i + 3] * 0x100_0000
}

/// The little-endian unsigned value of `b[i..i + 8]`, spelt byte by byte.
pub open spec fn u64_at(b: Seq<u8>, i: int) -> int {
    b[i] + b[i + 1] * 0x100 + b[i + 2] * 0x1_0000 + b[i + 3] * 0x100_0000
        + b[i + 4] * 0x1_0000_0000 + b[i + 5] * 0x100_0000_0000 + b[i + 6] * 0x1_0000_0000_0000
        + b[i + 7] * 0x100_0000_0000_0000
}

/// An accepted `VideoHello` is 32 bytes `RSCV`, version 3, reserved byte 0,
/// length field 32 and zero reserved tail at 24..32; it carries the run id
/// at 8..16 and the profile hash at 16..24.
pub proof fn lemma_video_hello_fields(b: Seq<u8>)
    ensures
        video_hello_violation(b) is None ==> {
            &&& b.len() == 32
            &&& b[0] == 0x52 && b[1] == 0x53 && b[2] == 0x43 && b[3] == 0x56
            &&& b[4] == 3 && b[5] == 0 && u16_at(b, 6) == 32 && u64_at(b, 24) == 0
            &&& hello_run_id(b) == u64_at(b, 8)
            &&& hello_hash(b).len() == 8
            &&& forall|k: int| 0 <= k < 8 ==> #[trigger] hello_hash(b)[k] == b[16 + k]
        },
{
}

/// An accepted `VideoHelloAck` is 16 bytes `RSCA`, version 3, length field
/// 16; its status is the byte at 5 (0 accepted, 1 mismatch, 2 busy, 3
/// internal) and its run id the `u64` at 8..16.
pub proof fn lemma_video_hello_ack_fields(b: Seq<u8>)
    ensures
        video_hello_ack_violation(b) is None ==> {
            let a = hello_ack_of(b);
            &&& b.len() == 16
            &&& b[0] == 0x52 && b[1] == 0x53 && b[2] == 0x43 && b[3] == 0x41
            &&& b[4] == 3 && u16_at(b, 6) == 16 && b[5] <= 3
            &&& (a.status == AckStatus::Accepted) == (b[5] == 0)
            &&& (a.status == AckStatus::Mismatch) == (b[5] == 1)
            &&& (a.status == AckStatus::Busy) == (b[5] == 2)
            &&& (a.status == AckStatus::Internal) == (b[5] == 3)
            &&& a.session_run_id == u64_at(b, 8)
        },
{
}

/// An accepted `Move` is 26 bytes `RESC`, version 3, type 2, carrying the
/// run id at 6..14, the sequence number at 14..18 and the signed
/// coordinates at 18..22 and 22..26.
pub proof fn lemma_move_fields(b: Seq<u8>)
    ensures
        move_violation(b) is None ==> {
            let m = move_of(b);
            &&& b.len() == 26
            &&& b[0] == 0x52 && b[1] == 0x45 && b[2] == 0x53 && b[3] == 0x43
            &&& b[4] == 3 && b[5] == 2
            &&& m.session_run_id == u64_at(b, 6)
            &&& m.seq == u32_at(b, 14)
            &&& m.x == (u32_at(b, 18) as u32) as i32
            &&& m.y == (u32_at(b, 22) as u32) as i32
        },
{
}

/// An accepted `Cursor` is 43 bytes `RESC`, version 3, type 1, with a shape
/// id at 34 in `0..=15` and a finite positive scale; it carries the run id
/// at 6..14, the sequence number at 14..18, the timestamp at 18..26, the
/// signed position at 26..30 and 30..34, the hotspot at 35..37 and 37..39
/// and the scale bits at 39..43.
pub proof fn lemma_cursor_fields(b: Seq<u8>)
    ensures
        cursor_violation(b) is None ==> {
            let c = cursor_of(b);
            &&& b.len() == 43
            &&& b[0] == 0x52 && b[1] == 0x45 && b[2] == 0x53 && b[3] == 0x43
            &&& b[4] == 3 && b[5] == 1 && b[34] <= 15
            &&& 1 <= u32_at(b, 39) < 0x7F80_0000
            &&& c.session_run_id == u64_at(b, 6)
            &&& c.seq == u32_at(b, 14)
            &&& c.timestamp_us == u64_at(b, 18)
            &&& c.x_px == (u32_at(b, 26) as u32) as i32
            &&& c.y_px == (u32_at(b, 30) as u32) as i32
            &&& c.shape_id == b[34]
            &&& c.hotspot_x_px == u16_at(b, 35)
            &&& c.hotspot_y_px == u16_at(b, 37)
            &&& c.cursor_scale_bits == u32_at(b, 39)
        },
{
}


// ---------------------------------------------------------------------------
// Fatal-code classes
// ---------------------------------------------------------------------------

/// Failure class attached to each known, nonzero fatal code.
#[derive(Debug, Clone, Copy, PartialEq, Eq)]
pub enum FailureClass {
    Deterministic,
    Transient,
    Terminal,
}

/// Class table: `1..=9` deterministic, `10..=18` transient, `19` and `20`
/// terminal, `21` deterministic, `22` transient; `0` (unspecified) and any
/// unknown code have no class.
pub open spec fn class_of(code: int) -> Option<FailureClass> {
    if 1 <= code <= 9 {
        Some(FailureClass::Deterministic)
    } else if 10 <= code <= 18 {
        Some(FailureClass::Transient)
    } else if code == 19 || code == 20 {
        Some(FailureClass::Terminal)
    } else if code == 21 {
        Some(FailureClass::Deterministic)
    } else if code == 22 {
        Some(FailureClass::Transient)
    } else {
        None
    }
}

/// Classify a raw fatal-code numeric.
pub fn classify(code: i32) -> (r: Option<FailureClass>)
    ensures
        r == class_of(code as int),
{
    if 1 <= code && code <= 9 {
        Some(FailureClass::Deterministic)
    } else if 10 <= code && code <= 18 {
        Some(FailureClass::Transient)
    } else if code == 19 || code == 20 {
        Some(FailureClass::Terminal)
    } else if code == 21 {
        Some(FailureClass::Deterministic)
    } else if code == 22 {
        Some(FailureClass::Transient)
    } else {
        None
    }
}

// ---------------------------------------------------------------------------
// Sequence comparators
// ---------------------------------------------------------------------------

/// `a` is newer than `b` in a wrapping sequence space of size `2^bits`:
/// the forward distance `(a - b) mod 2^bits` is nonzero and below half the
/// space.
pub open spec fn seq_newer(a: int, b: int, modulus: int) -> bool {
    let d = (a - b) % modulus;
    d != 0 && d < modulus / 2
}

/// Serial-number order over the `u32` and `u24` spaces: a value a step of
/// less than half the space ahead is newer and the reverse is not, no value
/// is newer than itself, and of two values at most one is newer than the
/// other.
pub proof fn lemma_seq_newer_serial(a: int, b: int, k: int, modulus: int)
    requires
        modulus == 0x1_0000_0000 || modulus == 0x100_0000,
        0 < k < modulus / 2,
    ensures
        seq_newer(a + k, a, modulus),
        !seq_newer(a, a + k, modulus),
        !seq_newer(a, a, modulus),
        seq_newer(a, b, modulus) ==> !seq_newer(b, a, modulus),
{
    if modulus == 0x1_0000_0000 {
        assert((a + k - a) % 0x1_0000_0000 == k);
        assert((a - (a + k)) % 0x1_0000_0000 == 0x1_0000_0000 - k);
        assert((a - a) % 0x1_0000_0000 == 0);
        let d = (a - b) % 0x1_0000_0000;
        if d != 0 {
            assert((b - a) % 0x1_0000_0000 == 0x1_0000_0000 - d);
        }
    } else {
        assert((a + k - a) % 0x100_0000 == k);
        assert((a - (a + k)) % 0x100_0000 == 0x100_0000 - k);
        assert((a - a) % 0x100_0000 == 0);
        let d = (a - b) % 0x100_0000;
        if d != 0 {
            assert((b - a) % 0x100_0000 == 0x100_0000 - d);
        }
    }
}

/// Forward distance from `b` to `a` modulo `2^32`, computed without wrap.
fn forward_distance_u32(a: u32, b: u32) -> (d: u32)
    ensures
        d == (a - b) % 0x1_0000_0000,
{
    if a >= b {
        a - b
    } else {
        let d = (0xFFFF_FFFFu32 - b) + a + 1;
        assert(d == (a - b) + 0x1_0000_0000);
        d
    }
}

/// Sequence comparator over the full `u32` space.
pub fn newer_u32(a: u32, b: u32) -> (r: bool)
    ensures
        r == seq_newer(a as int, b as int, 0x1_0000_0000),
{
    let d = forward_distance_u32(a, b);
    d != 0 && d < 0x8000_0000
}

/// Sequence comparator restricted to the low 24 bits of each input (the
/// packed cursor snapshot's `u24` sequence field); higher input bits are
/// ignored.
pub fn newer_u24(a: u32, b: u32) -> (r: bool)
    ensures
        r == seq_newer(a as int % 0x100_0000, b as int % 0x100_0000, 0x100_0000),
{
    let a24 = a & 0xFF_FFFF;
    let b24 = b & 0xFF_FFFF;
    assert(a24 == a % 0x100_0000) by (bit_vector)
        requires a24 == a & 0xFF_FFFF;
    assert(b24 == b % 0x100_0000) by (bit_vector)
        requires b24 == b & 0xFF_FFFF;
    let d: u32 = if a24 >= b24 { a24 - b24 } else { (0xFF_FFFFu32 - b24) + a24 + 1 };
    assert(d == (a24 - b24) % 0x100_0000);
    d != 0 && d < 0x80_0000
}

// ---------------------------------------------------------------------------
// Scroll transform
// ---------------------------------------------------------------------------

/// The multiplier applied to each SDL scroll step.
pub const SCROLL_QUANTUM: i64 = 10;

/// `v` clamped into the `i32` range.
pub open spec fn saturate_i32(v: int) -> int {
    if v < i32::MIN {
        i32::MIN as int
    } else if v > i32::MAX {
        i32::MAX as int
    } else {
        v
    }
}

/// The injected scroll deltas for SDL steps `(dx, dy)`: rotation first swaps
/// the axes (`(-dy, dx)`), then each component is multiplied by the quantum
/// in unbounded arithmetic and saturated to `i32`.
pub open spec fn scroll_spec(dx: int, dy: int, rotated: bool) -> (int, int) {
    let (x, y) = if rotated { (-dy, dx) } else { (dx, dy) };
    (saturate_i32(x * 10), saturate_i32(y * 10))
}

fn scale_and_saturate(v: i64) -> (r: i32)
    requires
        -0x1_0000_0000 <= v <= 0x1_0000_0000,
    ensures
        r == saturate_i32(v * 10),
{
    let scaled = v * SCROLL_QUANTUM;
    if scaled < -2147483648i64 {
        -2147483648i32
    } else if scaled > 2147483647i64 {
        2147483647i32
    } else {
        scaled as i32
    }
}

/// Rotate the signed SDL scroll steps, multiply by the 10-pixel quantum in
/// widened arithmetic, and saturate each component to `i32` (so even
/// `i32::MIN` inputs never overflow).
pub fn scroll_transform(dx: i32, dy: i32, rotated: bool) -> (r: (i32, i32))
    ensures
        (r.0 as int, r.1 as int) == scroll_spec(dx as int, dy as int, rotated),
{
    let (x, y): (i64, i64) = if rotated {
        (-(dy as i64), dx as i64)
    } else {
        (dx as i64, dy as i64)
    };
    (scale_and_saturate(x), scale_and_saturate(y))
}

// ---------------------------------------------------------------------------
// Annex-B NAL scanning and random-access verification
// ---------------------------------------------------------------------------

pub const NAL_TYPE_VPS: u8 = 32;
pub const NAL_TYPE_SPS: u8 = 33;
pub const NAL_TYPE_PPS: u8 = 34;
pub const NAL_TYPE_IDR_W_RADL: u8 = 19;
pub const NAL_TYPE_IDR_N_LP: u8 = 20;
pub const NAL_TYPE_CRA: u8 = 21;

/// NAL unit types seen while scanning one Annex-B stream, plus the flags the
/// random-access checks read.
#[derive(Debug, Clone, Default, PartialEq, Eq)]
pub struct NalSummary {
    pub types: Vec<u8>,
    pub has_vps: bool,
    pub has_sps: bool,
    pub has_pps: bool,
    pub has_idr: bool,
    pub has_cra: bool,
}

/// A 3-byte start code `00 00 01` begins at `i`.
pub open spec fn short_code_at(d: Seq<u8>, i: int) -> bool {
    i + 2 < d.len() && d[i] == 0 && d[i + 1] == 0 && d[i + 2] == 1
}

/// A 4-byte start code `00 00 00 01` begins at `i` (and no 3-byte one does).
pub open spec fn long_code_at(d: Seq<u8>, i: int) -> bool {
    !short_code_at(d, i) && i + 3 < d.len() && d[i] == 0 && d[i + 1] == 0 && d[i + 2] == 0
        && d[i + 3] == 1
}

/// HEVC `nal_unit_type` carried in bits 6..1 of a NAL header's first byte.
pub open spec fn hevc_nal_type(first: u8) -> u8 {
    ((first as int / 2) % 64) as u8
}

/// NAL types found by a left-to-right scan of `d` starting at `i`: at each
/// start code the byte that follows it (when present) gives one NAL type and
/// the scan resumes right after the start code; elsewhere it advances one
/// byte.
pub open spec fn scan_types_from(d: Seq<u8>, i: int) -> Seq<u8>
    decreases d.len() - i,
{
    if i < 0 || i + 2 >= d.len() {
        seq![]
    } else if short_code_at(d, i) || long_code_at(d, i) {
        let s = if short_code_at(d, i) { i + 3 } else { i + 4 };
        let here = if s < d.len() { seq![hevc_nal_type(d[s])] } else { seq![] };
        here + scan_types_from(d, s)
    } else {
        scan_types_from(d, i + 1)
    }
}

/// A summary whose flags agree with its recorded types.
pub open spec fn summary_flags_match(s: NalSummary) -> bool {
    &&& s.has_vps == s.types@.contains(NAL_TYPE_VPS)
    &&& s.has_sps == s.types@.contains(NAL_TYPE_SPS)
    &&& s.has_pps == s.types@.contains(NAL_TYPE_PPS)
    &&& s.has_idr == (s.types@.contains(NAL_TYPE_IDR_W_RADL) || s.types@.contains(NAL_TYPE_IDR_N_LP))
    &&& s.has_cra == s.types@.contains(NAL_TYPE_CRA)
}

fn nal_type_of(first: u8) -> (t: u8)
    ensures
        t == hevc_nal_type(first),
{
    let t = (first >> 1) & 0x3F;
    assert(t == ((first as int / 2) % 64) as u8) by (bit_vector)
        requires t == (first >> 1) & 0x3F;
    t
}

/// Scan Annex-B `data` for NAL units delimited by 3- or 4-byte start codes,
/// recording each unit's HEVC NAL type in stream order.
pub fn scan_annexb(data: &[u8]) -> (s: NalSummary)
    ensures
        s.types@ == scan_types_from(data@, 0),
        summary_flags_match(s),
{
    let mut summary = NalSummary {
        types: Vec::new(),
        has_vps: false,
        has_sps: false,
        has_pps: false,
        has_idr: false,
        has_cra: false,
    };
    let mut i: usize = 0;
    while data.len() >= 3 && i < data.len() - 2
        invariant
            i <= data@.len(),
            summary.types@ + scan_types_from(data@, i as int) == scan_types_from(data@, 0),
            summary_flags_match(summary),
        decreases data@.len() - i,
    {
        let is_short = data[i] == 0 && data[i + 1] == 0 && data[i + 2] == 1;
        let is_long = !is_short && i + 3 < data.len() && data[i] == 0 && data[i + 1] == 0
            && data[i + 2] == 0 && data[i + 3] == 1;
        if is_short || is_long {
            let nal_start = i + if is_short { 3 } else { 4 };
            let ghost old_types = summary.types@;
            if nal_start < data.len() {
                let nal_type = nal_type_of(data[nal_start]);
                summary.types.push(nal_type);
                if nal_type == NAL_TYPE_VPS {
                    summary.has_vps = true;
                } else if nal_type == NAL_TYPE_SPS {
                    summary.has_sps = true;
                } else if nal_type == NAL_TYPE_PPS {
                    summary.has_pps = true;
                } else if nal_type == NAL_TYPE_IDR_W_RADL || nal_type == NAL_TYPE_IDR_N_LP {
                    summary.has_idr = true;
                } else if nal_type == NAL_TYPE_CRA {
                    summary.has_cra = true;
                }
                proof {
                    assert(summary.types@ == old_types.push(nal_type));
                    assert(summary.types@ + scan_types_from(data@, nal_start as int)
                        =~= old_types + scan_types_from(data@, i as int));
                    assert forall|t: u8| summary.types@.contains(t) <==> (old_types.contains(t) || t == nal_type) by {
                        if summary.types@.contains(t) {
                            let k = choose|k: int| 0 <= k < summary.types@.len() && summary.types@[k] == t;
                            if k < old_types.len() {
                                assert(old_types[k] == t);
                            }
                        }
                        if old_types.contains(t) {
                            let k = choose|k: int| 0 <= k < old_types.len() && old_types[k] == t;
                            assert(summary.types@[k] == t);
                        }
                        if t == nal_type {
                            assert(summary.types@[old_types.len() as int] == t);
                        }
                    }
                }
            } else {
                assert(old_types + scan_types_from(data@, nal_start as int)
                    =~= old_types + scan_types_from(data@, i as int));
            }
            i = nal_start;
        } else {
            i += 1;
        }
    }
    proof {
        assert(scan_types_from(data@, i as int) =~= seq![]);
        assert(summary.types@ =~= summary.types@ + scan_types_from(data@, i as int));
    }
    summary
}

/// The session-first access unit must carry no CRA at all, all three
/// parameter sets, and an IDR.
pub open spec fn session_first_result(s: NalSummary) -> Result<(), &'static str> {
    if s.has_cra {
        Err("CRA present in session-first AU (rejected)")
    } else if !(s.has_vps && s.has_sps && s.has_pps) {
        Err("session-first AU missing a required parameter set (VPS/SPS/PPS)")
    } else if !s.has_idr {
        Err("session-first AU missing an IDR (NAL 19/20)")
    } else {
        Ok(())
    }
}

/// Session-first access-unit requirement: a CRA anywhere is rejected even
/// alongside an IDR; VPS, SPS and PPS must all be present; an IDR must be
/// present.
pub fn validate_session_first(s: &NalSummary) -> (r: Result<(), &'static str>)
    ensures
        r == session_first_result(*s),
{
    if s.has_cra {
        return Err("CRA present in session-first AU (rejected)");
    }
    if !(s.has_vps && s.has_sps && s.has_pps) {
        return Err("session-first AU missing a required parameter set (VPS/SPS/PPS)");
    }
    if !s.has_idr {
        return Err("session-first AU missing an IDR (NAL 19/20)");
    }
    Ok(())
}

/// The header's keyframe claim must equal whether the access unit contains
/// an IDR.
pub fn keyframe_claim_matches(s: &NalSummary, claim: bool) -> (r: bool)
    ensures
        r == (claim == s.has_idr),
{
    claim == s.has_idr
}

} // verus!

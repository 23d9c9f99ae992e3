//! Decisions of the streaming client's threads: which cursor update wins,
//! where the drawn cursor comes from, when the view is redrawn, the IDR
//! reason codes sent to the host, and how a trace-mode shutdown ends.
use vstd::prelude::*;
use crate::input::InputOwnership;
use crate::video::IDRReason;

verus! {

/// A cursor update replaces the current one when its sequence number is
/// higher, or when the sequence wrapped (the current one near the top of
/// the range, the new one near the bottom).
pub fn cursor_update_wins(prev_seq: u32, new_seq: u32) -> (r: bool)
    ensures
        r == (new_seq > prev_seq || (prev_seq > 0xFFFF0000 && new_seq < 0x0000FFFF)),
{
    new_seq > prev_seq || (prev_seq > 0xFFFF0000 && new_seq < 0x0000FFFF)
}

/// Where the drawn cursor is and which shape it has: the local mouse (arrow)
/// while input is grabbed, else the host cursor when it is on the streamed
/// display (non-negative coordinates), else the local mouse.
pub fn cursor_source(ownership: InputOwnership, remote: (i32, i32, u8), local: (i32, i32)) -> (r: (i32, i32, u8))
    ensures
        r == if ownership == InputOwnership::RemoteControlGrabbed {
            (local.0, local.1, 0u8)
        } else if remote.0 >= 0 && remote.1 >= 0 {
            remote
        } else {
            (local.0, local.1, 0u8)
        },
{
    if ownership == InputOwnership::RemoteControlGrabbed {
        (local.0, local.1, 0)
    } else if remote.0 >= 0 && remote.1 >= 0 {
        remote
    } else {
        (local.0, local.1, 0)
    }
}

/// The view is redrawn on a new video frame, or when the host or the local
/// cursor moved away from where the cursor was drawn.
pub fn needs_redraw(new_video_frame: bool, drawn: (i32, i32), remote: (i32, i32), local: (i32, i32)) -> (r: bool)
    ensures
        r == (new_video_frame || remote != drawn || local != drawn),
{
    new_video_frame || remote.0 != drawn.0 || remote.1 != drawn.1 || local.0 != drawn.0 || local.1 != drawn.1
}

/// The reason code of an IDR request sent to the host: decode errors and
/// corrupt frames are code 2, reference loss is code 3.
pub fn idr_reason_code(reason: IDRReason) -> (r: i32)
    ensures
        r == match reason {
            IDRReason::ReferenceLoss => 3i32,
            _ => 2i32,
        },
{
    match reason {
        IDRReason::DecodeError => 2,
        IDRReason::CorruptFrame => 2,
        IDRReason::ReferenceLoss => 3,
    }
}

/// A trace-mode shutdown is clean when no identity is pending and none
/// failed; its process exit code is 0 when clean and 1 otherwise.
pub fn shutdown_clean(pending_identities: u64, identity_failures: u64) -> (r: (bool, i32))
    ensures
        r.0 == (pending_identities == 0 && identity_failures == 0),
        r.1 == if r.0 { 0i32 } else { 1i32 },
{
    let clean = pending_identities == 0 && identity_failures == 0;
    (clean, if clean { 0 } else { 1 })
}

/// Counter increase since the previous sample, zero if the counter went
/// backwards.
pub fn interval_delta(now: u64, prev: u64) -> (r: u64)
    ensures
        r == if now >= prev { (now - prev) as u64 } else { 0 },
{
    if now >= prev { now - prev } else { 0 }
}

} // verus!

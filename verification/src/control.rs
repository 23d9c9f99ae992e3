//! Decisions of the v1 control channel: the length gate of a framed
//! envelope, session-id tracking, and the start-streaming check.
use vstd::prelude::*;
use vstd::string::StringExecFns;
use crate::text::push_decimal;

verus! {

/// Largest envelope the control channel accepts, in bytes.
pub const MAX_CONTROL_MESSAGE_BYTES: u32 = 1000000;

pub open spec fn invalid_length_message(len: nat) -> Seq<char> {
    "Invalid message length: "@ + crate::text::decimal(len)
}

/// The body length a little-endian `u32` prefix announces, or an error
/// when it is zero or over 1,000,000 bytes.
pub fn control_frame_len(prefix: [u8; 4]) -> (r: Result<usize, String>)
    ensures
        ({
            let len = prefix@[0] + prefix@[1] * 256 + prefix@[2] * 65536 + prefix@[3] * 16777216;
            if len == 0 || len > MAX_CONTROL_MESSAGE_BYTES {
                r matches Err(e) && e@ == invalid_length_message(len as nat)
            } else {
                r == Ok::<usize, String>(len as usize)
            }
        }),
{
    let len: u32 = prefix[0] as u32 + (prefix[1] as u32) * 256 + (prefix[2] as u32) * 65536
        + (prefix[3] as u32) * 16777216;
    if len == 0 || len > MAX_CONTROL_MESSAGE_BYTES {
        let mut e = String::from_str("Invalid message length: ");
        push_decimal(&mut e, len as u64);
        Err(e)
    } else {
        Ok(len as usize)
    }
}

/// The session id after receiving an envelope: a nonzero id replaces the
/// current one.
pub fn track_session(current: u64, received: u64) -> (r: u64)
    ensures
        r == if received != 0 { received } else { current },
{
    if received != 0 { received } else { current }
}

/// A `StartStreaming` must name the negotiated stream and configuration.
pub fn check_start_streaming(start_stream_id: u32, start_config_id: u32, stream_id: u32, config_id: u32)
    -> (r: Result<(), String>)
    ensures
        (start_stream_id == stream_id && start_config_id == config_id) <==> r is Ok,
        r matches Err(e) ==> e@ == "StartStreaming ID mismatch"@,
{
    if start_stream_id != stream_id || start_config_id != config_id {
        Err(String::from_str("StartStreaming ID mismatch"))
    } else {
        Ok(())
    }
}

} // verus!

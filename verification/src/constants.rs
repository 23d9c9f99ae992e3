//! Protocol v1 constants shared by the UDP video, cursor and input channels.
use vstd::prelude::*;

verus! {

pub const PROTOCOL_VERSION: u8 = 1;
pub const MAGIC: [u8; 4] = [0x52, 0x45, 0x53, 0x43];

pub const PACKET_TYPE_VIDEO_CHUNK: u8 = 0;
pub const PACKET_TYPE_CURSOR_UPDATE: u8 = 1;
pub const PACKET_TYPE_INPUT_EVENT: u8 = 2;

pub const PACKET_PREFIX_BYTES: usize = 6;
/// Per-packet fields (16 bytes) plus per-frame fields (20 bytes).
pub const VIDEO_CHUNK_HEADER_BYTES: usize = 36;
pub const VIDEO_TOTAL_HEADER_BYTES: usize = PACKET_PREFIX_BYTES + VIDEO_CHUNK_HEADER_BYTES;
pub const MAX_DATAGRAM_BYTES: usize = 1400;
pub const MAX_VIDEO_PAYLOAD_BYTES: usize = MAX_DATAGRAM_BYTES - VIDEO_TOTAL_HEADER_BYTES;

pub const CURSOR_UPDATE_BYTES: usize = 29;
pub const CURSOR_TOTAL_PACKET_BYTES: usize = PACKET_PREFIX_BYTES + CURSOR_UPDATE_BYTES;

pub const INPUT_EVENT_BYTES: usize = 22;
pub const INPUT_TOTAL_PACKET_BYTES: usize = PACKET_PREFIX_BYTES + INPUT_EVENT_BYTES;

/// mDNS service type the host advertises.
pub const MDNS_SERVICE_TYPE: &'static str = "_remotedisplay._tcp.local.";

/// Check that the derived sizes agree with each other and with the frozen
/// layout. Logging the values at startup is left to the caller.
pub fn log_and_verify()
    ensures
        PACKET_PREFIX_BYTES == 6,
        VIDEO_CHUNK_HEADER_BYTES == 36,
        VIDEO_TOTAL_HEADER_BYTES == PACKET_PREFIX_BYTES + VIDEO_CHUNK_HEADER_BYTES,
        MAX_VIDEO_PAYLOAD_BYTES == MAX_DATAGRAM_BYTES - VIDEO_TOTAL_HEADER_BYTES,
        CURSOR_TOTAL_PACKET_BYTES == PACKET_PREFIX_BYTES + CURSOR_UPDATE_BYTES,
        INPUT_TOTAL_PACKET_BYTES == PACKET_PREFIX_BYTES + INPUT_EVENT_BYTES,
{
    assert(PACKET_PREFIX_BYTES == 6);
    assert(VIDEO_CHUNK_HEADER_BYTES == 36);
    assert(VIDEO_TOTAL_HEADER_BYTES == 42);
    assert(MAX_VIDEO_PAYLOAD_BYTES == 1358);
    assert(CURSOR_TOTAL_PACKET_BYTES == 35);
    assert(INPUT_TOTAL_PACKET_BYTES == 28);
}

} // verus!

//! Protocol v1 binary UDP packet layouts (not protobuf): the common packet
//! prefix, cursor updates, and video chunks.
use vstd::prelude::*;
use crate::constants::{
    CURSOR_TOTAL_PACKET_BYTES, MAGIC, PACKET_PREFIX_BYTES, PROTOCOL_VERSION,
    VIDEO_TOTAL_HEADER_BYTES,
};
use crate::le::{u16le, u32le, u64le, i32le};

verus! {

/// Common 6-byte prefix of every UDP packet.
#[derive(Debug, Clone, Copy)]
pub struct PacketPrefix {
    pub magic: [u8; 4],
    pub version: u8,
    pub packet_type: u8,
}

/// `b` begins with the ASCII magic `RESC`.
pub open spec fn starts_with_resc(b: Seq<u8>) -> bool {
    b.len() >= 4 && b[0] == 0x52 && b[1] == 0x45 && b[2] == 0x53 && b[3] == 0x43
}

impl PacketPrefix {
    /// `Some` exactly when `buf` holds at least 6 bytes starting with the
    /// magic; version and type are taken as they are.
    pub fn parse(buf: &[u8]) -> (r: Option<Self>)
        ensures
            r is Some <==> (buf@.len() >= PACKET_PREFIX_BYTES && starts_with_resc(buf@)),
            r matches Some(p) ==> p.magic@ == buf@.subrange(0, 4) && p.version == buf@[4]
                && p.packet_type == buf@[5],
    {
        if buf.len() < PACKET_PREFIX_BYTES {
            return None;
        }
        if !(buf[0] == 0x52 && buf[1] == 0x45 && buf[2] == 0x53 && buf[3] == 0x43) {
            return None;
        }
        let magic = [buf[0], buf[1], buf[2], buf[3]];
        assert(magic@ =~= buf@.subrange(0, 4));
        Some(PacketPrefix { magic, version: buf[4], packet_type: buf[5] })
    }

    /// Magic is `RESC` and the version is the current protocol version.
    pub fn is_valid(&self) -> (r: bool)
        ensures
            r == (self.magic@ == MAGIC@ && self.version == PROTOCOL_VERSION),
    {
        let ok = self.magic[0] == MAGIC[0] && self.magic[1] == MAGIC[1] && self.magic[2] == MAGIC[2]
            && self.magic[3] == MAGIC[3];
        proof {
            if self.magic[0] == MAGIC[0] && self.magic[1] == MAGIC[1] && self.magic[2] == MAGIC[2]
                && self.magic[3] == MAGIC[3] {
                assert(self.magic@ =~= MAGIC@);
            }
        }
        ok && self.version == PROTOCOL_VERSION
    }
}

/// Parsed cursor update (29 bytes after the prefix). The scale factor is
/// carried as the raw IEEE-754 bit pattern of the wire's `f32`.
#[derive(Debug, Clone, Copy)]
pub struct CursorUpdate {
    pub seq: u32,
    pub timestamp_us: u64,
    pub x_px: i32,
    pub y_px: i32,
    pub shape_id: u8,
    pub hotspot_x_px: u16,
    pub hotspot_y_px: u16,
    pub cursor_scale_bits: u32,
}

impl CursorUpdate {
    /// `Some` exactly when the packet holds at least 35 bytes; fields are
    /// little-endian at fixed offsets after the 6-byte prefix.
    pub fn parse(buf: &[u8]) -> (r: Option<Self>)
        ensures
            r is Some <==> buf@.len() >= CURSOR_TOTAL_PACKET_BYTES,
            r matches Some(c) ==> {
                &&& c.seq == crate::le::le32(buf@, 6)
                &&& c.timestamp_us == crate::le::le64(buf@, 10)
                &&& c.x_px == (crate::le::le32(buf@, 18) as u32) as i32
                &&& c.y_px == (crate::le::le32(buf@, 22) as u32) as i32
                &&& c.shape_id == buf@[26]
                &&& c.hotspot_x_px == crate::le::le16(buf@, 27)
                &&& c.hotspot_y_px == crate::le::le16(buf@, 29)
                &&& c.cursor_scale_bits == crate::le::le32(buf@, 31)
            },
    {
        if buf.len() < CURSOR_TOTAL_PACKET_BYTES {
            return None;
        }
        let off = PACKET_PREFIX_BYTES;
        Some(CursorUpdate {
            seq: u32le(buf, off),
            timestamp_us: u64le(buf, off + 4),
            x_px: i32le(buf, off + 12),
            y_px: i32le(buf, off + 16),
            shape_id: buf[off + 20],
            hotspot_x_px: u16le(buf, off + 21),
            hotspot_y_px: u16le(buf, off + 23),
            cursor_scale_bits: u32le(buf, off + 25),
        })
    }
}

/// Video chunk header, per-packet fields (always valid).
#[derive(Debug, Clone, Copy)]
pub struct VideoChunkPerPacket {
    pub stream_id: u32,
    pub config_id: u32,
    pub frame_id: u32,
    pub chunk_id: u16,
    pub chunk_size: u16,
}

/// Video chunk header, per-frame fields (valid when `chunk_id == 0`).
#[derive(Debug, Clone, Copy)]
pub struct VideoChunkPerFrame {
    pub timestamp_us: u64,
    pub is_keyframe: bool,
    pub codec: u8,
    pub width: u16,
    pub height: u16,
    pub total_chunks: u16,
    pub total_bytes: u32,
}

/// Parsed video chunk packet.
#[derive(Debug)]
pub struct VideoChunkPacket {
    pub per_packet: VideoChunkPerPacket,
    /// Present only on chunk 0.
    pub per_frame: Option<VideoChunkPerFrame>,
    pub payload: Vec<u8>,
}

/// Per-packet fields read from a full packet `b` (prefix included).
pub open spec fn per_packet_of(b: Seq<u8>) -> VideoChunkPerPacket {
    VideoChunkPerPacket {
        stream_id: crate::le::le32(b, 6) as u32,
        config_id: crate::le::le32(b, 10) as u32,
        frame_id: crate::le::le32(b, 14) as u32,
        chunk_id: crate::le::le16(b, 18) as u16,
        chunk_size: crate::le::le16(b, 20) as u16,
    }
}

/// Per-frame fields read from a full packet `b` (prefix included).
pub open spec fn per_frame_of(b: Seq<u8>) -> VideoChunkPerFrame {
    VideoChunkPerFrame {
        timestamp_us: crate::le::le64(b, 22) as u64,
        is_keyframe: b[30] != 0,
        codec: b[31],
        width: crate::le::le16(b, 32) as u16,
        height: crate::le::le16(b, 34) as u16,
        total_chunks: crate::le::le16(b, 36) as u16,
        total_bytes: crate::le::le32(b, 38) as u32,
    }
}

/// The video chunk header fields sit at fixed offsets of the packet,
/// little endian: stream id `u32` at 6, configuration id `u32` at 10, frame
/// id `u32` at 14, chunk id `u16` at 18, chunk size `u16` at 20; on chunk 0
/// the capture timestamp `u64` at 22, the keyframe byte at 30 (nonzero is a
/// keyframe), the codec byte at 31, width and height `u16`s at 32 and 34,
/// the chunk count `u16` at 36 and the frame size `u32` at 38.
pub proof fn lemma_chunk_header_offsets(b: Seq<u8>)
    requires
        b.len() >= 42,
    ensures
        per_packet_of(b).stream_id == b[6] + b[7] * 0x100 + b[8] * 0x1_0000 + b[9] * 0x100_0000,
        per_packet_of(b).config_id == b[10] + b[11] * 0x100 + b[12] * 0x1_0000 + b[13] * 0x100_0000,
        per_packet_of(b).frame_id == b[14] + b[15] * 0x100 + b[16] * 0x1_0000 + b[17] * 0x100_0000,
        per_packet_of(b).chunk_id == b[18] + b[19] * 0x100,
        per_packet_of(b).chunk_size == b[20] + b[21] * 0x100,
        per_frame_of(b).timestamp_us == b[22] + b[23] * 0x100 + b[24] * 0x1_0000 + b[25] * 0x100_0000
            + b[26] * 0x1_0000_0000 + b[27] * 0x100_0000_0000 + b[28] * 0x1_0000_0000_0000
            + b[29] * 0x100_0000_0000_0000,
        per_frame_of(b).is_keyframe == (b[30] != 0),
        per_frame_of(b).codec == b[31],
        per_frame_of(b).width == b[32] + b[33] * 0x100,
        per_frame_of(b).height == b[34] + b[35] * 0x100,
        per_frame_of(b).total_chunks == b[36] + b[37] * 0x100,
        per_frame_of(b).total_bytes == b[38] + b[39] * 0x100 + b[40] * 0x1_0000 + b[41] * 0x100_0000,
{
}

impl VideoChunkPacket {
    /// Parse a full video packet (prefix included, already validated by the
    /// caller). `None` when the headers do not fit or the announced payload
    /// runs past the end of the packet; per-frame fields only on chunk 0.
    pub fn parse(buf: &[u8]) -> (r: Option<Self>)
        ensures
            r is Some <==> (buf@.len() >= VIDEO_TOTAL_HEADER_BYTES
                && VIDEO_TOTAL_HEADER_BYTES + crate::le::le16(buf@, 20) <= buf@.len()),
            r matches Some(p) ==> {
                &&& p.per_packet == per_packet_of(buf@)
                &&& p.per_frame == if crate::le::le16(buf@, 18) == 0 { Some(per_frame_of(buf@)) } else { None }
                &&& p.payload@ == buf@.subrange(42, 42 + crate::le::le16(buf@, 20))
            },
    {
        if buf.len() < VIDEO_TOTAL_HEADER_BYTES {
            return None;
        }
        let off = PACKET_PREFIX_BYTES;
        let per_packet = VideoChunkPerPacket {
            stream_id: u32le(buf, off),
            config_id: u32le(buf, off + 4),
            frame_id: u32le(buf, off + 8),
            chunk_id: u16le(buf, off + 12),
            chunk_size: u16le(buf, off + 14),
        };
        let per_frame = if per_packet.chunk_id == 0 {
            let fo = off + 16;
            Some(VideoChunkPerFrame {
                timestamp_us: u64le(buf, fo),
                is_keyframe: buf[fo + 8] != 0,
                codec: buf[fo + 9],
                width: u16le(buf, fo + 10),
                height: u16le(buf, fo + 12),
                total_chunks: u16le(buf, fo + 14),
                total_bytes: u32le(buf, fo + 16),
            })
        } else {
            None
        };
        let payload_start = VIDEO_TOTAL_HEADER_BYTES;
        let payload_end = payload_start + per_packet.chunk_size as usize;
        if payload_end > buf.len() {
            return None;
        }
        let mut payload: Vec<u8> = Vec::with_capacity(per_packet.chunk_size as usize);
        let mut i = payload_start;
        while i < payload_end
            invariant
                payload_start <= i <= payload_end,
                payload_end <= buf@.len(),
                payload@ == buf@.subrange(payload_start as int, i as int),
            decreases payload_end - i,
        {
            payload.push(buf[i]);
            i += 1;
            assert(payload@ =~= buf@.subrange(payload_start as int, i as int));
        }
        Some(VideoChunkPacket { per_packet, per_frame, payload })
    }
}

} // verus!

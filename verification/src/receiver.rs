//! The UDP video receiver's decisions: which datagrams are dropped, which
//! feed the frame assembler, when the shared counters are refreshed, and
//! what happens to a completed frame when the decode queue is full.
use vstd::prelude::*;
use crate::binary::{PacketPrefix, VideoChunkPacket};
use crate::constants::{PACKET_TYPE_VIDEO_CHUNK, PROTOCOL_VERSION, VIDEO_TOTAL_HEADER_BYTES};
use crate::counter::inc;
use crate::jitter::{AssembledFrame, FrameAssembler};

verus! {

/// A host found by service discovery.
#[derive(Debug, Clone)]
pub struct DiscoveredHost {
    pub name: String,
    pub host: String,
    pub port: u16,
}

/// A datagram is accepted as a video chunk of the current stream when it
/// holds at least the video headers, starts with the magic, carries the
/// current version and the video-chunk type, parses, and names the
/// current stream and configuration.
pub open spec fn accepted_chunk(b: Seq<u8>, stream_id: u32, config_id: u32) -> bool {
    &&& b.len() >= VIDEO_TOTAL_HEADER_BYTES
    &&& crate::binary::starts_with_resc(b)
    &&& b[4] == PROTOCOL_VERSION
    &&& b[5] == PACKET_TYPE_VIDEO_CHUNK
    &&& VIDEO_TOTAL_HEADER_BYTES + crate::le::le16(b, 20) <= b.len()
    &&& crate::binary::per_packet_of(b).stream_id == stream_id
    &&& crate::binary::per_packet_of(b).config_id == config_id
}

/// A datagram whose stream id (the little-endian `u32` at bytes 6..10) or
/// configuration id (the `u32` at 10..14) differs from the receiver's is
/// never taken as a chunk of the current stream.
pub proof fn lemma_foreign_chunk_not_accepted(b: Seq<u8>, stream_id: u32, config_id: u32)
    requires
        b.len() >= 14,
        b[6] + b[7] * 0x100 + b[8] * 0x1_0000 + b[9] * 0x100_0000 != stream_id
            || b[10] + b[11] * 0x100 + b[12] * 0x1_0000 + b[13] * 0x100_0000 != config_id,
    ensures
        !accepted_chunk(b, stream_id, config_id),
{
}

/// A datagram is taken as a chunk of stream `stream_id`, configuration
/// `config_id` exactly when it holds the 42 header bytes, starts `RESC`,
/// carries version 1 and type 0 (video chunk), its chunk size (the `u16` at
/// 20..22) fits after the headers, and its stream and configuration ids
/// (the `u32`s at 6..10 and 10..14) are the receiver's.
pub proof fn lemma_accepted_chunk_bytes(b: Seq<u8>, stream_id: u32, config_id: u32)
    ensures
        accepted_chunk(b, stream_id, config_id) <==> {
            &&& b.len() >= 42
            &&& b[0] == 0x52 && b[1] == 0x45 && b[2] == 0x53 && b[3] == 0x43
            &&& b[4] == 1 && b[5] == 0
            &&& 42 + b[20] + b[21] * 0x100 <= b.len()
            &&& b[6] + b[7] * 0x100 + b[8] * 0x1_0000 + b[9] * 0x100_0000 == stream_id
            &&& b[10] + b[11] * 0x100 + b[12] * 0x1_0000 + b[13] * 0x100_0000 == config_id
        },
{
}

/// The assembler stepped on the chunk that `b` carries, at `now_us`.
pub open spec fn assembled_from(a: FrameAssembler, a2: FrameAssembler, b: Seq<u8>, r: Option<AssembledFrame>, now_us: u64) -> bool {
    let n = crate::le::le16(b, 20);
    let pf = if crate::le::le16(b, 18) == 0 { Some(crate::binary::per_frame_of(b)) } else { None };
    let o = crate::jitter::chunk_outcome(a.slot_views(), a.max_chunks(), a.max_bytes(),
        crate::binary::per_packet_of(b), pf, b.subrange(42, 42 + n), now_us);
    &&& a2.wf()
    &&& a2.max_chunks() == a.max_chunks()
    &&& a2.max_bytes() == a.max_bytes()
    &&& a2.deadline_ms() == a.deadline_ms()
    &&& a2.slot_views() == o.slots
    &&& crate::jitter::chunk_step_post(a.counters(), a2.counters(), o)
    &&& (r is Some <==> o.frame is Some)
    &&& (r matches Some(f) ==> crate::jitter::frame_is(f, o.frame.unwrap()))
}

/// The receive side of a video stream: the assembler and packet counters.
pub struct ReceiverCore {
    pub assembler: FrameAssembler,
    pub stream_id: u32,
    pub config_id: u32,
    pub packets_received: u64,
    pub packets_dropped: u64,
}

/// What to do with a completed frame the decode queue has no room for.
#[derive(Debug, Clone, Copy, PartialEq, Eq, Structural)]
pub enum QueueFullAction {
    /// Wait for room: keyframes are never dropped.
    Block,
    /// Drop it, counting a dropped frame.
    Drop,
}

impl ReceiverCore {
    pub open spec fn wf(&self) -> bool {
        self.assembler.wf()
    }

    pub fn new(stream_id: u32, config_id: u32, max_chunks_per_frame: u16, max_frame_bytes: u32) -> (r: Self)
        ensures
            r.wf(),
            r.stream_id == stream_id,
            r.config_id == config_id,
            r.packets_received == 0,
            r.packets_dropped == 0,
            r.assembler.max_chunks() == max_chunks_per_frame,
            r.assembler.max_bytes() == max_frame_bytes,
    {
        ReceiverCore {
            assembler: FrameAssembler::new(max_chunks_per_frame, max_frame_bytes),
            stream_id,
            config_id,
            packets_received: 0,
            packets_dropped: 0,
        }
    }

    /// One received datagram: dropped (and counted) unless it is a video
    /// chunk of the current stream, which is counted and fed to the
    /// assembler; returns the frame it completes, if any.
    pub fn on_datagram(&mut self, buf: &[u8]) -> (r: Option<AssembledFrame>)
        requires
            old(self).wf(),
        ensures
            final(self).wf(),
            final(self).stream_id == old(self).stream_id,
            final(self).config_id == old(self).config_id,
            accepted_chunk(buf@, old(self).stream_id, old(self).config_id) ==> {
                &&& final(self).packets_received == crate::counter::bump(old(self).packets_received)
                &&& final(self).packets_dropped == old(self).packets_dropped
                &&& exists|now_us: u64| #[trigger] assembled_from(old(self).assembler, final(self).assembler, buf@, r, now_us)
            },
            !accepted_chunk(buf@, old(self).stream_id, old(self).config_id) ==> {
                &&& final(self).packets_dropped == crate::counter::bump(old(self).packets_dropped)
                &&& final(self).packets_received == old(self).packets_received
                &&& final(self).assembler == old(self).assembler
                &&& r is None
            },
            buf@.len() >= 14 && (buf@[6] + buf@[7] * 0x100 + buf@[8] * 0x1_0000 + buf@[9] * 0x100_0000 != old(self).stream_id
                || buf@[10] + buf@[11] * 0x100 + buf@[12] * 0x1_0000 + buf@[13] * 0x100_0000 != old(self).config_id) ==> {
                &&& final(self).packets_dropped == crate::counter::bump(old(self).packets_dropped)
                &&& final(self).packets_received == old(self).packets_received
                &&& final(self).assembler == old(self).assembler
                &&& r is None
            },
    {
        proof {
            if buf@.len() >= 14 && (buf@[6] + buf@[7] * 0x100 + buf@[8] * 0x1_0000 + buf@[9] * 0x100_0000 != self.stream_id
                || buf@[10] + buf@[11] * 0x100 + buf@[12] * 0x1_0000 + buf@[13] * 0x100_0000 != self.config_id) {
                lemma_foreign_chunk_not_accepted(buf@, self.stream_id, self.config_id);
            }
        }
        if buf.len() < VIDEO_TOTAL_HEADER_BYTES {
            self.packets_dropped = inc(self.packets_dropped);
            return None;
        }
        let prefix = match PacketPrefix::parse(buf) {
            Some(p) => p,
            None => {
                self.packets_dropped = inc(self.packets_dropped);
                return None;
            },
        };
        if prefix.version != PROTOCOL_VERSION || prefix.packet_type != PACKET_TYPE_VIDEO_CHUNK {
            self.packets_dropped = inc(self.packets_dropped);
            return None;
        }
        let chunk = match VideoChunkPacket::parse(buf) {
            Some(c) => c,
            None => {
                self.packets_dropped = inc(self.packets_dropped);
                return None;
            },
        };
        if chunk.per_packet.stream_id != self.stream_id || chunk.per_packet.config_id != self.config_id {
            self.packets_dropped = inc(self.packets_dropped);
            return None;
        }
        self.packets_received = inc(self.packets_received);
        let ghost a0 = self.assembler;
        let pf = chunk.per_frame.as_ref();
        assert(crate::jitter::opt_deref(pf) == chunk.per_frame);
        let r = self.assembler.process_chunk(&chunk.per_packet, pf, chunk.payload.as_slice());
        proof {
            let now = choose|now_us: u64| {
                let o = #[trigger] crate::jitter::chunk_outcome(a0.slot_views(), a0.max_chunks(), a0.max_bytes(),
                    chunk.per_packet, crate::jitter::opt_deref(pf), chunk.payload@, now_us);
                &&& self.assembler.slot_views() == o.slots
                &&& crate::jitter::chunk_step_post(a0.counters(), self.assembler.counters(), o)
                &&& (r is Some <==> o.frame is Some)
                &&& (r matches Some(f) ==> crate::jitter::frame_is(f, o.frame.unwrap()))
            };
            assert(assembled_from(a0, self.assembler, buf@, r, now));
        }
        r
    }

    /// The shared counters are refreshed on every hundredth received packet.
    pub fn stats_due(&self) -> (r: bool)
        ensures
            r == (self.packets_received % 100 == 0),
    {
        self.packets_received % 100 == 0
    }

    /// A completed frame found the decode queue full.
    pub fn on_queue_full(&mut self, is_keyframe: bool) -> (a: QueueFullAction)
        requires
            old(self).wf(),
        ensures
            final(self).wf(),
            final(self).stream_id == old(self).stream_id,
            final(self).config_id == old(self).config_id,
            final(self).packets_received == old(self).packets_received,
            final(self).packets_dropped == old(self).packets_dropped,
            is_keyframe ==> a == QueueFullAction::Block && final(self).assembler == old(self).assembler,
            !is_keyframe ==> a == QueueFullAction::Drop && final(self).assembler.counters() == (crate::jitter::AssemblerCounters {
                frames_dropped: crate::counter::bump(old(self).assembler.counters().frames_dropped),
                ..old(self).assembler.counters()
            }),
    {
        if is_keyframe {
            QueueFullAction::Block
        } else {
            self.assembler.note_downstream_drop();
            QueueFullAction::Drop
        }
    }

    /// Switch to another stream and configuration.
    pub fn update_stream_config(&mut self, stream_id: u32, config_id: u32)
        ensures
            *final(self) == (ReceiverCore { stream_id, config_id, ..*old(self) }),
    {
        self.stream_id = stream_id;
        self.config_id = config_id;
    }
}

} // verus!

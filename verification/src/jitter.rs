//! Frame assembly from UDP video chunks.
//!
//! Up to four frames are in flight at once. Each slot keeps a preallocated
//! buffer with room for every chunk id below the per-frame limit, chunk `c`
//! at offset `c * MAX_VIDEO_PAYLOAD_BYTES`, tracks which chunks arrived, and
//! completes once the frame's metadata is known and every chunk
//! `0..total_chunks` has arrived; chunk ids at or past a known
//! `total_chunks` are dropped. A completed frame is the concatenation of
//! chunks `0..total_chunks` in chunk-id order.
use vstd::prelude::*;
use crate::binary::{VideoChunkPerFrame, VideoChunkPerPacket};
use crate::clock::{instant_now, micros_since};
use crate::constants::MAX_VIDEO_PAYLOAD_BYTES;
use crate::counter::inc;

verus! {

/// Number of frames that may be assembled concurrently.
pub const SLOT_COUNT: usize = 4;
/// Assembly deadline used by [`FrameAssembler::new`], in milliseconds.
pub const DEFAULT_ASSEMBLY_DEADLINE_MS: u64 = 100;

/// Arrival flags are kept for chunk ids below this bound only: a chunk with
/// a higher id is stored but never counted, so a frame of more chunks never
/// completes and is expired or evicted.
pub const TRACKED_CHUNK_IDS: u16 = 256;

/// Why a frame was dropped.
#[derive(Debug, Clone, Copy, PartialEq)]
pub enum DropReason {
    /// Assembly deadline exceeded.
    Timeout,
    /// `total_bytes` or `total_chunks` over the configured limits.
    Oversize,
    /// Evicted with incomplete chunks.
    MissingChunks,
    /// Evicted by a newer frame needing the slot.
    Evicted,
}

/// An assembled frame ready for decode.
pub struct AssembledFrame {
    pub frame_id: u32,
    pub timestamp_us: u64,
    pub is_keyframe: bool,
    pub codec: u8,
    pub width: u16,
    pub height: u16,
    pub data: Vec<u8>,
}

/// Abstract state of one slot.
pub struct SlotView {
    pub active: bool,
    pub frame_id: u32,
    pub meta: Option<VideoChunkPerFrame>,
    /// One flag per tracked chunk id.
    pub received: Seq<bool>,
    /// Stored payload per chunk id (empty when nothing was stored).
    pub chunks: Seq<Seq<u8>>,
    /// Microsecond timestamp at which the slot was (re)allocated.
    pub first_chunk_us: u64,
}

/// Number of set flags.
pub open spec fn count_set(s: Seq<bool>) -> nat
    decreases s.len(),
{
    if s.len() == 0 {
        0
    } else {
        count_set(s.drop_last()) + if s.last() { 1nat } else { 0nat }
    }
}

pub proof fn lemma_count_set_update(s: Seq<bool>, i: int, v: bool)
    requires
        0 <= i < s.len(),
    ensures
        count_set(s.update(i, v)) + (if s[i] { 1int } else { 0int })
            == count_set(s) + (if v { 1int } else { 0int }),
    decreases s.len(),
{
    if i == s.len() - 1 {
        assert(s.update(i, v).drop_last() =~= s.drop_last());
    } else {
        lemma_count_set_update(s.drop_last(), i, v);
        assert(s.update(i, v).drop_last() =~= s.drop_last().update(i, v));
    }
}

pub proof fn lemma_count_set_bound(s: Seq<bool>)
    ensures
        count_set(s) <= s.len(),
    decreases s.len(),
{
    if s.len() > 0 {
        lemma_count_set_bound(s.drop_last());
    }
}

pub proof fn lemma_count_set_none(s: Seq<bool>)
    requires
        forall|i: int| 0 <= i < s.len() ==> !s[i],
    ensures
        count_set(s) == 0,
    decreases s.len(),
{
    if s.len() > 0 {
        lemma_count_set_none(s.drop_last());
    }
}

/// Bytes of chunk `c` in a slot buffer laid out at stride
/// `MAX_VIDEO_PAYLOAD_BYTES`.
pub open spec fn chunk_bytes(data: Seq<u8>, sizes: Seq<u16>, c: int) -> Seq<u8> {
    if sizes[c] == 0 {
        Seq::empty()
    } else {
        data.subrange(c * 1358, c * 1358 + sizes[c])
    }
}

/// A freshly (re)allocated slot for `frame_id` at time `now_us`.
pub open spec fn reset_view(s: SlotView, frame_id: u32, now_us: u64) -> SlotView {
    SlotView {
        active: true,
        frame_id,
        meta: None,
        received: Seq::new(s.received.len(), |c: int| false),
        chunks: Seq::new(s.chunks.len(), |c: int| Seq::<u8>::empty()),
        first_chunk_us: now_us,
    }
}

/// Metadata applied to a slot: chunk flags at or beyond `total_chunks` are
/// cleared.
pub open spec fn with_meta(s: SlotView, m: VideoChunkPerFrame) -> SlotView {
    SlotView {
        meta: Some(m),
        received: Seq::new(s.received.len(), |c: int| s.received[c] && c < m.total_chunks),
        ..s
    }
}

/// Bytes of a slot buffer that holds `max_chunks` chunks at stride
/// `MAX_VIDEO_PAYLOAD_BYTES`.
pub open spec fn slot_bytes(max_chunks: int) -> int {
    max_chunks * 1358
}

/// A chunk stored in a slot and, when its id is tracked, marked as
/// received.
pub open spec fn with_chunk(s: SlotView, c: int, payload: Seq<u8>) -> SlotView {
    SlotView {
        chunks: s.chunks.update(c, payload),
        received: if c < TRACKED_CHUNK_IDS { s.received.update(c, true) } else { s.received },
        ..s
    }
}

/// The slot knows its frame's chunk count and `c` lies past it.
pub open spec fn beyond_frame(s: SlotView, c: int) -> bool {
    s.meta matches Some(m) && c >= m.total_chunks
}

/// The slot has its metadata and at least `total_chunks` marked chunks.
pub open spec fn slot_complete(s: SlotView) -> bool {
    s.meta matches Some(m) && count_set(s.received) >= m.total_chunks
}

/// Bytes of a completed frame: chunks `0..total` concatenated in order.
pub open spec fn assembled_bytes(s: SlotView, total: int) -> Seq<u8> {
    s.chunks.take(total).flatten()
}

/// Index of the first active slot assembling `frame_id`, searching from `i`.
pub open spec fn first_match(slots: Seq<SlotView>, frame_id: u32, i: int) -> int
    decreases slots.len() - i,
{
    if i < 0 || i >= slots.len() {
        -1
    } else if slots[i].active && slots[i].frame_id == frame_id {
        i
    } else {
        first_match(slots, frame_id, i + 1)
    }
}

/// Index of the first inactive slot, searching from `i`.
pub open spec fn first_free(slots: Seq<SlotView>, i: int) -> int
    decreases slots.len() - i,
{
    if i < 0 || i >= slots.len() {
        -1
    } else if !slots[i].active {
        i
    } else {
        first_free(slots, i + 1)
    }
}

/// Index of the first slot holding the lowest frame id among slots `i..`.
pub open spec fn oldest_from(slots: Seq<SlotView>, i: int) -> int
    decreases slots.len() - i,
{
    if i < 0 || i >= slots.len() - 1 {
        i
    } else {
        let j = oldest_from(slots, i + 1);
        if slots[j].frame_id < slots[i].frame_id { j } else { i }
    }
}

/// Slot chosen for `frame_id`: its existing active slot, else the first
/// inactive slot, else the oldest (lowest frame id) slot, which is evicted.
pub open spec fn chosen_slot(slots: Seq<SlotView>, frame_id: u32) -> int {
    if first_match(slots, frame_id, 0) >= 0 {
        first_match(slots, frame_id, 0)
    } else if first_free(slots, 0) >= 0 {
        first_free(slots, 0)
    } else {
        oldest_from(slots, 0)
    }
}

/// Choosing a slot for `frame_id` evicts an in-progress frame.
pub open spec fn evicts(slots: Seq<SlotView>, frame_id: u32) -> bool {
    first_match(slots, frame_id, 0) < 0 && first_free(slots, 0) < 0
}

/// Slots after choosing one for `frame_id` at `now_us`.
pub open spec fn slots_after_choice(slots: Seq<SlotView>, frame_id: u32, now_us: u64) -> Seq<SlotView> {
    if first_match(slots, frame_id, 0) >= 0 {
        slots
    } else {
        let i = chosen_slot(slots, frame_id);
        slots.update(i, reset_view(slots[i], frame_id, now_us))
    }
}

/// Elapsed whole milliseconds between two microsecond timestamps, zero when
/// `now_us` precedes `start_us`.
pub open spec fn elapsed_ms(start_us: u64, now_us: u64) -> int {
    if now_us >= start_us { (now_us - start_us) / 1000 } else { 0 }
}

struct FrameSlot {
    active: bool,
    frame_id: u32,
    metadata: Option<VideoChunkPerFrame>,
    /// Preallocated buffer; chunk `c` is stored at `c * MAX_VIDEO_PAYLOAD_BYTES`.
    data: Vec<u8>,
    /// Actual payload size per chunk.
    chunk_sizes: Vec<u16>,
    /// Arrival flag per tracked chunk id.
    received: Vec<bool>,
    chunks_received: u16,
    first_chunk_us: u64,
}

impl FrameSlot {
    spec fn wf(&self, max_bytes: int, max_chunks: int) -> bool {
        &&& self.data@.len() == max_bytes
        &&& self.chunk_sizes@.len() == max_chunks
        &&& max_bytes == slot_bytes(max_chunks)
        &&& max_chunks <= u16::MAX
        &&& self.received@.len() == max_chunks
        &&& self.chunks_received == count_set(self.received@)
        &&& (self.metadata matches Some(m) ==> m.total_chunks <= max_chunks)
        &&& forall|c: int| 0 <= c < max_chunks && #[trigger] self.received@[c]
            ==> !(self.metadata matches Some(m) && c >= m.total_chunks)
        &&& forall|c: int| 0 <= c < max_chunks ==> #[trigger] self.chunk_sizes@[c] <= 1358
        &&& forall|c: int| 0 <= c < max_chunks && #[trigger] self.chunk_sizes@[c] > 0
            ==> c * 1358 + self.chunk_sizes@[c] <= max_bytes
    }

    spec fn view(&self) -> SlotView {
        SlotView {
            active: self.active,
            frame_id: self.frame_id,
            meta: self.metadata,
            received: self.received@,
            chunks: Seq::new(self.chunk_sizes@.len(), |c: int| chunk_bytes(self.data@, self.chunk_sizes@, c)),
            first_chunk_us: self.first_chunk_us,
        }
    }

    fn new(max_chunks: u16) -> (s: Self)
        ensures
            s.wf(slot_bytes(max_chunks as int), max_chunks as int),
            !s.active,
    {
        let max_chunks = max_chunks as usize;
        assert(MAX_VIDEO_PAYLOAD_BYTES == 1358);
        let max_frame_bytes = max_chunks * MAX_VIDEO_PAYLOAD_BYTES;
        let mut data: Vec<u8> = Vec::new();
        let mut i: usize = 0;
        while i < max_frame_bytes
            invariant
                i <= max_frame_bytes,
                data@.len() == i,
            decreases max_frame_bytes - i,
        {
            data.push(0);
            i += 1;
        }
        let mut chunk_sizes: Vec<u16> = Vec::new();
        let mut j: usize = 0;
        while j < max_chunks
            invariant
                j <= max_chunks,
                chunk_sizes@.len() == j,
                forall|c: int| 0 <= c < j ==> chunk_sizes@[c] == 0,
            decreases max_chunks - j,
        {
            chunk_sizes.push(0);
            j += 1;
        }
        let mut received: Vec<bool> = Vec::new();
        let mut k: usize = 0;
        while k < max_chunks
            invariant
                k <= max_chunks,
                received@.len() == k,
                forall|c: int| 0 <= c < k ==> !received@[c],
            decreases max_chunks - k,
        {
            received.push(false);
            k += 1;
        }
        proof {
            lemma_count_set_none(received@);
        }
        FrameSlot {
            active: false,
            frame_id: 0,
            metadata: None,
            data,
            chunk_sizes,
            received,
            chunks_received: 0,
            first_chunk_us: 0,
        }
    }

    fn reset(&mut self, frame_id: u32, now_us: u64, Ghost(max_bytes): Ghost<int>, Ghost(max_chunks): Ghost<int>)
        requires
            old(self).wf(max_bytes, max_chunks),
        ensures
            final(self).wf(max_bytes, max_chunks),
            final(self).view() == reset_view(old(self).view(), frame_id, now_us),
    {
        let nr = self.received.len();
        let mut k: usize = 0;
        while k < nr
            invariant
                k <= nr,
                nr == max_chunks,
                self.received@.len() == max_chunks,
                forall|c: int| 0 <= c < k ==> !self.received@[c],
                self.chunk_sizes@ == old(self).chunk_sizes@,
                self.data@ == old(self).data@,
                old(self).wf(max_bytes, max_chunks),
            decreases nr - k,
        {
            self.received.set(k, false);
            k += 1;
        }
        let n = self.chunk_sizes.len();
        let mut j: usize = 0;
        while j < n
            invariant
                j <= n,
                n == self.chunk_sizes@.len(),
                forall|c: int| 0 <= c < j ==> self.chunk_sizes@[c] == 0,
                self.received@.len() == max_chunks,
                forall|c: int| 0 <= c < max_chunks ==> !self.received@[c],
                self.data@ == old(self).data@,
                n == max_chunks,
                max_bytes == slot_bytes(max_chunks),
                forall|c: int| 0 <= c < n ==> #[trigger] self.chunk_sizes@[c] <= 1358,
                forall|c: int| 0 <= c < n && #[trigger] self.chunk_sizes@[c] > 0
                    ==> c * 1358 + self.chunk_sizes@[c] <= max_bytes,
            decreases n - j,
        {
            self.chunk_sizes.set(j, 0);
            j += 1;
        }
        self.active = true;
        self.frame_id = frame_id;
        self.metadata = None;
        self.chunks_received = 0;
        self.first_chunk_us = now_us;
        proof {
            lemma_count_set_none(self.received@);
            assert(self.received@ =~= Seq::new(max_chunks as nat, |c: int| false));
            assert(self.view().chunks =~= Seq::new(n as nat, |c: int| Seq::<u8>::empty()));
        }
    }

    /// Mark `chunk_id` as received; `true` when it was not marked before.
    fn mark_chunk(&mut self, chunk_id: u16, Ghost(max_bytes): Ghost<int>, Ghost(max_chunks): Ghost<int>) -> (newly: bool)
        requires
            old(self).wf(max_bytes, max_chunks),
            chunk_id < max_chunks,
            !(old(self).metadata matches Some(m) && chunk_id >= m.total_chunks),
        ensures
            final(self).wf(max_bytes, max_chunks),
            final(self).view() == (SlotView {
                received: old(self).view().received.update(chunk_id as int, true),
                ..old(self).view()
            }),
            newly == !old(self).view().received[chunk_id as int],
    {
        let c = chunk_id as usize;
        let was_set = self.received[c];
        if !was_set {
            proof {
                lemma_count_set_update(self.received@, c as int, true);
                lemma_count_set_bound(self.received@.update(c as int, true));
            }
            self.received.set(c, true);
            self.chunks_received = self.chunks_received + 1;
        } else {
            assert(self.received@.update(c as int, true) =~= self.received@);
        }
        !was_set
    }

    /// Record the frame metadata and discard marks for chunk ids at or
    /// beyond `total_chunks` that arrived before it.
    fn apply_metadata(&mut self, meta: VideoChunkPerFrame, max_chunks: u16, Ghost(max_bytes): Ghost<int>)
        requires
            old(self).wf(max_bytes, max_chunks as int),
            meta.total_chunks <= max_chunks,
        ensures
            final(self).wf(max_bytes, max_chunks as int),
            final(self).view() == with_meta(old(self).view(), meta),
    {
        let ghost orig = self.received@;
        let mut cid: u16 = 0;
        while cid < max_chunks
            invariant
                cid <= max_chunks,
                self.wf(max_bytes, max_chunks as int),
                self.metadata == old(self).metadata,
                self.active == old(self).active,
                self.frame_id == old(self).frame_id,
                self.first_chunk_us == old(self).first_chunk_us,
                self.data@ == old(self).data@,
                self.chunk_sizes@ == old(self).chunk_sizes@,
                orig == old(self).received@,
                self.received@.len() == max_chunks,
                forall|c: int| 0 <= c < max_chunks ==> #[trigger] self.received@[c]
                    == (orig[c] && (c >= cid || c < meta.total_chunks)),
            decreases max_chunks - cid,
        {
            let c = cid as usize;
            if self.received[c] && cid >= meta.total_chunks {
                proof {
                    lemma_count_set_update(self.received@, c as int, false);
                }
                self.received.set(c, false);
                self.chunks_received = self.chunks_received - 1;
            }
            cid += 1;
        }
        self.metadata = Some(meta);
        assert(self.received@ =~= Seq::new(max_chunks as nat, |c: int| orig[c] && c < meta.total_chunks));
        assert(self.view().chunks =~= old(self).view().chunks);
    }

    /// Store `payload` as chunk `cid` at its stride offset, and mark it.
    fn store_chunk(&mut self, cid: u16, payload: &[u8], Ghost(max_bytes): Ghost<int>, Ghost(max_chunks): Ghost<int>)
        requires
            old(self).wf(max_bytes, max_chunks),
            cid < max_chunks,
            payload@.len() <= 1358,
            !(old(self).metadata matches Some(m) && cid >= m.total_chunks),
        ensures
            final(self).wf(max_bytes, max_chunks),
            final(self).view() == with_chunk(old(self).view(), cid as int, payload@),
    {
        let c = cid as usize;
        assert(MAX_VIDEO_PAYLOAD_BYTES == 1358);
        let offset = c * MAX_VIDEO_PAYLOAD_BYTES;
        assert(offset <= 65535 * 1358);
        assert(payload.len() <= 1358);
        assert(offset + payload.len() <= self.data.len()) by {
            assert(c + 1 <= max_chunks);
            assert(c * 1358 + 1358 <= max_chunks * 1358) by (nonlinear_arith)
                requires c + 1 <= max_chunks;
        }
        {
            let ghost old_data = self.data@;
            let ghost old_sizes = self.chunk_sizes@;
            let ghost old_view = self.view();
            let mut k: usize = 0;
            while k < payload.len()
                invariant
                    offset + payload@.len() <= self.data.len(),
                    self.data@.len() == old_data.len(),
                    self.chunk_sizes@ == old_sizes,
                    self.received@ == old(self).received@,
                    self.chunks_received == old(self).chunks_received,
                    self.active == old(self).active,
                    self.frame_id == old(self).frame_id,
                    self.metadata == old(self).metadata,
                    self.first_chunk_us == old(self).first_chunk_us,
                    old(self).wf(max_bytes, max_chunks),
                    old_sizes == old(self).chunk_sizes@,
                    old_data == old(self).data@,
                    c < max_chunks,
                    k <= payload@.len(),
                    forall|j: int| 0 <= j < self.data@.len() ==> #[trigger] self.data@[j]
                        == if offset <= j < offset + k { payload@[j - offset] } else { old_data[j] },
                decreases payload@.len() - k,
            {
                self.data.set(offset + k, payload[k]);
                k += 1;
            }
            self.chunk_sizes.set(c, payload.len() as u16);
            proof {
                let new_view = self.view();
                assert forall|d: int| 0 <= d < max_chunks && d != c implies
                    chunk_bytes(self.data@, self.chunk_sizes@, d) == chunk_bytes(old_data, old_sizes, d) by {
                    if old_sizes[d] > 0 {
                        assert(self.data@.subrange(d * 1358, d * 1358 + old_sizes[d])
                            =~= old_data.subrange(d * 1358, d * 1358 + old_sizes[d]));
                    }
                }
                assert(chunk_bytes(self.data@, self.chunk_sizes@, c as int) =~= payload@);
                assert(new_view.chunks =~= old_view.chunks.update(c as int, payload@));
            }
            if cid < TRACKED_CHUNK_IDS {
                self.mark_chunk(cid, Ghost(max_bytes), Ghost(max_chunks));
            }
        }
    }

    /// Free the slot; its contents stay as they are.
    fn deactivate(&mut self, Ghost(max_bytes): Ghost<int>, Ghost(max_chunks): Ghost<int>)
        requires
            old(self).wf(max_bytes, max_chunks),
        ensures
            final(self).wf(max_bytes, max_chunks),
            final(self).view() == (SlotView { active: false, ..old(self).view() }),
    {
        self.active = false;
    }

    /// The metadata is known and at least `total_chunks` chunks are marked.
    fn is_complete(&self) -> (r: bool)
        requires
            self.chunks_received == count_set(self.received@),
        ensures
            r == slot_complete(self.view()),
    {
        match self.metadata {
            Some(meta) => self.chunks_received >= meta.total_chunks,
            None => false,
        }
    }

    /// Chunks `0..total` concatenated in chunk-id order.
    fn assemble(&self, total: u16, Ghost(max_bytes): Ghost<int>, Ghost(max_chunks): Ghost<int>) -> (out: Vec<u8>)
        requires
            self.wf(max_bytes, max_chunks),
            total <= max_chunks,
        ensures
            out@ == assembled_bytes(self.view(), total as int),
    {
        let mut buf: Vec<u8> = Vec::new();
        let mut i: u16 = 0;
        let ghost chunks = self.view().chunks;
        while i < total
            invariant
                i <= total,
                total <= max_chunks,
                self.wf(max_bytes, max_chunks),
                chunks == self.view().chunks,
                buf@ == chunks.take(i as int).flatten(),
            decreases total - i,
        {
            let c = i as usize;
            assert(MAX_VIDEO_PAYLOAD_BYTES == 1358);
            let chunk_offset = c * MAX_VIDEO_PAYLOAD_BYTES;
            let chunk_len = self.chunk_sizes[c] as usize;
            let ghost before = buf@;
            if chunk_len > 0 {
                let mut k: usize = 0;
                while k < chunk_len
                    invariant
                        k <= chunk_len,
                        chunk_offset + chunk_len <= self.data.len(),
                        buf@ == before + self.data@.subrange(chunk_offset as int, chunk_offset + k),
                    decreases chunk_len - k,
                {
                    buf.push(self.data[chunk_offset + k]);
                    k += 1;
                    assert(buf@ =~= before + self.data@.subrange(chunk_offset as int, chunk_offset + k));
                }
            }
            proof {
                assert(chunks[c as int] == chunk_bytes(self.data@, self.chunk_sizes@, c as int));
                assert(buf@ =~= before + chunks[c as int]);
                assert(chunks.take(i as int + 1) =~= chunks.take(i as int).push(chunks[c as int]));
                chunks.take(i as int).lemma_flatten_push(chunks[c as int]);
            }
            i += 1;
        }
        buf
    }
}


// ---------------------------------------------------------------------------
// Slot choice lemmas
// ---------------------------------------------------------------------------

proof fn lemma_first_match_at(slots: Seq<SlotView>, frame_id: u32, k: int, i: int)
    requires
        0 <= k <= i < slots.len(),
        forall|j: int| k <= j < i ==> !(slots[j].active && slots[j].frame_id == frame_id),
        slots[i].active && slots[i].frame_id == frame_id,
    ensures
        first_match(slots, frame_id, k) == i,
    decreases i - k,
{
    if k < i {
        lemma_first_match_at(slots, frame_id, k + 1, i);
    }
}

proof fn lemma_first_match_none(slots: Seq<SlotView>, frame_id: u32, k: int)
    requires
        0 <= k <= slots.len(),
        forall|j: int| k <= j < slots.len() ==> !(slots[j].active && slots[j].frame_id == frame_id),
    ensures
        first_match(slots, frame_id, k) == -1,
    decreases slots.len() - k,
{
    if k < slots.len() {
        lemma_first_match_none(slots, frame_id, k + 1);
    }
}

proof fn lemma_first_free_at(slots: Seq<SlotView>, k: int, i: int)
    requires
        0 <= k <= i < slots.len(),
        forall|j: int| k <= j < i ==> slots[j].active,
        !slots[i].active,
    ensures
        first_free(slots, k) == i,
    decreases i - k,
{
    if k < i {
        lemma_first_free_at(slots, k + 1, i);
    }
}

proof fn lemma_first_free_none(slots: Seq<SlotView>, k: int)
    requires
        0 <= k <= slots.len(),
        forall|j: int| k <= j < slots.len() ==> slots[j].active,
    ensures
        first_free(slots, k) == -1,
    decreases slots.len() - k,
{
    if k < slots.len() {
        lemma_first_free_none(slots, k + 1);
    }
}

/// `oldest_from(slots, k)` is the first index in `k..` holding the lowest
/// frame id.
proof fn lemma_oldest_char(slots: Seq<SlotView>, k: int)
    requires
        0 <= k < slots.len(),
    ensures
        k <= oldest_from(slots, k) < slots.len(),
        forall|j: int| k <= j < slots.len() ==> slots[oldest_from(slots, k)].frame_id <= #[trigger] slots[j].frame_id,
        forall|j: int| k <= j < oldest_from(slots, k) ==> slots[oldest_from(slots, k)].frame_id < #[trigger] slots[j].frame_id,
    decreases slots.len() - k,
{
    if k < slots.len() - 1 {
        lemma_oldest_char(slots, k + 1);
    }
}

/// A chunk delivered twice leaves the slot as one delivery did: the second
/// copy neither adds a mark nor changes the stored bytes.
pub proof fn lemma_duplicate_chunk_ignored(s: SlotView, c: int, payload: Seq<u8>)
    requires
        0 <= c < s.chunks.len(),
        c < s.received.len(),
    ensures
        with_chunk(with_chunk(s, c, payload), c, payload) == with_chunk(s, c, payload),
        count_set(with_chunk(with_chunk(s, c, payload), c, payload).received)
            == count_set(with_chunk(s, c, payload).received),
{
    let once = with_chunk(s, c, payload);
    assert(once.chunks.update(c, payload) =~= once.chunks);
    if c < TRACKED_CHUNK_IDS {
        assert(once.received.update(c, true) =~= once.received);
    }
}

/// When every slot is busy with other frames, the slot taken over is one
/// holding the lowest frame id, and the first such slot.
pub proof fn lemma_eviction_takes_oldest(slots: Seq<SlotView>, frame_id: u32)
    requires
        slots.len() == SLOT_COUNT,
        evicts(slots, frame_id),
    ensures
        0 <= chosen_slot(slots, frame_id) < SLOT_COUNT,
        forall|j: int| 0 <= j < SLOT_COUNT ==>
            slots[chosen_slot(slots, frame_id)].frame_id <= #[trigger] slots[j].frame_id,
        forall|j: int| 0 <= j < chosen_slot(slots, frame_id) ==>
            slots[chosen_slot(slots, frame_id)].frame_id < #[trigger] slots[j].frame_id,
{
    lemma_oldest_char(slots, 0);
}

/// A chunk for a frame that already has a slot goes to that slot and
/// evicts nothing; a chunk for a new frame takes a free slot when there is
/// one.
pub proof fn lemma_slot_choice_prefers_existing_then_free(slots: Seq<SlotView>, frame_id: u32)
    requires
        slots.len() == SLOT_COUNT,
    ensures
        (exists|j: int| 0 <= j < SLOT_COUNT && slots[j].active && slots[j].frame_id == frame_id) ==> {
            let i = chosen_slot(slots, frame_id);
            &&& !evicts(slots, frame_id)
            &&& slots[i].active && slots[i].frame_id == frame_id
            &&& slots_after_choice(slots, frame_id, 0) == slots
        },
        (forall|j: int| 0 <= j < SLOT_COUNT ==> !(slots[j].active && slots[j].frame_id == frame_id))
            && (exists|j: int| 0 <= j < SLOT_COUNT && !slots[j].active) ==> {
            let i = chosen_slot(slots, frame_id);
            &&& !evicts(slots, frame_id)
            &&& 0 <= i < SLOT_COUNT && !slots[i].active
        },
{
    if exists|j: int| 0 <= j < SLOT_COUNT && slots[j].active && slots[j].frame_id == frame_id {
        let j = choose|j: int| 0 <= j < SLOT_COUNT && slots[j].active && slots[j].frame_id == frame_id;
        lemma_first_match_some(slots, frame_id, 0, j);
    } else {
        lemma_first_match_none(slots, frame_id, 0);
        if exists|j: int| 0 <= j < SLOT_COUNT && !slots[j].active {
            let j = choose|j: int| 0 <= j < SLOT_COUNT && !slots[j].active;
            lemma_first_free_some(slots, 0, j);
        }
    }
}

proof fn lemma_first_match_some(slots: Seq<SlotView>, frame_id: u32, k: int, j: int)
    requires
        0 <= k <= j < slots.len(),
        slots[j].active && slots[j].frame_id == frame_id,
    ensures
        k <= first_match(slots, frame_id, k) <= j,
        slots[first_match(slots, frame_id, k)].active,
        slots[first_match(slots, frame_id, k)].frame_id == frame_id,
    decreases j - k,
{
    if !(slots[k].active && slots[k].frame_id == frame_id) {
        lemma_first_match_some(slots, frame_id, k + 1, j);
    }
}

proof fn lemma_first_free_some(slots: Seq<SlotView>, k: int, j: int)
    requires
        0 <= k <= j < slots.len(),
        !slots[j].active,
    ensures
        k <= first_free(slots, k) <= j,
        !slots[first_free(slots, k)].active,
    decreases j - k,
{
    if slots[k].active {
        lemma_first_free_some(slots, k + 1, j);
    }
}

/// What processing one chunk does, given the slots before the call.
pub struct ChunkOutcome {
    pub slots: Seq<SlotView>,
    /// Frame id, metadata and bytes of a frame completed by this chunk.
    pub frame: Option<(u32, VideoChunkPerFrame, Seq<u8>)>,
    pub chunk_dropped: bool,
    pub evicted: bool,
    pub oversize: bool,
}

/// One chunk step. A payload over the stride or a chunk id at or beyond the
/// per-frame limit is dropped outright. Otherwise the chunk's slot is
/// chosen (possibly evicting the oldest frame); metadata over the limits
/// deactivates the slot as oversize; else the metadata (if any) is applied,
/// a chunk id at or past the frame's known chunk count is ignored (no
/// counter moves), and otherwise the chunk is stored, and a complete slot yields its frame and
/// is freed.
pub open spec fn chunk_outcome(
    slots: Seq<SlotView>,
    max_chunks: u16,
    max_bytes: u32,
    pp: VideoChunkPerPacket,
    pf: Option<VideoChunkPerFrame>,
    payload: Seq<u8>,
    now_us: u64,
) -> ChunkOutcome {
    if payload.len() > 1358 || pp.chunk_id >= max_chunks {
        ChunkOutcome { slots, frame: None, chunk_dropped: true, evicted: false, oversize: false }
    } else {
        let i = chosen_slot(slots, pp.frame_id);
        let ev = evicts(slots, pp.frame_id);
        let s1 = slots_after_choice(slots, pp.frame_id, now_us);
        if pf matches Some(m) && (m.total_chunks > max_chunks || m.total_bytes > max_bytes) {
            ChunkOutcome {
                slots: s1.update(i, SlotView { active: false, ..s1[i] }),
                frame: None,
                chunk_dropped: false,
                evicted: ev,
                oversize: true,
            }
        } else {
            let s2 = match pf {
                Some(m) => with_meta(s1[i], m),
                None => s1[i],
            };
            let s3 = with_chunk(s2, pp.chunk_id as int, payload);
            if beyond_frame(s2, pp.chunk_id as int) {
                ChunkOutcome { slots: s1.update(i, s2), frame: None, chunk_dropped: false, evicted: ev, oversize: false }
            } else if slot_complete(s3) {
                let m = s3.meta.unwrap();
                ChunkOutcome {
                    slots: s1.update(i, SlotView { active: false, ..s3 }),
                    frame: Some((pp.frame_id, m, assembled_bytes(s3, m.total_chunks as int))),
                    chunk_dropped: false,
                    evicted: ev,
                    oversize: false,
                }
            } else {
                ChunkOutcome { slots: s1.update(i, s3), frame: None, chunk_dropped: false, evicted: ev, oversize: false }
            }
        }
    }
}

pub open spec fn bump_if(b: bool, x: u64) -> u64 {
    if b { crate::counter::bump(x) } else { x }
}


proof fn lemma_one_slot_changed(old_slots: Seq<FrameSlot>, new_slots: Seq<FrameSlot>, i: int, mb: int, mc: int)
    requires
        old_slots.len() == SLOT_COUNT,
        0 <= i < SLOT_COUNT,
        new_slots == old_slots.update(i, new_slots[i]),
        forall|j: int| 0 <= j < SLOT_COUNT ==> #[trigger] old_slots[j].wf(mb, mc),
        new_slots[i].wf(mb, mc),
    ensures
        forall|j: int| 0 <= j < SLOT_COUNT ==> #[trigger] new_slots[j].wf(mb, mc),
        Seq::new(new_slots.len(), |j: int| new_slots[j].view())
            == Seq::new(old_slots.len(), |j: int| old_slots[j].view()).update(i, new_slots[i].view()),
{
    assert forall|j: int| 0 <= j < SLOT_COUNT implies #[trigger] new_slots[j].wf(mb, mc) by {
        if j != i {
            assert(new_slots[j] == old_slots[j]);
        }
    }
    assert(Seq::new(new_slots.len(), |j: int| new_slots[j].view())
        =~= Seq::new(old_slots.len(), |j: int| old_slots[j].view()).update(i, new_slots[i].view()));
}

/// `Option<&T>` seen as `Option<T>`.
pub open spec fn opt_deref(o: Option<&VideoChunkPerFrame>) -> Option<VideoChunkPerFrame> {
    match o {
        Some(m) => Some(*m),
        None => None,
    }
}

/// `f` carries frame id, metadata fields and bytes `t`.
pub open spec fn frame_is(f: AssembledFrame, t: (u32, VideoChunkPerFrame, Seq<u8>)) -> bool {
    &&& f.frame_id == t.0
    &&& f.timestamp_us == t.1.timestamp_us
    &&& f.is_keyframe == t.1.is_keyframe
    &&& f.codec == t.1.codec
    &&& f.width == t.1.width
    &&& f.height == t.1.height
    &&& f.data@ == t.2
}

/// The assembler after one chunk step: slots and counters as
/// [`chunk_outcome`] gives them, configuration unchanged.
pub open spec fn chunk_step_post(
    before: AssemblerCounters,
    after: AssemblerCounters,
    o: ChunkOutcome,
) -> bool {
    &&& after.chunks_dropped == bump_if(o.chunk_dropped, before.chunks_dropped)
    &&& after.eviction_drops == bump_if(o.evicted, before.eviction_drops)
    &&& after.oversize_drops == bump_if(o.oversize, before.oversize_drops)
    &&& after.frames_dropped == bump_if(o.oversize, bump_if(o.evicted, before.frames_dropped))
    &&& after.frames_completed == bump_if(o.frame is Some, before.frames_completed)
    &&& after.timeout_drops == before.timeout_drops
}

/// The slot is assembling a frame older than `deadline_ms` at `now_us`.
pub open spec fn stale(s: SlotView, deadline_ms: u64, now_us: u64) -> bool {
    s.active && elapsed_ms(s.first_chunk_us, now_us) > deadline_ms
}

/// Slots after expiry: every stale slot is freed, the others are unchanged.
pub open spec fn slots_after_expiry(slots: Seq<SlotView>, deadline_ms: u64, now_us: u64) -> Seq<SlotView> {
    Seq::new(slots.len(), |i: int|
        if stale(slots[i], deadline_ms, now_us) { SlotView { active: false, ..slots[i] } } else { slots[i] })
}

/// Number of stale slots among the first `k`.
pub open spec fn stale_count(slots: Seq<SlotView>, deadline_ms: u64, now_us: u64, k: int) -> nat
    decreases k,
{
    if k <= 0 {
        0
    } else {
        stale_count(slots, deadline_ms, now_us, k - 1) + if stale(slots[k - 1], deadline_ms, now_us) { 1nat } else { 0nat }
    }
}

/// No two frames in flight share a frame id.
pub open spec fn distinct_in_flight(slots: Seq<SlotView>) -> bool {
    forall|a: int, b: int| 0 <= a < slots.len() && 0 <= b < slots.len() && a != b
        && (#[trigger] slots[a]).active && (#[trigger] slots[b]).active ==> slots[a].frame_id != slots[b].frame_id
}

/// Replacing slot `i` by `x` keeps the frames in flight distinct when `x`
/// is free, or carries a frame id no other frame in flight has.
proof fn lemma_distinct_update(s: Seq<SlotView>, i: int, x: SlotView)
    requires
        distinct_in_flight(s),
        0 <= i < s.len(),
        x.active ==> forall|j: int| 0 <= j < s.len() && j != i && (#[trigger] s[j]).active ==> s[j].frame_id != x.frame_id,
    ensures
        distinct_in_flight(s.update(i, x)),
{
    let t = s.update(i, x);
    assert forall|a: int, b: int| 0 <= a < t.len() && 0 <= b < t.len() && a != b
        && (#[trigger] t[a]).active && (#[trigger] t[b]).active implies t[a].frame_id != t[b].frame_id by {
        if a == i {
            assert(s[b].active);
        } else if b == i {
            assert(s[a].active);
        } else {
            assert(s[a].active && s[b].active);
        }
    }
}

proof fn lemma_first_match_hit(slots: Seq<SlotView>, frame_id: u32, k: int)
    requires
        0 <= k,
        first_match(slots, frame_id, k) >= 0,
    ensures
        k <= first_match(slots, frame_id, k) < slots.len(),
        slots[first_match(slots, frame_id, k)].active,
        slots[first_match(slots, frame_id, k)].frame_id == frame_id,
    decreases slots.len() - k,
{
    if k < slots.len() && !(slots[k].active && slots[k].frame_id == frame_id) {
        lemma_first_match_hit(slots, frame_id, k + 1);
    }
}

/// Choosing a slot for `frame_id` keeps the frames in flight distinct, and
/// afterwards the chosen slot is the one frame in flight with that id.
proof fn lemma_choice_keeps_distinct(slots: Seq<SlotView>, frame_id: u32, now_us: u64)
    requires
        slots.len() == SLOT_COUNT,
        distinct_in_flight(slots),
    ensures
        ({
            let i = chosen_slot(slots, frame_id);
            let s1 = slots_after_choice(slots, frame_id, now_us);
            &&& 0 <= i < SLOT_COUNT
            &&& s1.len() == SLOT_COUNT
            &&& distinct_in_flight(s1)
            &&& s1[i].active && s1[i].frame_id == frame_id
            &&& forall|j: int| 0 <= j < SLOT_COUNT && j != i && (#[trigger] s1[j]).active ==> s1[j].frame_id != frame_id
        }),
{
    lemma_chosen_in_range(slots, frame_id);
    let i = chosen_slot(slots, frame_id);
    let s1 = slots_after_choice(slots, frame_id, now_us);
    if first_match(slots, frame_id, 0) >= 0 {
        lemma_first_match_hit(slots, frame_id, 0);
        assert forall|j: int| 0 <= j < SLOT_COUNT && j != i && (#[trigger] s1[j]).active implies s1[j].frame_id != frame_id by {
            assert(s1[i].active);
        }
    } else {
        assert forall|j: int| 0 <= j < SLOT_COUNT && j != i && (#[trigger] slots[j]).active implies slots[j].frame_id != frame_id by {
            if slots[j].frame_id == frame_id {
                lemma_first_match_some(slots, frame_id, 0, j);
            }
        }
        lemma_distinct_update(slots, i, reset_view(slots[i], frame_id, now_us));
        assert forall|j: int| 0 <= j < SLOT_COUNT && j != i && (#[trigger] s1[j]).active implies s1[j].frame_id != frame_id by {
            assert(s1[j] == slots[j]);
        }
    }
}

/// Processing a chunk keeps the frames in flight distinct by frame id; a
/// frame dropped as oversize, or completed, is no longer in flight
/// afterwards, so a later chunk of it starts a fresh frame.
pub proof fn lemma_done_frame_leaves_flight(
    slots: Seq<SlotView>,
    max_chunks: u16,
    max_bytes: u32,
    pp: VideoChunkPerPacket,
    pf: Option<VideoChunkPerFrame>,
    payload: Seq<u8>,
    now_us: u64,
)
    requires
        slots.len() == SLOT_COUNT,
        distinct_in_flight(slots),
    ensures
        ({
            let o = chunk_outcome(slots, max_chunks, max_bytes, pp, pf, payload, now_us);
            &&& o.slots.len() == SLOT_COUNT
            &&& distinct_in_flight(o.slots)
            &&& (o.oversize || o.frame is Some) ==> forall|j: int| 0 <= j < SLOT_COUNT ==>
                !((#[trigger] o.slots[j]).active && o.slots[j].frame_id == pp.frame_id)
        }),
{
    let o = chunk_outcome(slots, max_chunks, max_bytes, pp, pf, payload, now_us);
    if !(payload.len() > 1358 || pp.chunk_id >= max_chunks) {
        lemma_choice_keeps_distinct(slots, pp.frame_id, now_us);
        let i = chosen_slot(slots, pp.frame_id);
        let s1 = slots_after_choice(slots, pp.frame_id, now_us);
        assert(o.slots == s1.update(i, o.slots[i]));
        assert(o.slots[i].frame_id == pp.frame_id);
        lemma_distinct_update(s1, i, o.slots[i]);
        if o.oversize || o.frame is Some {
            assert forall|j: int| 0 <= j < SLOT_COUNT implies
                !((#[trigger] o.slots[j]).active && o.slots[j].frame_id == pp.frame_id) by {
                if j != i {
                    assert(o.slots[j] == s1[j]);
                }
            }
        }
    }
}

/// Expiry keeps the frames in flight distinct by frame id.
pub proof fn lemma_expiry_keeps_distinct(slots: Seq<SlotView>, deadline_ms: u64, now_us: u64)
    requires
        distinct_in_flight(slots),
    ensures
        distinct_in_flight(slots_after_expiry(slots, deadline_ms, now_us)),
{
    let t = slots_after_expiry(slots, deadline_ms, now_us);
    assert forall|a: int, b: int| 0 <= a < t.len() && 0 <= b < t.len() && a != b
        && (#[trigger] t[a]).active && (#[trigger] t[b]).active implies t[a].frame_id != t[b].frame_id by {
        assert(slots[a].active && slots[b].active);
    }
}

/// The assembler's telemetry counters.
#[derive(Debug, Clone, Copy, PartialEq, Eq)]
pub struct AssemblerCounters {
    pub frames_completed: u64,
    pub frames_dropped: u64,
    pub chunks_dropped: u64,
    pub timeout_drops: u64,
    pub oversize_drops: u64,
    pub eviction_drops: u64,
}

/// Assembles video frames from UDP chunks; at most four frames in flight.
pub struct FrameAssembler {
    slots: Vec<FrameSlot>,
    max_chunks_per_frame: u16,
    max_frame_bytes: u32,
    /// Frames older than this many milliseconds are expired.
    assembly_deadline_ms: u64,
    epoch: std::time::Instant,
    pub frames_completed: u64,
    pub frames_dropped: u64,
    pub chunks_dropped: u64,
    pub timeout_drops: u64,
    pub oversize_drops: u64,
    pub eviction_drops: u64,
}

impl FrameAssembler {
    pub closed spec fn wf(&self) -> bool {
        &&& self.slots@.len() == SLOT_COUNT
        &&& forall|i: int| 0 <= i < SLOT_COUNT ==>
            #[trigger] self.slots@[i].wf(slot_bytes(self.max_chunks_per_frame as int), self.max_chunks_per_frame as int)
        &&& distinct_in_flight(self.slot_views())
    }

    /// Abstract state of every slot.
    pub closed spec fn slot_views(&self) -> Seq<SlotView> {
        Seq::new(self.slots@.len(), |i: int| self.slots@[i].view())
    }

    /// The six public counter fields, as they stand.
    pub closed spec fn counters(&self) -> AssemblerCounters {
        AssemblerCounters {
            frames_completed: self.frames_completed,
            frames_dropped: self.frames_dropped,
            chunks_dropped: self.chunks_dropped,
            timeout_drops: self.timeout_drops,
            oversize_drops: self.oversize_drops,
            eviction_drops: self.eviction_drops,
        }
    }

    pub closed spec fn max_chunks(&self) -> u16 {
        self.max_chunks_per_frame
    }

    pub closed spec fn max_bytes(&self) -> u32 {
        self.max_frame_bytes
    }

    pub closed spec fn deadline_ms(&self) -> u64 {
        self.assembly_deadline_ms
    }

    /// An assembler with four empty slots, each preallocating room for
    /// `max_chunks_per_frame` chunks at stride `MAX_VIDEO_PAYLOAD_BYTES`, and
    /// the default 100 ms assembly deadline.
    pub fn new(max_chunks_per_frame: u16, max_frame_bytes: u32) -> (a: Self)
        ensures
            a.wf(),
            a.max_chunks() == max_chunks_per_frame,
            a.max_bytes() == max_frame_bytes,
            a.deadline_ms() == DEFAULT_ASSEMBLY_DEADLINE_MS,
            a.slot_views().len() == SLOT_COUNT,
            forall|i: int| 0 <= i < SLOT_COUNT ==> !(#[trigger] a.slot_views()[i]).active,
            a.counters() == (AssemblerCounters {
                frames_completed: 0,
                frames_dropped: 0,
                chunks_dropped: 0,
                timeout_drops: 0,
                oversize_drops: 0,
                eviction_drops: 0,
            }),
    {
        let mut slots: Vec<FrameSlot> = Vec::new();
        let mut k: usize = 0;
        while k < SLOT_COUNT
            invariant
                k <= SLOT_COUNT,
                slots@.len() == k,
                forall|i: int| 0 <= i < k ==> (#[trigger] slots@[i]).wf(slot_bytes(max_chunks_per_frame as int), max_chunks_per_frame as int)
                    && !slots@[i].active,
            decreases SLOT_COUNT - k,
        {
            slots.push(FrameSlot::new(max_chunks_per_frame));
            k += 1;
        }
        FrameAssembler {
            slots,
            max_chunks_per_frame,
            max_frame_bytes,
            assembly_deadline_ms: DEFAULT_ASSEMBLY_DEADLINE_MS,
            epoch: instant_now(),
            frames_completed: 0,
            frames_dropped: 0,
            chunks_dropped: 0,
            timeout_drops: 0,
            oversize_drops: 0,
            eviction_drops: 0,
        }
    }

    /// Reset slot `i` for `frame_id` at `now_us`.
    fn reset_slot(&mut self, i: usize, frame_id: u32, now_us: u64)
        requires
            old(self).wf(),
            i < SLOT_COUNT,
            forall|j: int| 0 <= j < SLOT_COUNT && j != i && (#[trigger] old(self).slot_views()[j]).active
                ==> old(self).slot_views()[j].frame_id != frame_id,
        ensures
            final(self).wf(),
            final(self).slot_views() == old(self).slot_views().update(i as int, reset_view(old(self).slot_views()[i as int], frame_id, now_us)),
            final(self).counters() == old(self).counters(),
            final(self).max_chunks() == old(self).max_chunks(),
            final(self).max_bytes() == old(self).max_bytes(),
            final(self).deadline_ms() == old(self).deadline_ms(),
    {
        let ghost mb = slot_bytes(self.max_chunks_per_frame as int);
        let ghost mc = self.max_chunks_per_frame as int;
        self.slots[i].reset(frame_id, now_us, Ghost(mb), Ghost(mc));
        proof {
            assert forall|j: int| 0 <= j < SLOT_COUNT implies #[trigger] self.slots@[j].wf(mb, mc) by {
                if j != i {
                    assert(self.slots@[j] == old(self).slots@[j]);
                }
            }
            assert(self.slot_views() =~= old(self).slot_views().update(i as int, reset_view(old(self).slot_views()[i as int], frame_id, now_us)));
            lemma_distinct_update(old(self).slot_views(), i as int, reset_view(old(self).slot_views()[i as int], frame_id, now_us));
        }
    }

    /// Choose the slot for `frame_id`: its active slot, else the first
    /// inactive one (reset), else the lowest frame id (evicted and reset).
    fn find_or_allocate_slot(&mut self, frame_id: u32, now_us: u64) -> (i: usize)
        requires
            old(self).wf(),
        ensures
            final(self).wf(),
            i < SLOT_COUNT,
            i == chosen_slot(old(self).slot_views(), frame_id),
            final(self).slot_views() == slots_after_choice(old(self).slot_views(), frame_id, now_us),
            final(self).counters() == (AssemblerCounters {
                frames_dropped: bump_if(evicts(old(self).slot_views(), frame_id), old(self).counters().frames_dropped),
                eviction_drops: bump_if(evicts(old(self).slot_views(), frame_id), old(self).counters().eviction_drops),
                ..old(self).counters()
            }),
            final(self).max_chunks() == old(self).max_chunks(),
            final(self).max_bytes() == old(self).max_bytes(),
            final(self).deadline_ms() == old(self).deadline_ms(),
    {
        let ghost v = self.slot_views();
        let mut i: usize = 0;
        while i < SLOT_COUNT
            invariant
                i <= SLOT_COUNT,
                self.wf(),
                *self == *old(self),
                v == self.slot_views(),
                forall|j: int| 0 <= j < i ==> !(v[j].active && v[j].frame_id == frame_id),
            decreases SLOT_COUNT - i,
        {
            if self.slots[i].active && self.slots[i].frame_id == frame_id {
                proof {
                    lemma_first_match_at(v, frame_id, 0, i as int);
                }
                return i;
            }
            i += 1;
        }
        proof {
            lemma_first_match_none(v, frame_id, 0);
        }
        let mut i: usize = 0;
        while i < SLOT_COUNT
            invariant
                i <= SLOT_COUNT,
                self.wf(),
                *self == *old(self),
                v == self.slot_views(),
                first_match(v, frame_id, 0) == -1,
                forall|j: int| 0 <= j < SLOT_COUNT ==> !(v[j].active && v[j].frame_id == frame_id),
                forall|j: int| 0 <= j < i ==> v[j].active,
            decreases SLOT_COUNT - i,
        {
            if !self.slots[i].active {
                proof {
                    lemma_first_free_at(v, 0, i as int);
                }
                self.reset_slot(i, frame_id, now_us);
                return i;
            }
            i += 1;
        }
        proof {
            lemma_first_free_none(v, 0);
        }
        let mut best: usize = 0;
        let mut k: usize = 1;
        while k < SLOT_COUNT
            invariant
                1 <= k <= SLOT_COUNT,
                best < k,
                self.wf(),
                *self == *old(self),
                v == self.slot_views(),
                forall|j: int| 0 <= j < SLOT_COUNT ==> !(v[j].active && v[j].frame_id == frame_id),
                forall|j: int| 0 <= j < k ==> v[best as int].frame_id <= #[trigger] v[j].frame_id,
                forall|j: int| 0 <= j < best ==> v[best as int].frame_id < #[trigger] v[j].frame_id,
            decreases SLOT_COUNT - k,
        {
            if self.slots[k].frame_id < self.slots[best].frame_id {
                best = k;
            }
            k += 1;
        }
        proof {
            lemma_oldest_char(v, 0);
            let o = oldest_from(v, 0);
            if o < best {
                assert(v[best as int].frame_id < v[o].frame_id);
            } else if o > best {
                assert(v[o].frame_id < v[best as int].frame_id);
            }
        }
        self.frames_dropped = inc(self.frames_dropped);
        self.eviction_drops = inc(self.eviction_drops);
        self.reset_slot(best, frame_id, now_us);
        best
    }

    /// Process one chunk received at `now_us` (microseconds on the
    /// assembler's clock). Returns the frame this chunk completes, if any.
    pub fn process_chunk_at(
        &mut self,
        per_packet: &VideoChunkPerPacket,
        per_frame: Option<&VideoChunkPerFrame>,
        payload: &[u8],
        now_us: u64,
    ) -> (r: Option<AssembledFrame>)
        requires
            old(self).wf(),
        ensures
            final(self).wf(),
            final(self).max_chunks() == old(self).max_chunks(),
            final(self).max_bytes() == old(self).max_bytes(),
            final(self).deadline_ms() == old(self).deadline_ms(),
            ({
                let o = chunk_outcome(old(self).slot_views(), old(self).max_chunks(), old(self).max_bytes(),
                    *per_packet, opt_deref(per_frame), payload@, now_us);
                &&& final(self).slot_views() == o.slots
                &&& chunk_step_post(old(self).counters(), final(self).counters(), o)
                &&& (r is Some <==> o.frame is Some)
                &&& (r matches Some(f) ==> frame_is(f, o.frame.unwrap()))
                &&& (o.oversize || o.frame is Some) ==> forall|j: int| 0 <= j < SLOT_COUNT ==>
                    !((#[trigger] final(self).slot_views()[j]).active
                        && final(self).slot_views()[j].frame_id == per_packet.frame_id)
            }),
    {
        let ghost o = chunk_outcome(self.slot_views(), self.max_chunks_per_frame, self.max_frame_bytes,
            *per_packet, opt_deref(per_frame), payload@, now_us);
        proof {
            lemma_done_frame_leaves_flight(self.slot_views(), self.max_chunks_per_frame, self.max_frame_bytes,
                *per_packet, opt_deref(per_frame), payload@, now_us);
        }
        let ghost mb = slot_bytes(self.max_chunks_per_frame as int);
        let ghost mc = self.max_chunks_per_frame as int;
        if payload.len() > MAX_VIDEO_PAYLOAD_BYTES {
            self.chunks_dropped = inc(self.chunks_dropped);
            return None;
        }
        if per_packet.chunk_id >= self.max_chunks_per_frame {
            self.chunks_dropped = inc(self.chunks_dropped);
            return None;
        }
        let i = self.find_or_allocate_slot(per_packet.frame_id, now_us);
        let ghost v1 = self.slot_views();
        if let Some(meta) = per_frame {
            if meta.total_chunks > self.max_chunks_per_frame || meta.total_bytes > self.max_frame_bytes {
                let ghost before = self.slots@;
                self.slots[i].deactivate(Ghost(mb), Ghost(mc));
                proof {
                    lemma_one_slot_changed(before, self.slots@, i as int, mb, mc);
                }
                self.frames_dropped = inc(self.frames_dropped);
                self.oversize_drops = inc(self.oversize_drops);
                return None;
            }
            let ghost before = self.slots@;
            let mcx = self.max_chunks_per_frame;
            self.slots[i].apply_metadata(*meta, mcx, Ghost(mb));
            proof {
                lemma_one_slot_changed(before, self.slots@, i as int, mb, mc);
            }
        }
        let ghost v2 = self.slot_views();
        if let Some(meta) = self.slots[i].metadata {
            if per_packet.chunk_id >= meta.total_chunks {
                return None;
            }
        }
        let ghost before = self.slots@;
        self.slots[i].store_chunk(per_packet.chunk_id, payload, Ghost(mb), Ghost(mc));
        proof {
            lemma_one_slot_changed(before, self.slots@, i as int, mb, mc);
        }
        if self.slots[i].is_complete() {
            let meta = self.slots[i].metadata.unwrap();
            let data = self.slots[i].assemble(meta.total_chunks, Ghost(mb), Ghost(mc));
            let ghost before = self.slots@;
            self.slots[i].deactivate(Ghost(mb), Ghost(mc));
            proof {
                lemma_one_slot_changed(before, self.slots@, i as int, mb, mc);
            }
            self.frames_completed = inc(self.frames_completed);
            proof {
                assert(self.slot_views() == o.slots);
                assert(o.frame is Some);
            }
            return Some(AssembledFrame {
                frame_id: per_packet.frame_id,
                timestamp_us: meta.timestamp_us,
                is_keyframe: meta.is_keyframe,
                codec: meta.codec,
                width: meta.width,
                height: meta.height,
                data,
            });
        }
        None
    }

    /// Process one chunk, timestamped with the assembler's monotonic clock.
    pub fn process_chunk(
        &mut self,
        per_packet: &VideoChunkPerPacket,
        per_frame: Option<&VideoChunkPerFrame>,
        payload: &[u8],
    ) -> (r: Option<AssembledFrame>)
        requires
            old(self).wf(),
        ensures
            final(self).wf(),
            final(self).max_chunks() == old(self).max_chunks(),
            final(self).max_bytes() == old(self).max_bytes(),
            final(self).deadline_ms() == old(self).deadline_ms(),
            exists|now_us: u64| {
                let o = #[trigger] chunk_outcome(old(self).slot_views(), old(self).max_chunks(), old(self).max_bytes(),
                    *per_packet, opt_deref(per_frame), payload@, now_us);
                &&& final(self).slot_views() == o.slots
                &&& chunk_step_post(old(self).counters(), final(self).counters(), o)
                &&& (r is Some <==> o.frame is Some)
                &&& (r matches Some(f) ==> frame_is(f, o.frame.unwrap()))
                &&& (o.oversize || o.frame is Some) ==> forall|j: int| 0 <= j < SLOT_COUNT ==>
                    !((#[trigger] final(self).slot_views()[j]).active
                        && final(self).slot_views()[j].frame_id == per_packet.frame_id)
            },
    {
        let now_us = micros_since(&self.epoch);
        let r = self.process_chunk_at(per_packet, per_frame, payload, now_us);
        proof {
            let o = chunk_outcome(old(self).slot_views(), old(self).max_chunks(), old(self).max_bytes(),
                *per_packet, opt_deref(per_frame), payload@, now_us);
            assert(final(self).slot_views() == o.slots);
        }
        r
    }

    /// Set the assembly deadline, in milliseconds.
    pub fn set_assembly_deadline_ms(&mut self, deadline_ms: u64)
        requires
            old(self).wf(),
        ensures
            final(self).wf(),
            final(self).deadline_ms() == deadline_ms,
            final(self).slot_views() == old(self).slot_views(),
            final(self).counters() == old(self).counters(),
            final(self).max_chunks() == old(self).max_chunks(),
            final(self).max_bytes() == old(self).max_bytes(),
    {
        self.assembly_deadline_ms = deadline_ms;
    }

    /// Free every slot whose frame has been assembling for longer than the
    /// deadline at `now_us`, counting each as a dropped frame and a timeout.
    pub fn expire_stale_at(&mut self, now_us: u64)
        requires
            old(self).wf(),
        ensures
            final(self).wf(),
            final(self).max_chunks() == old(self).max_chunks(),
            final(self).max_bytes() == old(self).max_bytes(),
            final(self).deadline_ms() == old(self).deadline_ms(),
            final(self).slot_views() == slots_after_expiry(old(self).slot_views(), old(self).deadline_ms(), now_us),
            ({
                let n = stale_count(old(self).slot_views(), old(self).deadline_ms(), now_us, SLOT_COUNT as int);
                final(self).counters() == (AssemblerCounters {
                    frames_dropped: crate::counter::bump_times(old(self).counters().frames_dropped, n),
                    timeout_drops: crate::counter::bump_times(old(self).counters().timeout_drops, n),
                    ..old(self).counters()
                })
            }),
    {
        let ghost v = self.slot_views();
        let ghost mb = slot_bytes(self.max_chunks_per_frame as int);
        let ghost mc = self.max_chunks_per_frame as int;
        let deadline = self.assembly_deadline_ms;
        let mut k: usize = 0;
        while k < SLOT_COUNT
            invariant
                k <= SLOT_COUNT,
                self.wf(),
                mb == slot_bytes(self.max_chunks_per_frame as int),
                mc == self.max_chunks_per_frame as int,
                deadline == self.assembly_deadline_ms,
                self.max_frame_bytes == old(self).max_frame_bytes,
                self.max_chunks_per_frame == old(self).max_chunks_per_frame,
                self.assembly_deadline_ms == old(self).assembly_deadline_ms,
                v == old(self).slot_views(),
                v.len() == SLOT_COUNT,
                self.slot_views() == Seq::new(SLOT_COUNT as nat, |j: int|
                    if j < k { slots_after_expiry(v, deadline, now_us)[j] } else { v[j] }),
                self.frames_dropped == crate::counter::bump_times(old(self).frames_dropped, stale_count(v, deadline, now_us, k as int)),
                self.timeout_drops == crate::counter::bump_times(old(self).timeout_drops, stale_count(v, deadline, now_us, k as int)),
                self.frames_completed == old(self).frames_completed,
                self.chunks_dropped == old(self).chunks_dropped,
                self.oversize_drops == old(self).oversize_drops,
                self.eviction_drops == old(self).eviction_drops,
            decreases SLOT_COUNT - k,
        {
            let ghost before = self.slots@;
            let ghost vb = self.slot_views();
            let active = self.slots[k].active;
            let first = self.slots[k].first_chunk_us;
            let elapsed: u64 = if now_us >= first { (now_us - first) / 1000 } else { 0 };
            assert(vb[k as int] == v[k as int]);
            assert(vb[k as int] == self.slots@[k as int].view());
            assert(stale(v[k as int], deadline, now_us) == (active && elapsed > deadline));
            if active && elapsed > deadline {
                self.slots[k].deactivate(Ghost(mb), Ghost(mc));
                proof {
                    lemma_one_slot_changed(before, self.slots@, k as int, mb, mc);
                }
                self.frames_dropped = inc(self.frames_dropped);
                self.timeout_drops = inc(self.timeout_drops);
            }
            proof {
                assert(self.slot_views() =~= Seq::new(SLOT_COUNT as nat, |j: int|
                    if j < k + 1 { slots_after_expiry(v, deadline, now_us)[j] } else { v[j] }));
            }
            k += 1;
        }
        proof {
            assert(self.slot_views() =~= slots_after_expiry(v, deadline, now_us));
        }
    }

    /// Free every slot older than the deadline, by the assembler's clock.
    pub fn expire_stale(&mut self)
        requires
            old(self).wf(),
        ensures
            final(self).wf(),
            final(self).max_chunks() == old(self).max_chunks(),
            final(self).max_bytes() == old(self).max_bytes(),
            final(self).deadline_ms() == old(self).deadline_ms(),
            exists|now_us: u64| {
                let n = stale_count(old(self).slot_views(), old(self).deadline_ms(), now_us, SLOT_COUNT as int);
                &&& final(self).slot_views() == #[trigger] slots_after_expiry(old(self).slot_views(), old(self).deadline_ms(), now_us)
                &&& final(self).counters() == (AssemblerCounters {
                    frames_dropped: crate::counter::bump_times(old(self).counters().frames_dropped, n),
                    timeout_drops: crate::counter::bump_times(old(self).counters().timeout_drops, n),
                    ..old(self).counters()
                })
            },
    {
        let now_us = micros_since(&self.epoch);
        self.expire_stale_at(now_us);
        proof {
            assert(final(self).slot_views() == slots_after_expiry(old(self).slot_views(), old(self).deadline_ms(), now_us));
        }
    }

    /// The six public counter fields, read together.
    pub fn counter_values(&self) -> (r: AssemblerCounters)
        ensures
            r == self.counters(),
    {
        AssemblerCounters {
            frames_completed: self.frames_completed,
            frames_dropped: self.frames_dropped,
            chunks_dropped: self.chunks_dropped,
            timeout_drops: self.timeout_drops,
            oversize_drops: self.oversize_drops,
            eviction_drops: self.eviction_drops,
        }
    }

    /// Count a completed frame that was dropped downstream.
    pub fn note_downstream_drop(&mut self)
        requires
            old(self).wf(),
        ensures
            final(self).wf(),
            final(self).slot_views() == old(self).slot_views(),
            final(self).max_chunks() == old(self).max_chunks(),
            final(self).max_bytes() == old(self).max_bytes(),
            final(self).deadline_ms() == old(self).deadline_ms(),
            final(self).counters() == (AssemblerCounters {
                frames_dropped: crate::counter::bump(old(self).counters().frames_dropped),
                ..old(self).counters()
            }),
    {
        self.frames_dropped = inc(self.frames_dropped);
    }
}


// ---------------------------------------------------------------------------
// Assembly across a run of chunks
// ---------------------------------------------------------------------------

/// One chunk as it reaches the assembler.
pub struct ChunkArrival {
    pub per_packet: VideoChunkPerPacket,
    pub per_frame: Option<VideoChunkPerFrame>,
    pub payload: Seq<u8>,
    pub now_us: u64,
}

/// Slots after the first `k` arrivals of `arr`, from `slots`.
pub open spec fn slots_after_arrivals(
    slots: Seq<SlotView>,
    max_chunks: u16,
    max_bytes: u32,
    arr: Seq<ChunkArrival>,
    k: int,
) -> Seq<SlotView>
    decreases k,
{
    if k <= 0 {
        slots
    } else {
        let a = arr[k - 1];
        chunk_outcome(
            slots_after_arrivals(slots, max_chunks, max_bytes, arr, k - 1),
            max_chunks, max_bytes, a.per_packet, a.per_frame, a.payload, a.now_us,
        ).slots
    }
}

/// What arrival `k` of `arr` does, after the arrivals before it.
pub open spec fn arrival_outcome(
    slots: Seq<SlotView>,
    max_chunks: u16,
    max_bytes: u32,
    arr: Seq<ChunkArrival>,
    k: int,
) -> ChunkOutcome {
    let a = arr[k];
    chunk_outcome(
        slots_after_arrivals(slots, max_chunks, max_bytes, arr, k),
        max_chunks, max_bytes, a.per_packet, a.per_frame, a.payload, a.now_us,
    )
}

/// Chunk id `c` is among the first `k` arrivals.
pub open spec fn arrived(arr: Seq<ChunkArrival>, k: int, c: int) -> bool
    decreases k,
{
    if k <= 0 { false } else { arr[k - 1].per_packet.chunk_id == c || arrived(arr, k - 1, c) }
}

proof fn lemma_arrived(arr: Seq<ChunkArrival>, k: int, c: int)
    requires
        0 <= k <= arr.len(),
    ensures
        arrived(arr, k, c) <==> exists|j: int| 0 <= j < k && arr[j].per_packet.chunk_id == c,
    decreases k,
{
    if k > 0 {
        lemma_arrived(arr, k - 1, c);
        if arr[k - 1].per_packet.chunk_id == c {
            assert(0 <= k - 1 < k && arr[k - 1].per_packet.chunk_id == c);
        }
        if exists|j: int| 0 <= j < k && arr[j].per_packet.chunk_id == c {
            let j = choose|j: int| 0 <= j < k && arr[j].per_packet.chunk_id == c;
            if j < k - 1 {
                assert(0 <= j < k - 1 && arr[j].per_packet.chunk_id == c);
            }
        }
    }
}

/// The arrivals carry, each exactly once, the chunks `0..total_chunks` of
/// frame `frame_id` with the payloads `payloads`, metadata `m` riding on
/// chunk 0, every chunk within the assembler's limits and
/// at most `TRACKED_CHUNK_IDS` of them.
pub open spec fn one_frame_arrivals(
    arr: Seq<ChunkArrival>,
    frame_id: u32,
    m: VideoChunkPerFrame,
    payloads: Seq<Seq<u8>>,
    max_chunks: u16,
    max_bytes: u32,
) -> bool {
    let n = m.total_chunks as int;
    &&& 1 <= n <= max_chunks
    &&& n <= TRACKED_CHUNK_IDS
    &&& m.total_bytes <= max_bytes
    &&& payloads.len() == n
    &&& forall|c: int| 0 <= c < n ==> (#[trigger] payloads[c]).len() <= 1358
    &&& arr.len() == n
    &&& forall|j: int| 0 <= j < n ==> {
        let a = #[trigger] arr[j];
        &&& a.per_packet.frame_id == frame_id
        &&& a.per_packet.chunk_id < n
        &&& a.payload == payloads[a.per_packet.chunk_id as int]
        &&& a.per_frame == (if a.per_packet.chunk_id == 0 { Some(m) } else { None::<VideoChunkPerFrame> })
    }
    &&& forall|j1: int, j2: int| 0 <= j1 < j2 < n ==>
        (#[trigger] arr[j1]).per_packet.chunk_id != (#[trigger] arr[j2]).per_packet.chunk_id
    &&& forall|c: int| 0 <= c < n ==> #[trigger] arrived(arr, n, c)
}

/// Slot `v` holds frame `frame_id` after the first `k` of its arrivals.
pub open spec fn holds_prefix(
    v: SlotView,
    arr: Seq<ChunkArrival>,
    frame_id: u32,
    m: VideoChunkPerFrame,
    payloads: Seq<Seq<u8>>,
    max_chunks: u16,
    k: int,
) -> bool {
    &&& v.active
    &&& v.frame_id == frame_id
    &&& v.received.len() == max_chunks
    &&& v.chunks.len() == max_chunks
    &&& forall|c: int| 0 <= c < max_chunks ==> #[trigger] v.received[c] == arrived(arr, k, c)
    &&& forall|c: int| 0 <= c < max_chunks && arrived(arr, k, c) ==> #[trigger] v.chunks[c] == payloads[c]
    &&& v.meta == (if arrived(arr, k, 0) { Some(m) } else { None::<VideoChunkPerFrame> })
    &&& count_set(v.received) == k
}

/// Slot `i` is the only active slot for `frame_id`.
pub open spec fn sole_slot(s: Seq<SlotView>, i: int, frame_id: u32) -> bool {
    &&& s.len() == SLOT_COUNT
    &&& 0 <= i < SLOT_COUNT
    &&& s[i].active && s[i].frame_id == frame_id
    &&& forall|j: int| 0 <= j < SLOT_COUNT && j != i ==> !((#[trigger] s[j]).active && s[j].frame_id == frame_id)
}

proof fn lemma_chunk_step(
    s: Seq<SlotView>,
    i: int,
    max_chunks: u16,
    max_bytes: u32,
    arr: Seq<ChunkArrival>,
    frame_id: u32,
    m: VideoChunkPerFrame,
    payloads: Seq<Seq<u8>>,
    k: int,
)
    requires
        one_frame_arrivals(arr, frame_id, m, payloads, max_chunks, max_bytes),
        0 <= k < m.total_chunks,
        chosen_slot(s, frame_id) == i,
        sole_slot(slots_after_choice(s, frame_id, arr[k].now_us), i, frame_id),
        holds_prefix(slots_after_choice(s, frame_id, arr[k].now_us)[i], arr, frame_id, m, payloads, max_chunks, k),
    ensures
        ({
            let a = arr[k];
            let o = chunk_outcome(s, max_chunks, max_bytes, a.per_packet, a.per_frame, a.payload, a.now_us);
            &&& k + 1 < m.total_chunks ==> {
                &&& o.frame is None
                &&& sole_slot(o.slots, i, frame_id)
                &&& holds_prefix(o.slots[i], arr, frame_id, m, payloads, max_chunks, k + 1)
            }
            &&& k + 1 == m.total_chunks ==> o.frame == Some((frame_id, m, payloads.flatten()))
        }),
{
    let n = m.total_chunks as int;
    let a = arr[k];
    let c = a.per_packet.chunk_id as int;
    let s1 = slots_after_choice(s, frame_id, a.now_us);
    let v = s1[i];
    assert(a.per_packet.frame_id == frame_id && c < n);
    let s2 = match a.per_frame {
        Some(mm) => with_meta(v, mm),
        None => v,
    };
    // metadata clears no mark: every mark so far is a chunk id below n
    assert(s2.received =~= v.received) by {
        if a.per_frame is Some {
            assert forall|x: int| 0 <= x < max_chunks implies s2.received[x] == v.received[x] by {
                if v.received[x] {
                    lemma_arrived(arr, k, x);
                    let j = choose|j: int| 0 <= j < k && arr[j].per_packet.chunk_id == x;
                    assert(arr[j].per_packet.chunk_id < n);
                }
            }
        }
    }
    lemma_arrived(arr, k, c);
    assert(!arrived(arr, k, c)) by {
        if arrived(arr, k, c) {
            let j = choose|j: int| 0 <= j < k && arr[j].per_packet.chunk_id == c;
            assert(arr[j].per_packet.chunk_id != arr[k].per_packet.chunk_id);
        }
    }
    assert(!v.received[c]);
    let s3 = with_chunk(s2, c, a.payload);
    assert(!beyond_frame(s2, c));
    assert(s3.received == s2.received.update(c, true));
    assert(s3.chunks == s2.chunks.update(c, a.payload));
    lemma_count_set_update(s2.received, c, true);
    assert(count_set(s3.received) == k + 1);
    assert(s3.meta == (if arrived(arr, k + 1, 0) { Some(m) } else { None::<VideoChunkPerFrame> }));
    assert forall|x: int| 0 <= x < max_chunks implies #[trigger] s3.received[x] == arrived(arr, k + 1, x) by {}
    assert forall|x: int| 0 <= x < max_chunks && arrived(arr, k + 1, x) implies #[trigger] s3.chunks[x] == payloads[x] by {}
    let o = chunk_outcome(s, max_chunks, max_bytes, a.per_packet, a.per_frame, a.payload, a.now_us);
    if k + 1 < n {
        assert(!slot_complete(s3));
        assert(o.slots == s1.update(i, s3));
        assert(o.frame is None);
        assert forall|j: int| 0 <= j < SLOT_COUNT && j != i implies
            !((#[trigger] o.slots[j]).active && o.slots[j].frame_id == frame_id) by {
            assert(o.slots[j] == s1[j]);
        }
    } else {
        assert(arrived(arr, n, 0));
        assert(s3.meta == Some(m));
        assert(slot_complete(s3));
        assert(s3.chunks.take(n) =~= payloads) by {
            assert forall|x: int| 0 <= x < n implies s3.chunks.take(n)[x] == payloads[x] by {
                assert(arrived(arr, n, x));
            }
        }
        assert(o.frame == Some((frame_id, m, assembled_bytes(s3, n))));
    }
}

proof fn lemma_arrivals_prefix(
    slots: Seq<SlotView>,
    max_chunks: u16,
    max_bytes: u32,
    arr: Seq<ChunkArrival>,
    frame_id: u32,
    m: VideoChunkPerFrame,
    payloads: Seq<Seq<u8>>,
    k: int,
)
    requires
        slots.len() == SLOT_COUNT,
        forall|j: int| 0 <= j < SLOT_COUNT ==>
            (#[trigger] slots[j]).received.len() == max_chunks && slots[j].chunks.len() == max_chunks,
        forall|j: int| 0 <= j < SLOT_COUNT ==> !((#[trigger] slots[j]).active && slots[j].frame_id == frame_id),
        one_frame_arrivals(arr, frame_id, m, payloads, max_chunks, max_bytes),
        0 <= k < m.total_chunks,
    ensures
        ({
            let s = slots_after_arrivals(slots, max_chunks, max_bytes, arr, k);
            let i = chosen_slot(slots, frame_id);
            &&& chosen_slot(s, frame_id) == i
            &&& sole_slot(slots_after_choice(s, frame_id, arr[k].now_us), i, frame_id)
            &&& holds_prefix(slots_after_choice(s, frame_id, arr[k].now_us)[i], arr, frame_id, m, payloads, max_chunks, k)
            &&& forall|j: int| 0 <= j < k ==> (#[trigger] arrival_outcome(slots, max_chunks, max_bytes, arr, j)).frame is None
        }),
    decreases k,
{
    let i = chosen_slot(slots, frame_id);
    if k == 0 {
        lemma_first_match_none(slots, frame_id, 0);
        if exists|j: int| 0 <= j < SLOT_COUNT && !slots[j].active {
            let j = choose|j: int| 0 <= j < SLOT_COUNT && !slots[j].active;
            lemma_first_free_some(slots, 0, j);
        } else {
            lemma_first_free_none(slots, 0);
            lemma_oldest_char(slots, 0);
        }
        assert(0 <= i < SLOT_COUNT);
        let t = arr[0].now_us;
        let s1 = slots_after_choice(slots, frame_id, t);
        let v = s1[i];
        assert(v == reset_view(slots[i], frame_id, t));
        lemma_count_set_none(v.received);
        assert forall|j: int| 0 <= j < SLOT_COUNT && j != i implies
            !((#[trigger] s1[j]).active && s1[j].frame_id == frame_id) by {
            assert(s1[j] == slots[j]);
        }
    } else {
        lemma_arrivals_prefix(slots, max_chunks, max_bytes, arr, frame_id, m, payloads, k - 1);
        let sp = slots_after_arrivals(slots, max_chunks, max_bytes, arr, k - 1);
        lemma_chunk_step(sp, i, max_chunks, max_bytes, arr, frame_id, m, payloads, k - 1);
        let s = slots_after_arrivals(slots, max_chunks, max_bytes, arr, k);
        assert(arrival_outcome(slots, max_chunks, max_bytes, arr, k - 1).slots == s);
        assert(sole_slot(s, i, frame_id));
        assert forall|j: int| 0 <= j < i implies !((#[trigger] s[j]).active && s[j].frame_id == frame_id) by {}
        lemma_first_match_at(s, frame_id, 0, i);
        assert(slots_after_choice(s, frame_id, arr[k].now_us) == s);
    }
}

/// Chunks of one frame that arrive in any order, each once, with the
/// metadata on chunk 0 and no other traffic in between, into an assembler
/// where that frame is not in progress: no chunk but the last completes
/// anything, and the last one yields the frame, its bytes the payloads
/// concatenated in chunk-id order.
pub proof fn lemma_chunks_in_any_order_assemble(
    slots: Seq<SlotView>,
    max_chunks: u16,
    max_bytes: u32,
    arr: Seq<ChunkArrival>,
    frame_id: u32,
    m: VideoChunkPerFrame,
    payloads: Seq<Seq<u8>>,
)
    requires
        slots.len() == SLOT_COUNT,
        forall|j: int| 0 <= j < SLOT_COUNT ==>
            (#[trigger] slots[j]).received.len() == max_chunks && slots[j].chunks.len() == max_chunks,
        forall|j: int| 0 <= j < SLOT_COUNT ==> !((#[trigger] slots[j]).active && slots[j].frame_id == frame_id),
        one_frame_arrivals(arr, frame_id, m, payloads, max_chunks, max_bytes),
    ensures
        forall|j: int| 0 <= j < arr.len() - 1 ==> (#[trigger] arrival_outcome(slots, max_chunks, max_bytes, arr, j)).frame is None,
        arrival_outcome(slots, max_chunks, max_bytes, arr, arr.len() - 1).frame == Some((frame_id, m, payloads.flatten())),
{
    let n = m.total_chunks as int;
    lemma_arrivals_prefix(slots, max_chunks, max_bytes, arr, frame_id, m, payloads, n - 1);
    let s = slots_after_arrivals(slots, max_chunks, max_bytes, arr, n - 1);
    lemma_chunk_step(s, chosen_slot(slots, frame_id), max_chunks, max_bytes, arr, frame_id, m, payloads, n - 1);
}

/// A slot as a well-formed assembler keeps it: one arrival flag and one
/// payload per chunk id below `max_chunks`, and, once the frame's chunk
/// count is known, no mark at or past it.
pub open spec fn slot_ok(v: SlotView, max_chunks: u16) -> bool {
    &&& v.received.len() == max_chunks
    &&& v.chunks.len() == max_chunks
    &&& (v.meta matches Some(m) ==> m.total_chunks <= max_chunks)
    &&& forall|c: int| 0 <= c < max_chunks && #[trigger] v.received[c] ==> !beyond_frame(v, c)
}

proof fn lemma_count_all(s: Seq<bool>)
    requires
        count_set(s) >= s.len(),
    ensures
        forall|c: int| 0 <= c < s.len() ==> s[c],
    decreases s.len(),
{
    if s.len() > 0 {
        let dl = s.drop_last();
        lemma_count_set_bound(dl);
        lemma_count_all(dl);
        assert forall|c: int| 0 <= c < s.len() implies s[c] by {
            if c < s.len() - 1 {
                assert(dl[c] == s[c]);
            }
        }
    }
}

proof fn lemma_count_prefix(s: Seq<bool>, t: int)
    requires
        0 <= t <= s.len(),
        forall|c: int| t <= c < s.len() ==> !s[c],
    ensures
        count_set(s) == count_set(s.take(t)),
    decreases s.len(),
{
    if s.len() > t {
        let dl = s.drop_last();
        assert(!s[s.len() - 1]);
        assert(dl.take(t) =~= s.take(t));
        lemma_count_prefix(dl, t);
    } else {
        assert(s.take(t) =~= s);
    }
}

/// A slot whose frame is complete holds every chunk `0..total_chunks`.
proof fn lemma_complete_slot_is_whole(v: SlotView, max_chunks: u16)
    requires
        slot_ok(v, max_chunks),
        slot_complete(v),
    ensures
        forall|c: int| 0 <= c < v.meta.unwrap().total_chunks ==> #[trigger] v.received[c],
{
    let t = v.meta.unwrap().total_chunks as int;
    assert forall|c: int| t <= c < v.received.len() implies !v.received[c] by {
        if v.received[c] {
            assert(!beyond_frame(v, c));
        }
    }
    lemma_count_prefix(v.received, t);
    lemma_count_all(v.received.take(t));
    assert forall|c: int| 0 <= c < t implies #[trigger] v.received[c] by {
        assert(v.received.take(t)[c] == v.received[c]);
    }
}

proof fn lemma_chosen_in_range(slots: Seq<SlotView>, frame_id: u32)
    requires
        slots.len() == SLOT_COUNT,
    ensures
        0 <= chosen_slot(slots, frame_id) < SLOT_COUNT,
{
    if exists|j: int| 0 <= j < SLOT_COUNT && slots[j].active && slots[j].frame_id == frame_id {
        let j = choose|j: int| 0 <= j < SLOT_COUNT && slots[j].active && slots[j].frame_id == frame_id;
        lemma_first_match_some(slots, frame_id, 0, j);
    } else {
        lemma_first_match_none(slots, frame_id, 0);
        if exists|j: int| 0 <= j < SLOT_COUNT && !slots[j].active {
            let j = choose|j: int| 0 <= j < SLOT_COUNT && !slots[j].active;
            lemma_first_free_some(slots, 0, j);
        } else {
            lemma_first_free_none(slots, 0);
            lemma_oldest_char(slots, 0);
        }
    }
}

/// A chunk yields a frame only once the frame is whole: its metadata is
/// known and every chunk `0..total_chunks` has arrived; the frame carries
/// the chunk's frame id and those chunks' payloads in chunk-id order. Every
/// slot keeps its shape, so this holds of every later chunk too.
pub proof fn lemma_frame_only_when_whole(
    slots: Seq<SlotView>,
    max_chunks: u16,
    max_bytes: u32,
    pp: VideoChunkPerPacket,
    pf: Option<VideoChunkPerFrame>,
    payload: Seq<u8>,
    now_us: u64,
)
    requires
        slots.len() == SLOT_COUNT,
        forall|j: int| 0 <= j < SLOT_COUNT ==> slot_ok(#[trigger] slots[j], max_chunks),
    ensures
        ({
            let o = chunk_outcome(slots, max_chunks, max_bytes, pp, pf, payload, now_us);
            &&& o.slots.len() == SLOT_COUNT
            &&& forall|j: int| 0 <= j < SLOT_COUNT ==> slot_ok(#[trigger] o.slots[j], max_chunks)
            &&& o.frame matches Some(t) ==> {
                let s = o.slots[chosen_slot(slots, pp.frame_id)];
                &&& t.0 == pp.frame_id
                &&& s.meta == Some(t.1)
                &&& forall|c: int| 0 <= c < t.1.total_chunks ==> #[trigger] s.received[c]
                &&& t.2 == s.chunks.take(t.1.total_chunks as int).flatten()
            }
        }),
{
    let o = chunk_outcome(slots, max_chunks, max_bytes, pp, pf, payload, now_us);
    if !(payload.len() > 1358 || pp.chunk_id >= max_chunks) {
        lemma_chosen_in_range(slots, pp.frame_id);
        let i = chosen_slot(slots, pp.frame_id);
        let s1 = slots_after_choice(slots, pp.frame_id, now_us);
        assert forall|j: int| 0 <= j < SLOT_COUNT implies slot_ok(#[trigger] s1[j], max_chunks) by {
            if j == i && first_match(slots, pp.frame_id, 0) < 0 {
                assert(s1[j] == reset_view(slots[i], pp.frame_id, now_us));
            }
        }
        let c = pp.chunk_id as int;
        let s2 = match pf {
            Some(m) => with_meta(s1[i], m),
            None => s1[i],
        };
        if !(pf matches Some(m) && (m.total_chunks > max_chunks || m.total_bytes > max_bytes)) {
            assert(slot_ok(s2, max_chunks));
            let s3 = with_chunk(s2, c, payload);
            if !beyond_frame(s2, c) {
                assert(slot_ok(s3, max_chunks)) by {
                    assert forall|x: int| 0 <= x < max_chunks && #[trigger] s3.received[x] implies !beyond_frame(s3, x) by {
                        if x != c {
                            assert(s2.received[x]);
                        }
                    }
                }
                if slot_complete(s3) {
                    lemma_complete_slot_is_whole(s3, max_chunks);
                    let d = SlotView { active: false, ..s3 };
                    assert(o.slots[i] == d);
                    assert(slot_ok(d, max_chunks));
                }
            }
        }
        assert forall|j: int| 0 <= j < SLOT_COUNT implies slot_ok(#[trigger] o.slots[j], max_chunks) by {
            if j != i {
                assert(o.slots[j] == s1[j]);
            }
        }
    }
}

impl FrameAssembler {
    /// Shape of every slot of a well-formed assembler: four slots, each as
    /// [`slot_ok`] describes, no two of them assembling one frame id.
    pub proof fn lemma_slot_shapes(&self)
        requires
            self.wf(),
        ensures
            self.slot_views().len() == SLOT_COUNT,
            forall|j: int| 0 <= j < SLOT_COUNT ==> slot_ok(#[trigger] self.slot_views()[j], self.max_chunks()),
            distinct_in_flight(self.slot_views()),
    {
        assert forall|j: int| 0 <= j < SLOT_COUNT implies slot_ok(#[trigger] self.slot_views()[j], self.max_chunks()) by {
            assert(self.slots@[j].wf(slot_bytes(self.max_chunks_per_frame as int), self.max_chunks_per_frame as int));
        }
    }
}

} // verus!

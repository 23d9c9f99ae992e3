//! The decode path's own logic: codec selection, the IDR-recovery state
//! machine with its request rate limit, concealment (gray) frame
//! detection, chroma plane extraction, and the renderer's orientation and
//! warm-tint decisions.
use vstd::prelude::*;
use vstd::string::StringExecFns;
use crate::text::push_decimal;

verus! {

/// Decoder recovery state.
#[derive(Debug, Clone, Copy, PartialEq, Eq, Structural)]
pub enum DecoderState {
    Healthy,
    WaitingForIDR,
    Recovering,
}

/// Why an IDR frame is requested.
#[derive(Debug, Clone, Copy, PartialEq, Eq, Structural)]
pub enum IDRReason {
    DecodeError,
    CorruptFrame,
    ReferenceLoss,
}

/// Whether hardware or software decode is active.
#[derive(Debug, Clone, Copy, PartialEq, Eq, Structural)]
pub enum DecodeBackend {
    Software,
    Cuvid,
}

/// A decoded frame's pixel data, YUV 4:2:0 planes.
pub struct DecodedFrame {
    pub width: u32,
    pub height: u32,
    pub timestamp_us: u64,
    /// The emitted frame's own recovered identity: its presentation
    /// timestamp, else its best-effort timestamp.
    pub recovered_frame_id: Option<u64>,
    pub planes: [Vec<u8>; 3],
    pub strides: [usize; 3],
}

/// Minimum spacing of IDR requests, in microseconds (250 ms).
pub const IDR_REQUEST_INTERVAL_US: u64 = 250000;
/// Clean frames after a keyframe before the decoder counts as healthy.
pub const RECOVERY_FRAMES: u32 = 5;

pub open spec fn unknown_codec_message(codec_id: u8) -> Seq<char> {
    "Unknown codec ID: "@ + crate::text::decimal(codec_id as nat)
}

/// The hardware decoder for a codec id: its decoder name and display name.
pub fn cuvid_decoder_names(codec_id: u8) -> (r: Result<(&'static str, &'static str), String>)
    ensures
        codec_id == 0 ==> (r matches Ok((n, d)) && n@ == "h264_cuvid"@ && d@ == "H.264 CUVID"@),
        codec_id == 1 ==> (r matches Ok((n, d)) && n@ == "hevc_cuvid"@ && d@ == "HEVC CUVID"@),
        codec_id > 1 ==> (r matches Err(e) && e@ == unknown_codec_message(codec_id)),
{
    if codec_id == 0 {
        Ok(("h264_cuvid", "H.264 CUVID"))
    } else if codec_id == 1 {
        Ok(("hevc_cuvid", "HEVC CUVID"))
    } else {
        let mut e = String::from_str("Unknown codec ID: ");
        push_decimal(&mut e, codec_id as u64);
        Err(e)
    }
}

/// Codec families of the software decoder.
#[derive(Debug, Clone, Copy, PartialEq, Eq, Structural)]
pub enum SoftwareCodec {
    H264,
    Hevc,
}

/// The software decoder for a codec id and its display name.
pub fn software_codec(codec_id: u8) -> (r: Result<(SoftwareCodec, &'static str), String>)
    ensures
        codec_id == 0 ==> (r matches Ok((c, d)) && c == SoftwareCodec::H264 && d@ == "H.264"@),
        codec_id == 1 ==> (r matches Ok((c, d)) && c == SoftwareCodec::Hevc && d@ == "HEVC"@),
        codec_id > 1 ==> (r matches Err(e) && e@ == unknown_codec_message(codec_id)),
{
    if codec_id == 0 {
        Ok((SoftwareCodec::H264, "H.264"))
    } else if codec_id == 1 {
        Ok((SoftwareCodec::Hevc, "HEVC"))
    } else {
        let mut e = String::from_str("Unknown codec ID: ");
        push_decimal(&mut e, codec_id as u64);
        Err(e)
    }
}

/// The recovery state machine of a decoder.
#[derive(Debug, Clone, Copy, PartialEq, Eq)]
pub struct Recovery {
    pub state: DecoderState,
    /// When the last IDR request was made (microseconds on the decoder's
    /// clock).
    pub last_idr_request_us: Option<u64>,
    /// The IDR request waiting to be sent.
    pub pending_idr_reason: Option<IDRReason>,
    pub frames_since_recovery: u32,
}

/// An IDR request at `now_us` goes out when none was made before or the
/// last one is at least 250 ms old.
pub open spec fn idr_allowed(last: Option<u64>, now_us: u64) -> bool {
    match last {
        None => true,
        Some(t) => now_us >= t && now_us - t >= IDR_REQUEST_INTERVAL_US,
    }
}

pub open spec fn after_request(r: Recovery, reason: IDRReason, now_us: u64) -> Recovery {
    if idr_allowed(r.last_idr_request_us, now_us) {
        Recovery { pending_idr_reason: Some(reason), last_idr_request_us: Some(now_us), ..r }
    } else {
        r
    }
}

/// After one emitted frame: a keyframe ends the wait for an IDR; while
/// recovering, the fifth clean frame makes the decoder healthy again.
pub open spec fn after_emission(r: Recovery, is_keyframe: bool) -> Recovery {
    let r1 = if is_keyframe && r.state == DecoderState::WaitingForIDR {
        Recovery { state: DecoderState::Recovering, frames_since_recovery: 0, ..r }
    } else {
        r
    };
    if r1.state == DecoderState::Recovering {
        let n = if r1.frames_since_recovery == u32::MAX { u32::MAX } else { (r1.frames_since_recovery + 1) as u32 };
        if n >= RECOVERY_FRAMES {
            Recovery { state: DecoderState::Healthy, frames_since_recovery: n, ..r1 }
        } else {
            Recovery { frames_since_recovery: n, ..r1 }
        }
    } else {
        r1
    }
}

impl Recovery {
    /// A healthy decoder with no request made.
    pub fn new() -> (r: Self)
        ensures
            r == (Recovery {
                state: DecoderState::Healthy,
                last_idr_request_us: None,
                pending_idr_reason: None,
                frames_since_recovery: 0,
            }),
    {
        Recovery { state: DecoderState::Healthy, last_idr_request_us: None, pending_idr_reason: None, frames_since_recovery: 0 }
    }

    /// Ask for an IDR frame, at most once per 250 ms.
    pub fn request_idr(&mut self, reason: IDRReason, now_us: u64)
        ensures
            *final(self) == after_request(*old(self), reason, now_us),
    {
        let can_request = match self.last_idr_request_us {
            Some(last) => now_us >= last && now_us - last >= IDR_REQUEST_INTERVAL_US,
            None => true,
        };
        if can_request {
            self.pending_idr_reason = Some(reason);
            self.last_idr_request_us = Some(now_us);
        }
    }

    /// Stop displaying until an IDR arrives, and ask for one.
    pub fn enter_waiting_for_idr(&mut self, reason: IDRReason, now_us: u64)
        ensures
            *final(self) == after_request(Recovery { state: DecoderState::WaitingForIDR, ..*old(self) }, reason, now_us),
    {
        self.state = DecoderState::WaitingForIDR;
        self.request_idr(reason, now_us);
    }

    /// Whether a packet is dropped without decoding: while waiting for an
    /// IDR, every non-keyframe is.
    pub fn skips(&self, is_keyframe: bool) -> (r: bool)
        ensures
            r == (self.state == DecoderState::WaitingForIDR && !is_keyframe),
    {
        self.state == DecoderState::WaitingForIDR && !is_keyframe
    }

    /// Account one emitted frame.
    pub fn on_emission(&mut self, is_keyframe: bool)
        ensures
            *final(self) == after_emission(*old(self), is_keyframe),
    {
        if is_keyframe && self.state == DecoderState::WaitingForIDR {
            self.state = DecoderState::Recovering;
            self.frames_since_recovery = 0;
        }
        if self.state == DecoderState::Recovering {
            self.frames_since_recovery = if self.frames_since_recovery == u32::MAX {
                u32::MAX
            } else {
                self.frames_since_recovery + 1
            };
            if self.frames_since_recovery >= RECOVERY_FRAMES {
                self.state = DecoderState::Healthy;
            }
        }
    }
}

/// From waiting for an IDR, a keyframe followed by clean frames brings the
/// decoder back to healthy on the fifth frame counted.
pub proof fn lemma_recovers_after_five_frames(r: Recovery)
    requires
        r.state == DecoderState::WaitingForIDR,
    ensures
        ({
            let r1 = after_emission(r, true);
            let r2 = after_emission(r1, false);
            let r3 = after_emission(r2, false);
            let r4 = after_emission(r3, false);
            let r5 = after_emission(r4, false);
            &&& r1.state == DecoderState::Recovering
            &&& r4.state == DecoderState::Recovering
            &&& r5.state == DecoderState::Healthy
        }),
{
}

// ---------------------------------------------------------------------------
// Concealment frames
// ---------------------------------------------------------------------------

/// Number of luma samples inspected per frame.
pub const GRAY_SAMPLES: usize = 16;

/// Offset of luma sample `i` of a `w` by `h` frame with row stride
/// `stride`: a diagonal walk, clamped to the last row and column.
pub open spec fn sample_offset(w: int, h: int, stride: int, i: int) -> int {
    let row = if i * h / 16 < h - 1 { i * h / 16 } else { h - 1 };
    let col = if i * w / 16 < w - 1 { i * w / 16 } else { w - 1 };
    row * stride + col
}

/// Offsets of the inspected luma samples.
pub fn gray_sample_offsets(w: usize, h: usize, stride: usize) -> (r: Vec<usize>)
    requires
        w > 0,
        h > 0,
        (h - 1) * stride + w <= usize::MAX,
        16 * w <= usize::MAX,
        16 * h <= usize::MAX,
    ensures
        r@.len() == 16,
        forall|i: int| 0 <= i < 16 ==> r@[i] as int == sample_offset(w as int, h as int, stride as int, i),
{
    let mut r: Vec<usize> = Vec::new();
    let mut i: usize = 0;
    while i < GRAY_SAMPLES
        invariant
            i <= 16,
            r@.len() == i,
            w > 0,
            h > 0,
            (h - 1) * stride + w <= usize::MAX,
            16 * w <= usize::MAX,
            16 * h <= usize::MAX,
            forall|k: int| 0 <= k < i ==> r@[k] as int == sample_offset(w as int, h as int, stride as int, k),
        decreases 16 - i,
    {
        assert(i * h <= 16 * h) by (nonlinear_arith) requires i <= 16;
        assert(i * w <= 16 * w) by (nonlinear_arith) requires i <= 16;
        let a = i * h / 16;
        let row = if a < h - 1 { a } else { h - 1 };
        let b = i * w / 16;
        let col = if b < w - 1 { b } else { w - 1 };
        assert(row * stride <= (h - 1) * stride) by (nonlinear_arith) requires row <= h - 1;
        r.push(row * stride + col);
        i += 1;
    }
    r
}

pub open spec fn sum_of(v: Seq<u8>) -> nat
    decreases v.len(),
{
    if v.len() == 0 { 0 } else { sum_of(v.drop_last()) + v.last() as nat }
}

pub open spec fn sum_sq_of(v: Seq<u8>) -> nat
    decreases v.len(),
{
    if v.len() == 0 { 0 } else { sum_sq_of(v.drop_last()) + (v.last() as nat) * (v.last() as nat) }
}

/// A frame whose sampled luma is nearly flat (variance below 4) and mid
/// gray (mean in 101..=159) is a concealment frame left by a lost
/// reference. Mean and variance are integer divisions by the sample count.
pub open spec fn is_concealment(v: Seq<u8>) -> bool {
    let mean = sum_of(v) / 16;
    let var = sum_sq_of(v) / 16 - mean * mean;
    var < 4 && mean > 100 && mean < 160
}

/// `n * sum(x^2) >= (sum x)^2` over `n` values.
proof fn lemma_mean_square(v: Seq<u8>)
    ensures
        v.len() * sum_sq_of(v) >= sum_of(v) * sum_of(v),
    decreases v.len(),
{
    if v.len() > 0 {
        let p = v.drop_last();
        lemma_mean_square(p);
        let n = p.len() as int;
        let s = sum_of(p) as int;
        let q = sum_sq_of(p) as int;
        let x = v.last() as int;
        assert(n * q >= s * s);
        assert((n + 1) * (q + x * x) >= (s + x) * (s + x)) by (nonlinear_arith)
            requires n * q >= s * s, n >= 0, q >= 0, s >= 0, x >= 0;
    }
}

proof fn lemma_sums_bounded(v: Seq<u8>)
    ensures
        sum_of(v) <= 255 * v.len(),
        sum_sq_of(v) <= 65025 * v.len(),
    decreases v.len(),
{
    if v.len() > 0 {
        lemma_sums_bounded(v.drop_last());
        let x = v.last() as nat;
        assert(x * x <= 65025) by (nonlinear_arith) requires x <= 255;
    }
}

/// Whether the 16 sampled luma values mark a concealment frame.
pub fn concealment_frame(samples: &[u8]) -> (r: bool)
    requires
        samples@.len() == 16,
    ensures
        r == is_concealment(samples@),
{
    let mut sum: u64 = 0;
    let mut sum_sq: u64 = 0;
    let mut i: usize = 0;
    while i < samples.len()
        invariant
            i <= 16,
            samples@.len() == 16,
            sum == sum_of(samples@.take(i as int)),
            sum_sq == sum_sq_of(samples@.take(i as int)),
            sum <= 255 * i,
            sum_sq <= 65025 * i,
        decreases 16 - i,
    {
        proof {
            lemma_sums_bounded(samples@.take(i as int));
            assert(samples@.take(i + 1).drop_last() =~= samples@.take(i as int));
        }
        let val = samples[i] as u64;
        assert(val * val <= 65025) by (nonlinear_arith) requires val <= 255;
        sum = sum + val;
        sum_sq = sum_sq + val * val;
        i += 1;
    }
    assert(samples@.take(16) =~= samples@);
    let mean = sum / 16;
    let m2 = sum_sq / 16;
    proof {
        lemma_mean_square(samples@);
        let s = sum as int;
        let q = sum_sq as int;
        let m = mean as int;
        assert(m * m <= q / 16) by (nonlinear_arith)
            requires 16 * q >= s * s, m == s / 16, s >= 0, q >= 0;
    }
    let variance = m2 - mean * mean;
    variance < 4 && mean > 100 && mean < 160
}

// ---------------------------------------------------------------------------
// Chroma planes
// ---------------------------------------------------------------------------

/// U and V planes of an interleaved (NV12) chroma plane of a `w` by `h`
/// frame: for each of the `h/2` rows and `w/2` columns, the even byte is U
/// and the odd byte is V.
pub open spec fn nv12_split_ok(uv: Seq<u8>, stride: int, w: int, h: int, u: Seq<u8>, v: Seq<u8>) -> bool {
    let hw = w / 2;
    let hh = h / 2;
    &&& u.len() == hw * hh
    &&& v.len() == hw * hh
    &&& forall|r: int, c: int| 0 <= r < hh && 0 <= c < hw ==> {
        &&& #[trigger] u[r * hw + c] == uv[r * stride + 2 * c]
        &&& v[r * hw + c] == uv[r * stride + 2 * c + 1]
    }
}

proof fn lemma_cell_before_row(r: int, c: int, hw: int, row: int)
    requires
        0 <= r < row,
        0 <= c < hw,
    ensures
        0 <= r * hw + c < row * hw,
{
    assert(r * hw + c < row * hw) by (nonlinear_arith) requires 0 <= r < row, 0 <= c < hw;
    assert(r * hw >= 0) by (nonlinear_arith) requires r >= 0, hw >= 0;
}

/// Split an interleaved chroma plane into separate U and V planes.
pub fn split_nv12_chroma(uv: &[u8], stride: usize, w: usize, h: usize) -> (r: (Vec<u8>, Vec<u8>))
    requires
        (h / 2) * stride <= usize::MAX,
        h / 2 > 0 ==> ((h / 2 - 1) * stride + w <= uv@.len()),
        (w / 2) * (h / 2) <= usize::MAX,
    ensures
        nv12_split_ok(uv@, stride as int, w as int, h as int, r.0@, r.1@),
{
    let hw = w / 2;
    let hh = h / 2;
    let ulen = uv.len();
    let mut u: Vec<u8> = Vec::new();
    let mut v: Vec<u8> = Vec::new();
    let mut row: usize = 0;
    while row < hh
        invariant
            hw == w / 2,
            hh == h / 2,
            row <= hh,
            hh * stride <= usize::MAX,
            hh > 0 ==> ((hh - 1) * stride + w <= uv@.len()),
            ulen == uv@.len(),
            hw * hh <= usize::MAX,
            u@.len() == row * hw,
            v@.len() == row * hw,
            forall|r: int, c: int| 0 <= r < row && 0 <= c < hw ==> {
                &&& #[trigger] u@[r * hw + c] == uv@[r * stride + 2 * c]
                &&& v@[r * hw + c] == uv@[r * stride + 2 * c + 1]
            },
        decreases hh - row,
    {
        assert(row * stride <= (hh - 1) * stride) by (nonlinear_arith) requires row <= hh - 1, stride >= 0;
        assert((hh - 1) * stride <= hh * stride) by (nonlinear_arith) requires hh >= 1, stride >= 0;
        let base = row * stride;
        let ghost u0 = u@;
        let ghost v0 = v@;
        let mut col: usize = 0;
        while col < hw
            invariant
                hw == w / 2,
                hh == h / 2,
                row < hh,
                base == row * stride,
                base + w <= uv@.len(),
                ulen == uv@.len(),
                hw * hh <= usize::MAX,
                u0.len() == row * hw,
                v0.len() == row * hw,
                col <= hw,
                u@ == u0 + Seq::new(col as nat, |c: int| uv@[base + 2 * c]),
                v@ == v0 + Seq::new(col as nat, |c: int| uv@[base + 2 * c + 1]),
            decreases hw - col,
        {
            assert(row * hw + col < hw * hh) by (nonlinear_arith) requires row < hh, col < hw;
            assert(col * 2 + 1 < w) by (nonlinear_arith) requires col < hw, hw == w / 2;
            u.push(uv[base + col * 2]);
            v.push(uv[base + col * 2 + 1]);
            col += 1;
            assert(u@ =~= u0 + Seq::new(col as nat, |c: int| uv@[base + 2 * c]));
            assert(v@ =~= v0 + Seq::new(col as nat, |c: int| uv@[base + 2 * c + 1]));
        }
        proof {
            assert forall|r: int, c: int| 0 <= r < row + 1 && 0 <= c < hw implies {
                &&& #[trigger] u@[r * hw + c] == uv@[r * stride + 2 * c]
                &&& v@[r * hw + c] == uv@[r * stride + 2 * c + 1]
            } by {
                if r < row {
                    lemma_cell_before_row(r, c, hw as int, row as int);
                    assert(u@[r * hw + c] == u0[r * hw + c]);
                    assert(v@[r * hw + c] == v0[r * hw + c]);
                } else {
                    assert(r * hw + c - u0.len() == c);
                }
            }
            assert((row + 1) * hw == row * hw + hw) by (nonlinear_arith);
        }
        row += 1;
    }
    assert(hh * hw == hw * hh) by (nonlinear_arith);
    (u, v)
}

// ---------------------------------------------------------------------------
// Renderer decisions
// ---------------------------------------------------------------------------

/// Pixel layout of a frame to upload.
#[derive(Debug, Clone, Copy, PartialEq, Eq, Structural)]
pub enum FrameFormat {
    Nv12,
    I420,
}

/// The stream must be rotated onto the canvas when exactly one of them is
/// portrait.
pub fn is_rotated(stream_w: u32, stream_h: u32, canvas_w: u32, canvas_h: u32) -> (r: bool)
    ensures
        r == ((stream_h > stream_w) != (canvas_h > canvas_w)),
{
    (stream_h > stream_w) != (canvas_h > canvas_w)
}

/// A new resident texture is needed when there is none or its size or
/// format differs from the frame's.
pub fn needs_new_texture(current: Option<(u32, u32, FrameFormat)>, w: u32, h: u32, fmt: FrameFormat) -> (r: bool)
    ensures
        r == match current {
            Some((cw, ch, cf)) => cw != w || ch != h || cf != fmt,
            None => true,
        },
{
    match current {
        Some((cw, ch, cf)) => cw != w || ch != h || cf != fmt,
        None => true,
    }
}

/// `b + shift` clamped to a byte.
pub open spec fn tinted(b: u8, shift: i16) -> u8 {
    let x = b as int + shift as int;
    if x < 0 { 0 } else if x > 255 { 255 } else { x as u8 }
}

/// Shift every byte of a chroma plane by `shift`, clamped to a byte.
pub fn tint_plane(plane: &mut Vec<u8>, shift: i16)
    ensures
        final(plane)@.len() == old(plane)@.len(),
        forall|i: int| 0 <= i < old(plane)@.len() ==> #[trigger] final(plane)@[i] == tinted(old(plane)@[i], shift),
{
    let mut i: usize = 0;
    while i < plane.len()
        invariant
            i <= plane@.len(),
            plane@.len() == old(plane)@.len(),
            forall|k: int| 0 <= k < i ==> #[trigger] plane@[k] == tinted(old(plane)@[k], shift),
            forall|k: int| i <= k < plane@.len() ==> #[trigger] plane@[k] == old(plane)@[k],
        decreases plane@.len() - i,
    {
        let x: i32 = plane[i] as i32 + shift as i32;
        let t: u8 = if x < 0 { 0 } else if x > 255 { 255 } else { x as u8 };
        plane.set(i, t);
        i += 1;
    }
}

/// Shift an interleaved chroma plane: even bytes (U) by `u_shift`, odd
/// bytes (V) by `v_shift`, each clamped; a trailing odd byte is left as it
/// is.
pub fn tint_interleaved(uv: &mut Vec<u8>, u_shift: i16, v_shift: i16)
    ensures
        final(uv)@.len() == old(uv)@.len(),
        forall|i: int| 0 <= i < old(uv)@.len() ==> #[trigger] final(uv)@[i] == if i >= old(uv)@.len() / 2 * 2 {
            old(uv)@[i]
        } else if i % 2 == 0 {
            tinted(old(uv)@[i], u_shift)
        } else {
            tinted(old(uv)@[i], v_shift)
        },
{
    let n = uv.len() / 2 * 2;
    let mut i: usize = 0;
    while i < n
        invariant
            i <= n,
            n == old(uv)@.len() / 2 * 2,
            i % 2 == 0,
            uv@.len() == old(uv)@.len(),
            forall|k: int| 0 <= k < i ==> #[trigger] uv@[k] == if k % 2 == 0 {
                tinted(old(uv)@[k], u_shift)
            } else {
                tinted(old(uv)@[k], v_shift)
            },
            forall|k: int| i <= k < uv@.len() ==> #[trigger] uv@[k] == old(uv)@[k],
        decreases n - i,
    {
        let x: i32 = uv[i] as i32 + u_shift as i32;
        uv.set(i, if x < 0 { 0 } else if x > 255 { 255 } else { x as u8 });
        let y: i32 = uv[i + 1] as i32 + v_shift as i32;
        uv.set(i + 1, if y < 0 { 0 } else if y > 255 { 255 } else { y as u8 });
        i += 2;
    }
}

} // verus!

//! The measurement-harness receiver: a single-connection rig that parses
//! 32-byte frame records, submits each payload to the decoder under the
//! retain / drain / resubmit discipline, acknowledges it once drained, and
//! judges the run.
//!
//! The socket work stays with the caller, which feeds the connection state
//! machine below one event at a time: a header read (or its failure), a
//! payload read (or its failure), the ack write (or its failure), and a
//! clean end of stream.
use vstd::prelude::*;
use vstd::string::StringExecFns;
use crate::loop_engine::{drain_fully, flush_tail, submit_with_retry, DecoderLoopBackend};
use crate::ordinals::EmissionLog;
use crate::text::{push_decimal, push_hex2};
use crate::verdict::VerdictInputs;
use crate::counter::inc;

verus! {

/// Harness-local cap on header plus payload bytes (8 MiB).
pub const MAX_RECORD_BYTES: u64 = 8388608;
/// Bound on `Again` answers absorbed per submission.
pub const MAX_EAGAIN_CYCLES: u32 = 64;

/// A parsed frame-record header.
#[derive(Debug, Clone, Copy, PartialEq, Eq)]
pub struct RecordHeader {
    pub flags: u8,
    pub frame_ordinal: u64,
    pub capture_seq: u32,
    pub content_capture_ts_us: u64,
    pub payload_len: u32,
}

/// The outcome the record rules give for header bytes `b`: magic `VF`,
/// header length 32, no flag bit but bit 0, ordinal in `1..=i64::MAX`,
/// reserved word zero, and header plus payload within 8 MiB.
pub open spec fn header_result(b: Seq<u8>) -> Result<RecordHeader, Seq<char>> {
    if b[0] != 0x56 || b[1] != 0x46 {
        Err("bad magic: "@ + crate::text::hex2(b[0]) + " "@ + crate::text::hex2(b[1]) + " (want 56 46)"@)
    } else if b[2] != 32 {
        Err("bad headerLen: "@ + crate::text::decimal(b[2] as nat) + " (want 32)"@)
    } else if b[3] > 1 {
        Err("unknown flag bits set: 0x"@ + crate::text::hex2(b[3]))
    } else if crate::le::le64(b, 4) == 0 || crate::le::le64(b, 4) > i64::MAX {
        Err("frameOrdinal "@ + crate::text::decimal(crate::le::le64(b, 4) as nat) + " out of domain 1..i64::MAX"@)
    } else if crate::le::le32(b, 24) != 0 {
        Err("reserved field nonzero: "@ + crate::text::decimal(crate::le::le32(b, 24) as nat))
    } else if 32 + crate::le::le32(b, 28) > MAX_RECORD_BYTES {
        Err("record cap exceeded: headerLen+payloadLen="@ + crate::text::decimal((32 + crate::le::le32(b, 28)) as nat)
            + " > 8388608 (8 MiB hard sanity cap)"@)
    } else {
        Ok(RecordHeader {
            flags: b[3],
            frame_ordinal: crate::le::le64(b, 4) as u64,
            capture_seq: crate::le::le32(b, 12) as u32,
            content_capture_ts_us: crate::le::le64(b, 16) as u64,
            payload_len: crate::le::le32(b, 28) as u32,
        })
    }
}

/// The error texts of a result as character sequences.
pub open spec fn text_result(r: Result<RecordHeader, String>) -> Result<RecordHeader, Seq<char>> {
    match r {
        Ok(h) => Ok(h),
        Err(e) => Err(e@),
    }
}

/// Parse a 32-byte frame-record header.
pub fn parse_header(buf: &[u8; 32]) -> (r: Result<RecordHeader, String>)
    ensures
        text_result(r) == header_result(buf@),
{
    broadcast use vstd::array::group_array_axioms;
    let b: &[u8] = buf.as_slice();
    assert(b@ == buf@);
    if b[0] != 0x56 || b[1] != 0x46 {
        let mut e = String::from_str("bad magic: ");
        push_hex2(&mut e, b[0]);
        e.append(" ");
        push_hex2(&mut e, b[1]);
        e.append(" (want 56 46)");
        return Err(e);
    }
    let header_len = b[2];
    if header_len != 32 {
        let mut e = String::from_str("bad headerLen: ");
        push_decimal(&mut e, header_len as u64);
        e.append(" (want 32)");
        return Err(e);
    }
    let flags = b[3];
    if flags > 1 {
        let mut e = String::from_str("unknown flag bits set: 0x");
        push_hex2(&mut e, flags);
        return Err(e);
    }
    let frame_ordinal = crate::le::u64le(b, 4);
    if frame_ordinal == 0 || frame_ordinal > 0x7FFF_FFFF_FFFF_FFFF {
        let mut e = String::from_str("frameOrdinal ");
        push_decimal(&mut e, frame_ordinal);
        e.append(" out of domain 1..i64::MAX");
        return Err(e);
    }
    let capture_seq = crate::le::u32le(b, 12);
    let content_capture_ts_us = crate::le::u64le(b, 16);
    let reserved = crate::le::u32le(b, 24);
    if reserved != 0 {
        let mut e = String::from_str("reserved field nonzero: ");
        push_decimal(&mut e, reserved as u64);
        return Err(e);
    }
    let payload_len = crate::le::u32le(b, 28);
    let total: u64 = 32u64 + payload_len as u64;
    if total > MAX_RECORD_BYTES {
        let mut e = String::from_str("record cap exceeded: headerLen+payloadLen=");
        push_decimal(&mut e, total);
        e.append(" > 8388608 (8 MiB hard sanity cap)");
        return Err(e);
    }
    Ok(RecordHeader { flags, frame_ordinal, capture_seq, content_capture_ts_us, payload_len })
}

/// The rig's private 12-byte acknowledgement: `AK`, two reserved zero
/// bytes, and the ordinal as little-endian `u64`.
pub fn build_ack(frame_ordinal: u64) -> (a: [u8; 12])
    ensures
        a@.subrange(0, 4) == seq![0x41u8, 0x4Bu8, 0u8, 0u8],
        crate::le::le64(a@, 4) == frame_ordinal,
{
    let mut buf = [0u8; 12];
    buf[0] = 0x41;
    buf[1] = 0x4B;
    let le = crate::le::u64_to_le(frame_ordinal);
    let mut i: usize = 0;
    while i < 8
        invariant
            i <= 8,
            buf@.len() == 12,
            buf@[0] == 0x41 && buf@[1] == 0x4B && buf@[2] == 0 && buf@[3] == 0,
            le@.len() == 8,
            forall|k: int| 0 <= k < i ==> buf@[4 + k] == le@[k],
        decreases 8 - i,
    {
        buf[4 + i] = le[i];
        i += 1;
    }
    proof {
        assert(buf@.subrange(0, 4) =~= seq![0x41u8, 0x4Bu8, 0u8, 0u8]);
        assert(buf@.subrange(4, 12) =~= le@);
        crate::le::lemma_le64_of_bytes(buf@, 4, le@, frame_ordinal);
    }
    buf
}

// ---------------------------------------------------------------------------
// Connection state machine
// ---------------------------------------------------------------------------

/// Abstract state of a connection.
pub struct ConnView {
    pub frames_received: u64,
    pub frames_accepted: u64,
    pub frames_acked: u64,
    pub emissions: crate::ordinals::EmissionState,
    pub max_decode_lag: i64,
    pub torn_down: bool,
    pub fail_reasons: Seq<Seq<char>>,
    pub eagain_retries: u64,
    pub ack_order_violations: u64,
    pub protocol_errors: u64,
    pub fatal_decoder_errors: u64,
    pub outstanding: u64,
    pub last_acked: Option<u64>,
    pub pending_ack: Option<u64>,
    pub clean_eof_tail_drain: bool,
}

/// The texts of a list of strings.
pub open spec fn texts(v: Seq<String>) -> Seq<Seq<char>> {
    Seq::new(v.len(), |i: int| v[i]@)
}

/// Decode lag: accepted minus emitted, as a wrapped `i64`.
pub open spec fn lag_of(accepted: u64, emitted: u64) -> i64 {
    (accepted - emitted) as i64
}

/// The larger of two lags.
pub open spec fn max_lag(a: i64, b: i64) -> i64 {
    if b > a { b } else { a }
}

/// A view torn down with reason `msg`.
pub open spec fn torn(v: ConnView, msg: Seq<char>) -> ConnView {
    ConnView { torn_down: true, fail_reasons: v.fail_reasons.push(msg), pending_ack: None, ..v }
}

/// After a record passed the ack-order check and was accepted after the
/// `Again` rounds `ds`: counted as accepted and outstanding, one retry per
/// round, the rounds' frames recorded, and the decode lag updated.
pub open spec fn after_acceptance(v: ConnView, ds: Seq<Seq<Option<i64>>>) -> ConnView {
    let accepted = crate::counter::bump(v.frames_accepted);
    let em = crate::ordinals::emissions_after(v.emissions, ds.flatten());
    ConnView {
        frames_accepted: accepted,
        outstanding: crate::counter::bump(v.outstanding),
        eagain_retries: crate::counter::bump_times(v.eagain_retries, ds.len()),
        emissions: em,
        max_decode_lag: max_lag(v.max_decode_lag, lag_of(accepted, em.counts.emitted)),
        ..v
    }
}

pub open spec fn ack_order_message(ordinal: u64, prev: u64) -> Seq<char> {
    "ACK-order violation: ordinal "@ + crate::text::decimal(ordinal as nat) + " did not increase past last-acked "@
        + crate::text::decimal(prev as nat)
}

pub open spec fn submit_teardown_message(ordinal: u64, e: Seq<char>) -> Seq<char> {
    "teardown at ordinal "@ + crate::text::decimal(ordinal as nat) + ": "@ + e
}

pub open spec fn drain_teardown_message(ordinal: u64, e: Seq<char>) -> Seq<char> {
    "teardown draining ordinal "@ + crate::text::decimal(ordinal as nat) + ": "@ + e
}

/// How one received record ends, as a relation between the connection
/// and backend before and after and the acknowledgement handed back.
pub open spec fn record_step(
    v: ConnView,
    calls: Seq<crate::loop_engine::BackendCall>,
    h: RecordHeader,
    payload: Seq<u8>,
    v2: ConnView,
    calls2: Seq<crate::loop_engine::BackendCall>,
    ack: Option<u64>,
) -> bool {
    let v1 = ConnView { frames_received: crate::counter::bump(v.frames_received), ..v };
    let ord = h.frame_ordinal as i64;
    if v.last_acked is Some && h.frame_ordinal <= v.last_acked.unwrap() {
        &&& calls2 == calls
        &&& ack is None
        &&& v2 == torn(ConnView { ack_order_violations: crate::counter::bump(v.ack_order_violations), ..v1 },
            ack_order_message(h.frame_ordinal, v.last_acked.unwrap()))
    } else {
        ||| exists|e: Seq<char>| {
            &&& #[trigger] crate::loop_engine::submit_error_after(calls, calls2, ord, payload, MAX_EAGAIN_CYCLES, e)
            &&& ack is None
            &&& v2 == torn(ConnView { fatal_decoder_errors: crate::counter::bump(v.fatal_decoder_errors), ..v1 },
                submit_teardown_message(h.frame_ordinal, e))
        }
        ||| exists|ds: Seq<Seq<Option<i64>>>, tail: Seq<Option<i64>>|
            #[trigger] record_acked(v1, calls, h, payload, v2, calls2, ack, ds, tail)
        ||| exists|ds: Seq<Seq<Option<i64>>>, e: Seq<char>|
            #[trigger] record_drain_failed(v1, calls, h, payload, v2, calls2, ack, ds, e)
    }
}

/// The record was accepted after the `Again` rounds `ds`, its drain
/// recovered `tail`, and its ordinal awaits acknowledgement.
pub open spec fn record_acked(
    v1: ConnView,
    calls: Seq<crate::loop_engine::BackendCall>,
    h: RecordHeader,
    payload: Seq<u8>,
    v2: ConnView,
    calls2: Seq<crate::loop_engine::BackendCall>,
    ack: Option<u64>,
    ds: Seq<Seq<Option<i64>>>,
    tail: Seq<Option<i64>>,
) -> bool {
    let ord = h.frame_ordinal as i64;
    let a = after_acceptance(v1, ds);
    &&& ds.len() <= MAX_EAGAIN_CYCLES
    &&& calls2 == calls + crate::loop_engine::accepted_submission(ord, payload, ds) + crate::loop_engine::drained(tail)
    &&& ack == Some(h.frame_ordinal)
    &&& v2 == ConnView {
        emissions: crate::ordinals::emissions_after(a.emissions, tail),
        pending_ack: Some(h.frame_ordinal),
        ..a
    }
}

/// The record was accepted after the `Again` rounds `ds` and its drain
/// failed with `e`, tearing the connection down.
pub open spec fn record_drain_failed(
    v1: ConnView,
    calls: Seq<crate::loop_engine::BackendCall>,
    h: RecordHeader,
    payload: Seq<u8>,
    v2: ConnView,
    calls2: Seq<crate::loop_engine::BackendCall>,
    ack: Option<u64>,
    ds: Seq<Seq<Option<i64>>>,
    e: Seq<char>,
) -> bool {
    let ord = h.frame_ordinal as i64;
    &&& ds.len() <= MAX_EAGAIN_CYCLES
    &&& crate::loop_engine::failed_drain_after(calls + crate::loop_engine::accepted_submission(ord, payload, ds), calls2, e)
    &&& ack is None
    &&& v2 == torn(ConnView {
        fatal_decoder_errors: crate::counter::bump(v1.fatal_decoder_errors),
        ..after_acceptance(v1, ds)
    }, drain_teardown_message(h.frame_ordinal, e))
}

/// One connection of the harness, fed one event at a time.
pub struct Connection {
    frames_received: u64,
    frames_accepted: u64,
    frames_acked: u64,
    log: EmissionLog,
    max_decode_lag: i64,
    torn_down: bool,
    fail_reasons: Vec<String>,
    eagain_retries: u64,
    ack_order_violations: u64,
    protocol_errors: u64,
    fatal_decoder_errors: u64,
    outstanding: u64,
    last_acked: Option<u64>,
    pending_ack: Option<u64>,
    clean_eof_tail_drain: bool,
}

/// Everything a connection produced, for the report.
#[derive(Debug, Clone)]
pub struct ConnectionSummary {
    pub frames_received: u64,
    pub frames_accepted: u64,
    pub frames_acked: u64,
    pub frames_emitted: u64,
    pub unknown_pts: u64,
    pub duplicates: u64,
    pub reorders: u64,
    pub skips: u64,
    pub max_decode_lag: i64,
    pub torn_down: bool,
    pub fail_reasons: Vec<String>,
    pub eagain_retries: u64,
    pub ack_order_violations: u64,
    pub protocol_errors: u64,
    pub fatal_decoder_errors: u64,
    pub outstanding_at_exit: u64,
    pub clean_eof_tail_drain: bool,
}

impl Connection {
    pub closed spec fn view(&self) -> ConnView {
        ConnView {
            frames_received: self.frames_received,
            frames_accepted: self.frames_accepted,
            frames_acked: self.frames_acked,
            emissions: self.log.state(),
            max_decode_lag: self.max_decode_lag,
            torn_down: self.torn_down,
            fail_reasons: texts(self.fail_reasons@),
            eagain_retries: self.eagain_retries,
            ack_order_violations: self.ack_order_violations,
            protocol_errors: self.protocol_errors,
            fatal_decoder_errors: self.fatal_decoder_errors,
            outstanding: self.outstanding,
            last_acked: self.last_acked,
            pending_ack: self.pending_ack,
            clean_eof_tail_drain: self.clean_eof_tail_drain,
        }
    }

    /// A connection before its first record.
    pub fn new() -> (c: Self)
        ensures
            c.view() == (ConnView {
                frames_received: 0,
                frames_accepted: 0,
                frames_acked: 0,
                emissions: crate::ordinals::initial_emission_state(),
                max_decode_lag: 0,
                torn_down: false,
                fail_reasons: Seq::empty(),
                eagain_retries: 0,
                ack_order_violations: 0,
                protocol_errors: 0,
                fatal_decoder_errors: 0,
                outstanding: 0,
                last_acked: None,
                pending_ack: None,
                clean_eof_tail_drain: false,
            }),
    {
        let c = Connection {
            frames_received: 0,
            frames_accepted: 0,
            frames_acked: 0,
            log: EmissionLog::new(),
            max_decode_lag: 0,
            torn_down: false,
            fail_reasons: Vec::new(),
            eagain_retries: 0,
            ack_order_violations: 0,
            protocol_errors: 0,
            fatal_decoder_errors: 0,
            outstanding: 0,
            last_acked: None,
            pending_ack: None,
            clean_eof_tail_drain: false,
        };
        assert(texts(c.fail_reasons@) =~= Seq::<Seq<char>>::empty());
        c
    }

    fn tear_down(&mut self, msg: String)
        ensures
            final(self).view() == torn(old(self).view(), msg@),
    {
        self.torn_down = true;
        self.pending_ack = None;
        let ghost before = self.fail_reasons@;
        self.fail_reasons.push(msg);
        assert(texts(self.fail_reasons@) =~= texts(before).push(msg@));
    }

    /// Reading a header failed other than at a record boundary.
    pub fn on_header_read_error(&mut self, error: &str)
        ensures
            final(self).view() == torn(old(self).view(), "header read error: "@ + error@),
    {
        let mut msg = String::from_str("header read error: ");
        msg.append(error);
        self.tear_down(msg);
    }

    /// A 32-byte header arrived: its parsed form, or a protocol violation
    /// that tears the connection down.
    pub fn on_header(&mut self, buf: &[u8; 32]) -> (r: Option<RecordHeader>)
        ensures
            match header_result(buf@) {
                Ok(h) => r == Some(h) && final(self).view() == old(self).view(),
                Err(e) => r is None && final(self).view() == torn(
                    ConnView { protocol_errors: crate::counter::bump(old(self).view().protocol_errors), ..old(self).view() },
                    "PROTOCOL_VIOLATION parsing header: "@ + e),
            },
    {
        match parse_header(buf) {
            Ok(h) => Some(h),
            Err(reason) => {
                let mut msg = String::from_str("PROTOCOL_VIOLATION parsing header: ");
                msg.append(reason.as_str());
                self.protocol_errors = inc(self.protocol_errors);
                self.tear_down(msg);
                None
            },
        }
    }

    /// Reading the payload of `header` failed.
    pub fn on_payload_read_error(&mut self, header: &RecordHeader, error: &str)
        ensures
            final(self).view() == torn(old(self).view(),
                "payload read error (ordinal "@ + crate::text::decimal(header.frame_ordinal as nat) + ", "@
                    + crate::text::decimal(header.payload_len as nat) + " bytes): "@ + error@),
    {
        let mut msg = String::from_str("payload read error (ordinal ");
        push_decimal(&mut msg, header.frame_ordinal);
        msg.append(", ");
        push_decimal(&mut msg, header.payload_len as u64);
        msg.append(" bytes): ");
        msg.append(error);
        self.tear_down(msg);
    }

    fn record_drains(&mut self, drains: &Vec<Vec<Option<i64>>>)
        ensures
            final(self).view() == (ConnView {
                emissions: crate::ordinals::emissions_after(old(self).view().emissions,
                    crate::loop_engine::drains_view(drains@).flatten()),
                ..old(self).view()
            }),
    {
        let ghost ds = crate::loop_engine::drains_view(drains@);
        let mut i: usize = 0;
        while i < drains.len()
            invariant
                i <= drains@.len(),
                ds == crate::loop_engine::drains_view(drains@),
                self.view() == (ConnView {
                    emissions: crate::ordinals::emissions_after(old(self).view().emissions, ds.take(i as int).flatten()),
                    ..old(self).view()
                }),
            decreases drains@.len() - i,
        {
            let ghost before = self.log.state();
            self.log.record_all(&drains[i]);
            proof {
                assert(ds.take(i + 1) =~= ds.take(i as int).push(ds[i as int]));
                ds.take(i as int).lemma_flatten_push(ds[i as int]);
                lemma_emissions_concat(old(self).view().emissions, ds.take(i as int).flatten(), ds[i as int]);
            }
            i += 1;
        }
        assert(ds.take(i as int) =~= ds);
    }

    /// A full record arrived: check the ack order, submit the payload,
    /// drain, and hand back the ordinal to acknowledge, or tear down.
    pub fn on_record<B: DecoderLoopBackend>(&mut self, backend: &mut B, header: &RecordHeader, payload: &[u8])
        -> (ack: Option<u64>)
        requires
            header.frame_ordinal <= i64::MAX,
        ensures
            record_step(old(self).view(), old(backend).calls(), *header, payload@, final(self).view(),
                final(backend).calls(), ack),
    {
        self.frames_received = inc(self.frames_received);
        if let Some(prev) = self.last_acked {
            if header.frame_ordinal <= prev {
                let mut msg = String::from_str("ACK-order violation: ordinal ");
                push_decimal(&mut msg, header.frame_ordinal);
                msg.append(" did not increase past last-acked ");
                push_decimal(&mut msg, prev);
                self.ack_order_violations = inc(self.ack_order_violations);
                self.tear_down(msg);
                return None;
            }
        }
        let ghost v1 = self.view();
        let ord = header.frame_ordinal as i64;
        let ghost calls0 = backend.calls();
        match submit_with_retry(backend, ord, payload, MAX_EAGAIN_CYCLES) {
            Err(reason) => {
                let mut msg = String::from_str("teardown at ordinal ");
                push_decimal(&mut msg, header.frame_ordinal);
                msg.append(": ");
                msg.append(reason.as_str());
                self.fatal_decoder_errors = inc(self.fatal_decoder_errors);
                self.tear_down(msg);
                assert(crate::loop_engine::submit_error_after(calls0, backend.calls(), ord, payload@, MAX_EAGAIN_CYCLES, reason@));
                return None;
            },
            Ok(record) => {
                let ghost ds = crate::loop_engine::drains_view(record.drains@);
                self.frames_accepted = inc(self.frames_accepted);
                self.outstanding = inc(self.outstanding);
                let ghost pre = self.view();
                let mut k: usize = 0;
                while k < record.drains.len()
                    invariant
                        k <= record.drains@.len(),
                        self.view() == (ConnView {
                            eagain_retries: crate::counter::bump_times(v1.eagain_retries, k as nat),
                            ..pre
                        }),
                    decreases record.drains@.len() - k,
                {
                    self.eagain_retries = inc(self.eagain_retries);
                    k += 1;
                }
                self.record_drains(&record.drains);
                let cand: i64 = (self.frames_accepted as i128 - self.log.counts().emitted as i128) as i64;
                if cand > self.max_decode_lag {
                    self.max_decode_lag = cand;
                }
                let ghost mid = backend.calls();
                assert(self.view() == after_acceptance(v1, ds));
                match drain_fully(backend) {
                    Ok(drain) => {
                        self.log.record_all(&drain);
                        self.pending_ack = Some(header.frame_ordinal);
                        assert(backend.calls() == calls0 + crate::loop_engine::accepted_submission(ord, payload@, ds)
                            + crate::loop_engine::drained(drain@));
                        assert(record_acked(v1, calls0, *header, payload@, self.view(), backend.calls(),
                            Some(header.frame_ordinal), ds, drain@));
                        return Some(header.frame_ordinal);
                    },
                    Err(reason) => {
                        let mut msg = String::from_str("teardown draining ordinal ");
                        push_decimal(&mut msg, header.frame_ordinal);
                        msg.append(": ");
                        msg.append(reason.as_str());
                        self.fatal_decoder_errors = inc(self.fatal_decoder_errors);
                        self.tear_down(msg);
                        assert(crate::loop_engine::failed_drain_after(
                            calls0 + crate::loop_engine::accepted_submission(ord, payload@, ds), backend.calls(), reason@));
                        assert(record_drain_failed(v1, calls0, *header, payload@, self.view(), backend.calls(),
                            None, ds, reason@));
                        return None;
                    },
                }
            },
        }
    }

    /// The acknowledgement of the pending record was written.
    pub fn on_ack_written(&mut self)
        requires
            old(self).view().pending_ack is Some,
        ensures
            final(self).view() == (ConnView {
                frames_acked: crate::counter::bump(old(self).view().frames_acked),
                outstanding: crate::counter::unbump(old(self).view().outstanding),
                last_acked: old(self).view().pending_ack,
                pending_ack: None,
                ..old(self).view()
            }),
    {
        self.frames_acked = inc(self.frames_acked);
        self.outstanding = if self.outstanding == 0 { u64::MAX } else { self.outstanding - 1 };
        self.last_acked = self.pending_ack;
        self.pending_ack = None;
    }

    /// Writing the acknowledgement of the pending record failed.
    pub fn on_ack_write_error(&mut self, error: &str)
        requires
            old(self).view().pending_ack is Some,
        ensures
            final(self).view() == torn(old(self).view(),
                "ACK write failed at ordinal "@ + crate::text::decimal(old(self).view().pending_ack.unwrap() as nat)
                    + ": "@ + error@),
    {
        let ord = match self.pending_ack {
            Some(o) => o,
            None => 0,
        };
        let mut msg = String::from_str("ACK write failed at ordinal ");
        push_decimal(&mut msg, ord);
        msg.append(": ");
        msg.append(error);
        self.tear_down(msg);
    }

    /// The stream closed cleanly at a record boundary: flush the decoder's
    /// tail and record what it emits. The tail drain is clean only when the
    /// flush succeeds.
    pub fn on_clean_eof<B: DecoderLoopBackend>(&mut self, backend: &mut B)
        ensures
            (exists|ds: Seq<Seq<Option<i64>>>, tail: Seq<Option<i64>>| {
                &&& ds.len() <= MAX_EAGAIN_CYCLES
                &&& final(backend).calls() == old(backend).calls() + #[trigger] crate::loop_engine::flushed(ds, tail)
                &&& final(self).view() == (ConnView {
                    eagain_retries: crate::counter::bump_times(old(self).view().eagain_retries, ds.len()),
                    emissions: crate::ordinals::emissions_after(old(self).view().emissions, ds.flatten() + tail),
                    clean_eof_tail_drain: true,
                    ..old(self).view()
                })
            }) || (exists|e: Seq<char>| {
                &&& #[trigger] crate::loop_engine::flush_error_after(old(backend).calls(), final(backend).calls(),
                    MAX_EAGAIN_CYCLES, e)
                &&& final(self).view() == (ConnView {
                    fatal_decoder_errors: crate::counter::bump(old(self).view().fatal_decoder_errors),
                    fail_reasons: old(self).view().fail_reasons.push("tail flush error: "@ + e),
                    ..old(self).view()
                })
            }),
    {
        match flush_tail(backend, MAX_EAGAIN_CYCLES) {
            Ok(tail) => {
                let ghost pre = self.view();
                let mut k: u32 = 0;
                while k < tail.eagain_count
                    invariant
                        k <= tail.eagain_count,
                        self.view() == (ConnView {
                            eagain_retries: crate::counter::bump_times(pre.eagain_retries, k as nat),
                            ..pre
                        }),
                    decreases tail.eagain_count - k,
                {
                    self.eagain_retries = inc(self.eagain_retries);
                    k += 1;
                }
                self.log.record_all(&tail.recovered);
                self.clean_eof_tail_drain = true;
            },
            Err(reason) => {
                let mut msg = String::from_str("tail flush error: ");
                msg.append(reason.as_str());
                self.fatal_decoder_errors = inc(self.fatal_decoder_errors);
                let ghost before = self.fail_reasons@;
                self.fail_reasons.push(msg);
                assert(texts(self.fail_reasons@) =~= texts(before).push(msg@));
                assert(crate::loop_engine::flush_error_after(old(backend).calls(), backend.calls(), MAX_EAGAIN_CYCLES, reason@));
            },
        }
    }

    /// The terms the run is judged by. Every accepted record was submitted
    /// exactly once, so accepted stands for submitted.
    pub fn verdict_inputs(&self) -> (v: VerdictInputs)
        ensures
            v == (VerdictInputs {
                frames_accepted: self.view().frames_accepted,
                frames_acked: self.view().frames_acked,
                frames_emitted: self.view().emissions.counts.emitted,
                frames_submitted: self.view().frames_accepted,
                unknown_pts: self.view().emissions.counts.unknown_pts,
                duplicates: self.view().emissions.counts.duplicates,
                reorders: self.view().emissions.counts.reorders,
                skips: self.view().emissions.counts.skips,
                ack_order_violations: self.view().ack_order_violations,
                protocol_errors: self.view().protocol_errors,
                fatal_decoder_errors: self.view().fatal_decoder_errors,
                clean_eof_tail_drain: self.view().clean_eof_tail_drain,
                outstanding_at_exit: self.view().outstanding,
            }),
    {
        let c = self.log.counts();
        VerdictInputs {
            frames_accepted: self.frames_accepted,
            frames_acked: self.frames_acked,
            frames_emitted: c.emitted,
            frames_submitted: self.frames_accepted,
            unknown_pts: c.unknown_pts,
            duplicates: c.duplicates,
            reorders: c.reorders,
            skips: c.skips,
            ack_order_violations: self.ack_order_violations,
            protocol_errors: self.protocol_errors,
            fatal_decoder_errors: self.fatal_decoder_errors,
            clean_eof_tail_drain: self.clean_eof_tail_drain,
            outstanding_at_exit: self.outstanding,
        }
    }

    /// Everything the connection produced.
    pub fn summary(&self) -> (r: ConnectionSummary)
        ensures
            r.frames_received == self.view().frames_received,
            r.frames_accepted == self.view().frames_accepted,
            r.frames_acked == self.view().frames_acked,
            r.frames_emitted == self.view().emissions.counts.emitted,
            r.unknown_pts == self.view().emissions.counts.unknown_pts,
            r.duplicates == self.view().emissions.counts.duplicates,
            r.reorders == self.view().emissions.counts.reorders,
            r.skips == self.view().emissions.counts.skips,
            r.max_decode_lag == self.view().max_decode_lag,
            r.torn_down == self.view().torn_down,
            texts(r.fail_reasons@) == self.view().fail_reasons,
            r.eagain_retries == self.view().eagain_retries,
            r.ack_order_violations == self.view().ack_order_violations,
            r.protocol_errors == self.view().protocol_errors,
            r.fatal_decoder_errors == self.view().fatal_decoder_errors,
            r.outstanding_at_exit == self.view().outstanding,
            r.clean_eof_tail_drain == self.view().clean_eof_tail_drain,
    {
        let c = self.log.counts();
        let mut fail_reasons: Vec<String> = Vec::new();
        let mut i: usize = 0;
        while i < self.fail_reasons.len()
            invariant
                i <= self.fail_reasons@.len(),
                texts(fail_reasons@) == texts(self.fail_reasons@).take(i as int),
            decreases self.fail_reasons@.len() - i,
        {
            let ghost before = fail_reasons@;
            let t = self.fail_reasons[i].clone();
            fail_reasons.push(t);
            assert(t == self.fail_reasons@[i as int]);
            assert(texts(fail_reasons@) =~= texts(before).push(t@));
            assert(texts(self.fail_reasons@).take(i + 1) =~= texts(self.fail_reasons@).take(i as int).push(t@));
            i += 1;
        }
        assert(texts(self.fail_reasons@).take(i as int) =~= texts(self.fail_reasons@));
        ConnectionSummary {
            frames_received: self.frames_received,
            frames_accepted: self.frames_accepted,
            frames_acked: self.frames_acked,
            frames_emitted: c.emitted,
            unknown_pts: c.unknown_pts,
            duplicates: c.duplicates,
            reorders: c.reorders,
            skips: c.skips,
            max_decode_lag: self.max_decode_lag,
            torn_down: self.torn_down,
            fail_reasons,
            eagain_retries: self.eagain_retries,
            ack_order_violations: self.ack_order_violations,
            protocol_errors: self.protocol_errors,
            fatal_decoder_errors: self.fatal_decoder_errors,
            outstanding_at_exit: self.outstanding,
            clean_eof_tail_drain: self.clean_eof_tail_drain,
        }
    }
}

/// Acknowledgements go out in strictly increasing ordinal order: a record
/// step hands back an ordinal to acknowledge only when it exceeds the last
/// one acknowledged.
pub proof fn lemma_acks_strictly_increase(
    v: ConnView,
    calls: Seq<crate::loop_engine::BackendCall>,
    h: RecordHeader,
    payload: Seq<u8>,
    v2: ConnView,
    calls2: Seq<crate::loop_engine::BackendCall>,
    ack: Option<u64>,
)
    requires
        record_step(v, calls, h, payload, v2, calls2, ack),
        ack is Some,
    ensures
        ack == Some(h.frame_ordinal),
        v2.pending_ack == ack,
        v.last_acked matches Some(prev) ==> h.frame_ordinal > prev,
{
}

/// Recording `a` then `b` is recording `a + b`.
pub proof fn lemma_emissions_concat(s: crate::ordinals::EmissionState, a: Seq<Option<i64>>, b: Seq<Option<i64>>)
    ensures
        crate::ordinals::emissions_after(crate::ordinals::emissions_after(s, a), b)
            == crate::ordinals::emissions_after(s, a + b),
    decreases b.len(),
{
    if b.len() == 0 {
        assert(a + b =~= a);
    } else {
        lemma_emissions_concat(s, a, b.drop_last());
        assert((a + b).drop_last() =~= a + b.drop_last());
    }
}

} // verus!

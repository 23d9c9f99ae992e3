//! The decode-loop engine: submit a packet under the retain / drain /
//! resubmit discipline, drain every ready frame, and flush the tail at end
//! of stream.
//!
//! The engine is generic over [`DecoderLoopBackend`], the seam a real
//! decoder or a scripted double implements. Each backend keeps, as a model,
//! the log of calls made on it ([`DecoderLoopBackend::calls`]); the
//! contracts below say exactly which calls the engine makes and how it
//! turns their outcomes into its result.
use vstd::prelude::*;
use vstd::string::StringExecFns;
use crate::text::{push_decimal, push_signed_decimal};

verus! {

/// Outcome of one `send_packet` or `send_eof` attempt.
#[derive(Debug, Clone, Copy, PartialEq, Eq)]
pub enum SendOutcome {
    /// The packet (or end-of-stream signal) was accepted.
    Accepted,
    /// The decoder's output must be drained before it accepts anything
    /// else; the caller retains and resubmits the identical packet.
    Again,
}

/// Outcome of one `receive_frame` attempt.
#[derive(Debug, Clone, Copy, PartialEq, Eq)]
pub enum FrameOutcome {
    /// A frame was produced, with its recovered ordinal when the backend
    /// set one.
    Frame(Option<i64>),
    /// Nothing ready right now.
    Empty,
}

/// One call made on a backend, with its arguments and outcome (errors by
/// their text).
pub enum BackendCall {
    SendPacket(i64, Seq<u8>, Result<SendOutcome, Seq<char>>),
    ReceiveFrame(Result<FrameOutcome, Seq<char>>),
    SendEof(Result<SendOutcome, Seq<char>>),
}

/// A result with its error seen as text.
pub open spec fn result_view<T>(r: Result<T, String>) -> Result<T, Seq<char>> {
    match r {
        Ok(v) => Ok(v),
        Err(e) => Err(e@),
    }
}

/// The log of calls made on a backend, oldest first.
pub type CallLog = Seq<BackendCall>;

/// A count of frames a backend can still hand out.
pub type FrameBudget = nat;

/// The seam the engine drives: one method per decoder call.
///
/// Implementations model two things: the log of calls made on them, to
/// which each method appends itself, and the number of frames they can
/// still hand out before `receive_frame` reports `Empty` (a decoder holds
/// finitely many decoded frames; handing one out consumes it).
pub trait DecoderLoopBackend {
    /// Calls made on this backend so far, oldest first.
    spec fn calls(&self) -> CallLog;

    /// Frames that `receive_frame` can still produce before it reports
    /// `Empty` or fails.
    spec fn ready_frames(&self) -> FrameBudget;

    /// Submit one packet carrying `ordinal` as its presentation timestamp.
    fn send_packet(&mut self, ordinal: i64, data: &[u8]) -> (r: Result<SendOutcome, String>)
        ensures
            final(self).calls() == old(self).calls().push(BackendCall::SendPacket(ordinal, data@, result_view(r))),
    ;

    /// Attempt to receive one decoded frame.
    fn receive_frame(&mut self) -> (r: Result<FrameOutcome, String>)
        ensures
            final(self).calls() == old(self).calls().push(BackendCall::ReceiveFrame(result_view(r))),
            r matches Ok(FrameOutcome::Frame(_)) ==> final(self).ready_frames() < old(self).ready_frames(),
    ;

    /// Signal end of stream.
    fn send_eof(&mut self) -> (r: Result<SendOutcome, String>)
        ensures
            final(self).calls() == old(self).calls().push(BackendCall::SendEof(result_view(r))),
    ;
}

/// One `send_packet` attempt within a submission.
#[derive(Debug, Clone, Copy, PartialEq, Eq)]
pub struct AttemptRecord {
    pub again: bool,
}

/// What [`submit_with_retry`] observed getting one packet accepted: every
/// attempt in order (all `again` but the last), and per `again` the
/// ordinals its drain recovered, in receive order.
#[derive(Debug, Clone, PartialEq, Eq)]
pub struct SubmitRecord {
    pub attempts: Vec<AttemptRecord>,
    pub drains: Vec<Vec<Option<i64>>>,
}

/// Everything [`flush_tail`] observed: every recovered ordinal across the
/// whole flush in receive order, and how many times `send_eof` was
/// answered `Again` before it was accepted.
#[derive(Debug, Clone, PartialEq, Eq)]
pub struct FlushRecord {
    pub recovered: Vec<Option<i64>>,
    pub eagain_count: u32,
}

/// Receives that each hand out one frame, with the ordinals `ords`.
pub open spec fn frame_receives(ords: Seq<Option<i64>>) -> Seq<BackendCall> {
    Seq::new(ords.len(), |i: int| BackendCall::ReceiveFrame(Ok(FrameOutcome::Frame(ords[i]))))
}

/// A drain that recovered `ords` and then found nothing ready.
pub open spec fn drained(ords: Seq<Option<i64>>) -> Seq<BackendCall> {
    frame_receives(ords).push(BackendCall::ReceiveFrame(Ok(FrameOutcome::Empty)))
}

/// A drain that recovered `ords` and then failed with `e`.
pub open spec fn drain_failed(ords: Seq<Option<i64>>, e: Seq<char>) -> Seq<BackendCall> {
    frame_receives(ords).push(BackendCall::ReceiveFrame(Err(e)))
}

/// `after` is `before` followed by a drain that failed with `e`.
pub open spec fn failed_drain_after(before: Seq<BackendCall>, after: Seq<BackendCall>, e: Seq<char>) -> bool {
    exists|ords: Seq<Option<i64>>| after == before + #[trigger] drain_failed(ords, e)
}

/// Rounds of "send answered `Again`, then a complete drain", one per entry
/// of `drains`.
pub open spec fn again_rounds(ordinal: i64, data: Seq<u8>, drains: Seq<Seq<Option<i64>>>) -> Seq<BackendCall>
    decreases drains.len(),
{
    if drains.len() == 0 {
        Seq::empty()
    } else {
        again_rounds(ordinal, data, drains.drop_last()).push(
            BackendCall::SendPacket(ordinal, data, Ok(SendOutcome::Again)),
        ) + drained(drains.last())
    }
}

/// Rounds of "end of stream answered `Again`, then a complete drain".
pub open spec fn eof_again_rounds(drains: Seq<Seq<Option<i64>>>) -> Seq<BackendCall>
    decreases drains.len(),
{
    if drains.len() == 0 {
        Seq::empty()
    } else {
        eof_again_rounds(drains.drop_last()).push(BackendCall::SendEof(Ok(SendOutcome::Again)))
            + drained(drains.last())
    }
}

/// Calls of a submission of `(ordinal, data)` accepted after the `Again`
/// rounds `ds`.
pub open spec fn accepted_submission(ordinal: i64, data: Seq<u8>, ds: Seq<Seq<Option<i64>>>) -> Seq<BackendCall> {
    again_rounds(ordinal, data, ds).push(BackendCall::SendPacket(ordinal, data, Ok(SendOutcome::Accepted)))
}

/// Error text when a packet is still refused after `attempts` attempts.
pub open spec fn submit_limit_message(attempts: nat, ordinal: int) -> Seq<char> {
    "send_packet EAGAIN did not converge after "@ + crate::text::decimal(attempts)
        + " attempts for ordinal "@ + crate::text::signed_decimal(ordinal)
}

/// Error text when end of stream is still refused after `attempts` tries.
pub open spec fn eof_limit_message(attempts: nat) -> Seq<char> {
    "send_eof EAGAIN did not converge after "@ + crate::text::decimal(attempts) + " attempts"@
}

/// The drains of a record, each by its contents.
pub open spec fn drains_view(d: Seq<Vec<Option<i64>>>) -> Seq<Seq<Option<i64>>> {
    Seq::new(d.len(), |i: int| d[i]@)
}

/// `n` attempts answered `Again` followed by the accepted one.
pub open spec fn accepted_after(n: nat) -> Seq<AttemptRecord> {
    Seq::new(n, |i: int| AttemptRecord { again: true }).push(AttemptRecord { again: false })
}

/// Calls of a submission of `(ordinal, data)` that ended in error `e`,
/// after the complete `Again` rounds `ds`: the next send failed; or it was
/// answered `Again` once more with the attempt limit reached; or the drain
/// that followed failed.
pub open spec fn submit_failed(
    before: Seq<BackendCall>,
    after: Seq<BackendCall>,
    ordinal: i64,
    data: Seq<u8>,
    max_attempts: u32,
    ds: Seq<Seq<Option<i64>>>,
    e: Seq<char>,
) -> bool {
    let pre = before + again_rounds(ordinal, data, ds);
    let again = pre.push(BackendCall::SendPacket(ordinal, data, Ok(SendOutcome::Again)));
    &&& ds.len() <= max_attempts
    &&& {
        ||| after == pre.push(BackendCall::SendPacket(ordinal, data, Err(e)))
        ||| (ds.len() == max_attempts && after == again
            && e == submit_limit_message((ds.len() + 1) as nat, ordinal as int))
        ||| (ds.len() < max_attempts
            && failed_drain_after(again, after, e))
    }
}

/// Calls of a submission that ended in error `e`, after some number of
/// complete `Again` rounds.
pub open spec fn submit_error_after(
    before: Seq<BackendCall>,
    after: Seq<BackendCall>,
    ordinal: i64,
    data: Seq<u8>,
    max_attempts: u32,
    e: Seq<char>,
) -> bool {
    exists|ds: Seq<Seq<Option<i64>>>| #[trigger] submit_failed(before, after, ordinal, data, max_attempts, ds, e)
}

/// Calls of an end-of-stream flush that ended in error `e`, after the
/// complete `Again` rounds `ds`.
pub open spec fn flush_failed(
    before: Seq<BackendCall>,
    after: Seq<BackendCall>,
    max_attempts: u32,
    ds: Seq<Seq<Option<i64>>>,
    e: Seq<char>,
) -> bool {
    let pre = before + eof_again_rounds(ds);
    let again = pre.push(BackendCall::SendEof(Ok(SendOutcome::Again)));
    let accepted = pre.push(BackendCall::SendEof(Ok(SendOutcome::Accepted)));
    &&& ds.len() <= max_attempts
    &&& {
        ||| after == pre.push(BackendCall::SendEof(Err(e)))
        ||| (ds.len() == max_attempts && after == again && e == eof_limit_message((ds.len() + 1) as nat))
        ||| (ds.len() < max_attempts
            && failed_drain_after(again, after, e))
        ||| failed_drain_after(accepted, after, e)
    }
}

/// Receive frames until the backend reports `Empty`; the recovered
/// ordinals in receive order. A failed receive ends the drain with its
/// error.
pub fn drain_fully<B: DecoderLoopBackend>(backend: &mut B) -> (r: Result<Vec<Option<i64>>, String>)
    ensures
        r matches Ok(v) ==> final(backend).calls() == old(backend).calls() + drained(v@),
        r matches Err(e) ==> failed_drain_after(old(backend).calls(), final(backend).calls(), e@),
{
    let mut recovered: Vec<Option<i64>> = Vec::new();
    loop
        invariant
            backend.calls() == old(backend).calls() + frame_receives(recovered@),
        decreases backend.ready_frames(),
    {
        let ghost before = backend.calls();
        let out = backend.receive_frame();
        match out {
            Ok(FrameOutcome::Frame(ordinal)) => {
                let ghost prev = recovered@;
                recovered.push(ordinal);
                assert(frame_receives(recovered@) =~= frame_receives(prev).push(
                    BackendCall::ReceiveFrame(Ok(FrameOutcome::Frame(ordinal)))));
                assert(backend.calls() =~= old(backend).calls() + frame_receives(recovered@));
            },
            Ok(FrameOutcome::Empty) => {
                assert(backend.calls() =~= old(backend).calls() + drained(recovered@));
                return Ok(recovered);
            },
            Err(e) => {
                assert(backend.calls() =~= old(backend).calls() + drain_failed(recovered@, e@));
                assert(backend.calls() == old(backend).calls() + drain_failed(recovered@, e@));
                assert(failed_drain_after(old(backend).calls(), backend.calls(), e@));
                return Err(e);
            },
        }
    }
}

fn submit_limit_error(attempts: u64, ordinal: i64) -> (s: String)
    ensures
        s@ == submit_limit_message(attempts as nat, ordinal as int),
{
    let mut s = String::from_str("send_packet EAGAIN did not converge after ");
    push_decimal(&mut s, attempts);
    s.append(" attempts for ordinal ");
    push_signed_decimal(&mut s, ordinal);
    s
}

fn eof_limit_error(attempts: u64) -> (s: String)
    ensures
        s@ == eof_limit_message(attempts as nat),
{
    let mut s = String::from_str("send_eof EAGAIN did not converge after ");
    push_decimal(&mut s, attempts);
    s.append(" attempts");
    s
}

/// Submit one packet, resubmitting the identical `(ordinal, data)` after a
/// full drain each time the backend answers `Again`, until it is accepted.
/// More than `max_attempts` attempts answered `Again` is an error; so is
/// any failure of the backend, whose error is passed on.
pub fn submit_with_retry<B: DecoderLoopBackend>(
    backend: &mut B,
    ordinal: i64,
    data: &[u8],
    max_attempts: u32,
) -> (r: Result<SubmitRecord, String>)
    ensures
        r matches Ok(rec) ==> {
            let ds = drains_view(rec.drains@);
            &&& ds.len() <= max_attempts
            &&& rec.attempts@ == accepted_after(ds.len())
            &&& final(backend).calls() == old(backend).calls() + accepted_submission(ordinal, data@, ds)
        },
        r matches Err(e) ==> submit_error_after(old(backend).calls(), final(backend).calls(), ordinal, data@, max_attempts, e@),
{
    let mut attempts: Vec<AttemptRecord> = Vec::new();
    let mut drains: Vec<Vec<Option<i64>>> = Vec::new();
    loop
        invariant
            drains@.len() <= max_attempts,
            attempts@ == Seq::new(drains@.len(), |i: int| AttemptRecord { again: true }),
            backend.calls() == old(backend).calls() + again_rounds(ordinal, data@, drains_view(drains@)),
        decreases max_attempts - drains@.len(),
    {
        let ghost ds = drains_view(drains@);
        let ghost pre = backend.calls();
        let sent = backend.send_packet(ordinal, data);
        match sent {
            Err(e) => {
                assert(submit_failed(old(backend).calls(), backend.calls(), ordinal, data@, max_attempts, ds, e@));
                assert(submit_error_after(old(backend).calls(), backend.calls(), ordinal, data@, max_attempts, e@));
                return Err(e);
            },
            Ok(SendOutcome::Accepted) => {
                attempts.push(AttemptRecord { again: false });
                assert(attempts@ =~= accepted_after(ds.len()));
                return Ok(SubmitRecord { attempts, drains });
            },
            Ok(SendOutcome::Again) => {
                attempts.push(AttemptRecord { again: true });
                let tried: u64 = attempts.len() as u64;
                if tried > max_attempts as u64 {
                    let msg = submit_limit_error(tried, ordinal);
                    assert(submit_failed(old(backend).calls(), backend.calls(), ordinal, data@, max_attempts, ds, msg@));
                    assert(submit_error_after(old(backend).calls(), backend.calls(), ordinal, data@, max_attempts, msg@));
                    return Err(msg);
                }
                let ghost mid = backend.calls();
                match drain_fully(backend) {
                    Ok(v) => {
                        drains.push(v);
                        proof {
                            let nds = drains_view(drains@);
                            assert(nds.drop_last() =~= ds);
                            assert(nds.last() == v@);
                            assert(backend.calls() =~= old(backend).calls() + again_rounds(ordinal, data@, nds));
                            assert(attempts@ =~= Seq::new(drains@.len(), |i: int| AttemptRecord { again: true }));
                        }
                    },
                    Err(e) => {
                        proof {
                            assert(failed_drain_after(mid, backend.calls(), e@));
                            let ords = choose|ords: Seq<Option<i64>>|
                                backend.calls() == mid + #[trigger] drain_failed(ords, e@);
                            assert(backend.calls() =~= (old(backend).calls() + again_rounds(ordinal, data@, ds)).push(
                                BackendCall::SendPacket(ordinal, data@, Ok(SendOutcome::Again))) + drain_failed(ords, e@));
                            assert(submit_failed(old(backend).calls(), backend.calls(), ordinal, data@, max_attempts, ds, e@));
                            assert(submit_error_after(old(backend).calls(), backend.calls(), ordinal, data@, max_attempts, e@));
                        }
                        return Err(e);
                    },
                }
            },
        }
    }
}

/// Calls of a flush that ended in error `e`, after some number of
/// complete `Again` rounds.
pub open spec fn flush_error_after(before: Seq<BackendCall>, after: Seq<BackendCall>, max_attempts: u32, e: Seq<char>) -> bool {
    exists|ds: Seq<Seq<Option<i64>>>| #[trigger] flush_failed(before, after, max_attempts, ds, e)
}

/// A successful flush: `ds.len()` rounds of "end of stream answered
/// `Again`, then a drain recovering `ds[i]`", the accepted end of stream,
/// and a final drain recovering `tail`.
pub open spec fn flushed(ds: Seq<Seq<Option<i64>>>, tail: Seq<Option<i64>>) -> Seq<BackendCall> {
    eof_again_rounds(ds).push(BackendCall::SendEof(Ok(SendOutcome::Accepted))) + drained(tail)
}

/// End of stream: signal it under the same retry discipline as
/// [`submit_with_retry`] (bounded by `max_attempts`), keeping the frames
/// recovered by the drains in between, then drain the remaining tail.
pub fn flush_tail<B: DecoderLoopBackend>(backend: &mut B, max_attempts: u32) -> (r: Result<FlushRecord, String>)
    ensures
        r matches Ok(f) ==> exists|ds: Seq<Seq<Option<i64>>>, tail: Seq<Option<i64>>| {
            &&& ds.len() == f.eagain_count
            &&& ds.len() <= max_attempts
            &&& final(backend).calls() == old(backend).calls() + #[trigger] flushed(ds, tail)
            &&& f.recovered@ == ds.flatten() + tail
        },
        r matches Err(e) ==> flush_error_after(old(backend).calls(), final(backend).calls(), max_attempts, e@),
{
    let mut recovered: Vec<Option<i64>> = Vec::new();
    let mut eagain_count: u32 = 0;
    let ghost mut ds: Seq<Seq<Option<i64>>> = Seq::empty();
    loop
        invariant_except_break
            backend.calls() == old(backend).calls() + eof_again_rounds(ds),
        invariant
            ds.len() == eagain_count,
            eagain_count <= max_attempts,
            recovered@ == ds.flatten(),
        ensures
            backend.calls() == (old(backend).calls() + eof_again_rounds(ds)).push(
                BackendCall::SendEof(Ok(SendOutcome::Accepted))),
        decreases max_attempts - eagain_count,
    {
        let ghost pre = backend.calls();
        let sent = backend.send_eof();
        match sent {
            Err(e) => {
                assert(flush_failed(old(backend).calls(), backend.calls(), max_attempts, ds, e@));
                assert(flush_error_after(old(backend).calls(), backend.calls(), max_attempts, e@));
                return Err(e);
            },
            Ok(SendOutcome::Accepted) => {
                break;
            },
            Ok(SendOutcome::Again) => {
                let tried: u64 = eagain_count as u64 + 1;
                if tried > max_attempts as u64 {
                    let msg = eof_limit_error(tried);
                    assert(flush_failed(old(backend).calls(), backend.calls(), max_attempts, ds, msg@));
                    assert(flush_error_after(old(backend).calls(), backend.calls(), max_attempts, msg@));
                    return Err(msg);
                }
                eagain_count = eagain_count + 1;
                let ghost mid = backend.calls();
                match drain_fully(backend) {
                    Ok(v) => {
                        let mut v = v;
                        let ghost got = v@;
                        recovered.append(&mut v);
                        proof {
                            let nds = ds.push(got);
                            assert(nds.drop_last() =~= ds);
                            nds.lemma_flatten_push(got);
                            ds.lemma_flatten_push(got);
                            assert(backend.calls() =~= old(backend).calls() + eof_again_rounds(nds));
                            ds = nds;
                        }
                    },
                    Err(e) => {
                        proof {
                            assert(failed_drain_after(mid, backend.calls(), e@));
                            let ords = choose|ords: Seq<Option<i64>>|
                                backend.calls() == mid + #[trigger] drain_failed(ords, e@);
                            assert(backend.calls() =~= (old(backend).calls() + eof_again_rounds(ds)).push(
                                BackendCall::SendEof(Ok(SendOutcome::Again))) + drain_failed(ords, e@));
                            assert(failed_drain_after((old(backend).calls() + eof_again_rounds(ds)).push(
                                BackendCall::SendEof(Ok(SendOutcome::Again))), backend.calls(), e@));
                            assert(flush_failed(old(backend).calls(), backend.calls(), max_attempts, ds, e@));
                            assert(flush_error_after(old(backend).calls(), backend.calls(), max_attempts, e@));
                        }
                        return Err(e);
                    },
                }
            },
        }
    }
    let ghost accepted = backend.calls();
    match drain_fully(backend) {
        Ok(v) => {
            let mut v = v;
            let ghost tail = v@;
            recovered.append(&mut v);
            proof {
                assert(backend.calls() =~= old(backend).calls() + flushed(ds, tail));
                ds.lemma_flatten_push(tail);
                assert(recovered@ =~= ds.flatten() + tail);
            }
            Ok(FlushRecord { recovered, eagain_count })
        },
        Err(e) => {
            proof {
                assert(failed_drain_after(accepted, backend.calls(), e@));
                let ords = choose|ords: Seq<Option<i64>>|
                    backend.calls() == accepted + #[trigger] drain_failed(ords, e@);
                assert(failed_drain_after((old(backend).calls() + eof_again_rounds(ds)).push(
                    BackendCall::SendEof(Ok(SendOutcome::Accepted))), backend.calls(), e@));
                assert(flush_failed(old(backend).calls(), backend.calls(), max_attempts, ds, e@));
                assert(flush_error_after(old(backend).calls(), backend.calls(), max_attempts, e@));
            }
            Err(e)
        },
    }
}

/// The packet submissions among `calls`, in order.
pub open spec fn sends(calls: Seq<BackendCall>) -> Seq<(i64, Seq<u8>, Result<SendOutcome, Seq<char>>)>
    decreases calls.len(),
{
    if calls.len() == 0 {
        Seq::empty()
    } else {
        let rest = sends(calls.drop_last());
        match calls.last() {
            BackendCall::SendPacket(o, d, res) => rest.push((o, d, res)),
            _ => rest,
        }
    }
}

proof fn lemma_sends_concat(a: Seq<BackendCall>, b: Seq<BackendCall>)
    ensures
        sends(a + b) == sends(a) + sends(b),
    decreases b.len(),
{
    if b.len() == 0 {
        assert(a + b =~= a);
        assert(sends(a) + sends(b) =~= sends(a));
    } else {
        assert((a + b).drop_last() =~= a + b.drop_last());
        lemma_sends_concat(a, b.drop_last());
        match b.last() {
            BackendCall::SendPacket(o, d, res) => {
                assert(sends(a) + sends(b) =~= (sends(a) + sends(b.drop_last())).push((o, d, res)));
            },
            _ => {},
        }
    }
}

proof fn lemma_sends_of_drain(ords: Seq<Option<i64>>)
    ensures
        sends(drained(ords)) == Seq::<(i64, Seq<u8>, Result<SendOutcome, Seq<char>>)>::empty(),
    decreases ords.len(),
{
    lemma_sends_of_receives(ords);
    assert(drained(ords).drop_last() =~= frame_receives(ords));
}

proof fn lemma_sends_of_receives(ords: Seq<Option<i64>>)
    ensures
        sends(frame_receives(ords)) == Seq::<(i64, Seq<u8>, Result<SendOutcome, Seq<char>>)>::empty(),
    decreases ords.len(),
{
    if ords.len() > 0 {
        lemma_sends_of_receives(ords.drop_last());
        assert(frame_receives(ords).drop_last() =~= frame_receives(ords.drop_last()));
    }
}

/// A successful submission sends the identical `(ordinal, data)` every
/// time, is answered `Again` once per drain, and is accepted exactly once,
/// on its last send.
pub proof fn lemma_submission_accepted_exactly_once(ordinal: i64, data: Seq<u8>, ds: Seq<Seq<Option<i64>>>)
    ensures
        sends(again_rounds(ordinal, data, ds).push(BackendCall::SendPacket(ordinal, data, Ok(SendOutcome::Accepted))))
            == Seq::new(ds.len(), |i: int| (ordinal, data, Ok::<SendOutcome, Seq<char>>(SendOutcome::Again)))
                .push((ordinal, data, Ok::<SendOutcome, Seq<char>>(SendOutcome::Accepted))),
    decreases ds.len(),
{
    lemma_again_round_sends(ordinal, data, ds);
    let calls = again_rounds(ordinal, data, ds).push(BackendCall::SendPacket(ordinal, data, Ok(SendOutcome::Accepted)));
    assert(calls.drop_last() =~= again_rounds(ordinal, data, ds));
}

proof fn lemma_again_round_sends(ordinal: i64, data: Seq<u8>, ds: Seq<Seq<Option<i64>>>)
    ensures
        sends(again_rounds(ordinal, data, ds))
            == Seq::new(ds.len(), |i: int| (ordinal, data, Ok::<SendOutcome, Seq<char>>(SendOutcome::Again))),
    decreases ds.len(),
{
    if ds.len() > 0 {
        lemma_again_round_sends(ordinal, data, ds.drop_last());
        let head = again_rounds(ordinal, data, ds.drop_last()).push(
            BackendCall::SendPacket(ordinal, data, Ok(SendOutcome::Again)));
        lemma_sends_concat(head, drained(ds.last()));
        lemma_sends_of_drain(ds.last());
        assert(head.drop_last() =~= again_rounds(ordinal, data, ds.drop_last()));
        assert(sends(head) + Seq::<(i64, Seq<u8>, Result<SendOutcome, Seq<char>>)>::empty() =~= sends(head));
        assert(sends(again_rounds(ordinal, data, ds))
            =~= Seq::new(ds.len(), |i: int| (ordinal, data, Ok::<SendOutcome, Seq<char>>(SendOutcome::Again))));
    }
}


/// How many end-of-stream signals are among `calls`.
pub open spec fn eof_count(calls: Seq<BackendCall>) -> nat
    decreases calls.len(),
{
    if calls.len() == 0 {
        0
    } else {
        eof_count(calls.drop_last()) + if calls.last() is SendEof { 1nat } else { 0nat }
    }
}

proof fn lemma_eof_count_concat(a: Seq<BackendCall>, b: Seq<BackendCall>)
    ensures
        eof_count(a + b) == eof_count(a) + eof_count(b),
    decreases b.len(),
{
    if b.len() == 0 {
        assert(a + b =~= a);
    } else {
        assert((a + b).drop_last() =~= a + b.drop_last());
        lemma_eof_count_concat(a, b.drop_last());
    }
}

proof fn lemma_receives_only(ords: Seq<Option<i64>>, last: BackendCall)
    requires
        last is ReceiveFrame,
    ensures
        sends(frame_receives(ords).push(last)).len() == 0,
        eof_count(frame_receives(ords).push(last)) == 0,
    decreases ords.len(),
{
    lemma_sends_of_receives(ords);
    lemma_eof_count_receives(ords);
    assert(frame_receives(ords).push(last).drop_last() =~= frame_receives(ords));
}

proof fn lemma_eof_count_receives(ords: Seq<Option<i64>>)
    ensures
        eof_count(frame_receives(ords)) == 0,
    decreases ords.len(),
{
    if ords.len() > 0 {
        lemma_eof_count_receives(ords.drop_last());
        assert(frame_receives(ords).drop_last() =~= frame_receives(ords.drop_last()));
    }
}

proof fn lemma_again_rounds_no_eof(ordinal: i64, data: Seq<u8>, ds: Seq<Seq<Option<i64>>>)
    ensures
        eof_count(again_rounds(ordinal, data, ds)) == 0,
    decreases ds.len(),
{
    if ds.len() > 0 {
        lemma_again_rounds_no_eof(ordinal, data, ds.drop_last());
        let head = again_rounds(ordinal, data, ds.drop_last()).push(
            BackendCall::SendPacket(ordinal, data, Ok(SendOutcome::Again)));
        assert(head.drop_last() =~= again_rounds(ordinal, data, ds.drop_last()));
        lemma_eof_count_concat(head, drained(ds.last()));
        lemma_receives_only(ds.last(), BackendCall::ReceiveFrame(Ok(FrameOutcome::Empty)));
    }
}

proof fn lemma_eof_rounds_calls(ds: Seq<Seq<Option<i64>>>)
    ensures
        sends(eof_again_rounds(ds)).len() == 0,
        eof_count(eof_again_rounds(ds)) == ds.len(),
    decreases ds.len(),
{
    if ds.len() > 0 {
        lemma_eof_rounds_calls(ds.drop_last());
        let head = eof_again_rounds(ds.drop_last()).push(BackendCall::SendEof(Ok(SendOutcome::Again)));
        assert(head.drop_last() =~= eof_again_rounds(ds.drop_last()));
        lemma_eof_count_concat(head, drained(ds.last()));
        lemma_sends_concat(head, drained(ds.last()));
        lemma_receives_only(ds.last(), BackendCall::ReceiveFrame(Ok(FrameOutcome::Empty)));
    }
}

/// Which decoder calls each engine step makes: a drain, complete or
/// failed, neither submits a packet nor signals end of stream; a
/// submission never signals end of stream; a successful flush never
/// submits a packet and signals end of stream once per `Again` plus the
/// accepted signal.
pub proof fn lemma_engine_call_kinds(
    ordinal: i64,
    data: Seq<u8>,
    ds: Seq<Seq<Option<i64>>>,
    ords: Seq<Option<i64>>,
    e: Seq<char>,
)
    ensures
        sends(drained(ords)).len() == 0,
        eof_count(drained(ords)) == 0,
        sends(drain_failed(ords, e)).len() == 0,
        eof_count(drain_failed(ords, e)) == 0,
        eof_count(accepted_submission(ordinal, data, ds)) == 0,
        sends(flushed(ds, ords)).len() == 0,
        eof_count(flushed(ds, ords)) == ds.len() + 1,
{
    lemma_receives_only(ords, BackendCall::ReceiveFrame(Ok(FrameOutcome::Empty)));
    lemma_receives_only(ords, BackendCall::ReceiveFrame(Err(e)));
    lemma_again_rounds_no_eof(ordinal, data, ds);
    let acc = accepted_submission(ordinal, data, ds);
    assert(acc.drop_last() =~= again_rounds(ordinal, data, ds));
    lemma_eof_rounds_calls(ds);
    let head = eof_again_rounds(ds).push(BackendCall::SendEof(Ok(SendOutcome::Accepted)));
    assert(head.drop_last() =~= eof_again_rounds(ds));
    lemma_eof_count_concat(head, drained(ords));
    lemma_sends_concat(head, drained(ords));
}


// ---------------------------------------------------------------------------
// Ordinals recovered over a call log
// ---------------------------------------------------------------------------

/// The ordinals of every frame handed out in `calls`, in receive order.
pub open spec fn recovered(calls: Seq<BackendCall>) -> Seq<Option<i64>>
    decreases calls.len(),
{
    if calls.len() == 0 {
        Seq::empty()
    } else {
        let r = recovered(calls.drop_last());
        match calls.last() {
            BackendCall::ReceiveFrame(Ok(FrameOutcome::Frame(o))) => r.push(o),
            _ => r,
        }
    }
}

pub proof fn lemma_recovered_concat(a: Seq<BackendCall>, b: Seq<BackendCall>)
    ensures
        recovered(a + b) == recovered(a) + recovered(b),
    decreases b.len(),
{
    if b.len() == 0 {
        assert(a + b =~= a);
        assert(recovered(a) + recovered(b) =~= recovered(a));
    } else {
        lemma_recovered_concat(a, b.drop_last());
        assert((a + b).drop_last() =~= a + b.drop_last());
        assert((a + b).last() == b.last());
        let r = recovered(a) + recovered(b.drop_last());
        match b.last() {
            BackendCall::ReceiveFrame(Ok(FrameOutcome::Frame(o))) => {
                assert(r.push(o) =~= recovered(a) + recovered(b.drop_last()).push(o));
            },
            _ => {},
        }
    }
}

pub proof fn lemma_recovered_frames(ords: Seq<Option<i64>>)
    ensures
        recovered(frame_receives(ords)) == ords,
        recovered(drained(ords)) == ords,
    decreases ords.len(),
{
    if ords.len() > 0 {
        lemma_recovered_frames(ords.drop_last());
        assert(frame_receives(ords).drop_last() =~= frame_receives(ords.drop_last()));
        assert(ords.drop_last().push(ords.last()) =~= ords);
    } else {
        assert(frame_receives(ords) =~= Seq::<BackendCall>::empty());
    }
    assert(drained(ords).drop_last() =~= frame_receives(ords));
}

pub proof fn lemma_recovered_again_rounds(ordinal: i64, data: Seq<u8>, ds: Seq<Seq<Option<i64>>>)
    ensures
        recovered(again_rounds(ordinal, data, ds)) == ds.flatten(),
        recovered(accepted_submission(ordinal, data, ds)) == ds.flatten(),
    decreases ds.len(),
{
    if ds.len() > 0 {
        lemma_recovered_again_rounds(ordinal, data, ds.drop_last());
        let pre = again_rounds(ordinal, data, ds.drop_last());
        let p = pre.push(BackendCall::SendPacket(ordinal, data, Ok(SendOutcome::Again)));
        assert(p.drop_last() =~= pre);
        lemma_recovered_frames(ds.last());
        lemma_recovered_concat(p, drained(ds.last()));
        ds.drop_last().lemma_flatten_push(ds.last());
        assert(ds.drop_last().push(ds.last()) =~= ds);
    } else {
        assert(ds.flatten() =~= Seq::<Option<i64>>::empty());
    }
    let a = again_rounds(ordinal, data, ds);
    assert(accepted_submission(ordinal, data, ds).drop_last() =~= a);
}

pub proof fn lemma_recovered_flushed(ds: Seq<Seq<Option<i64>>>, tail: Seq<Option<i64>>)
    ensures
        recovered(eof_again_rounds(ds)) == ds.flatten(),
        recovered(flushed(ds, tail)) == ds.flatten() + tail,
    decreases ds.len(),
{
    if ds.len() > 0 {
        lemma_recovered_flushed(ds.drop_last(), tail);
        let pre = eof_again_rounds(ds.drop_last());
        let p = pre.push(BackendCall::SendEof(Ok(SendOutcome::Again)));
        assert(p.drop_last() =~= pre);
        lemma_recovered_frames(ds.last());
        lemma_recovered_concat(p, drained(ds.last()));
        ds.drop_last().lemma_flatten_push(ds.last());
        assert(ds.drop_last().push(ds.last()) =~= ds);
    } else {
        assert(ds.flatten() =~= Seq::<Option<i64>>::empty());
    }
    let e = eof_again_rounds(ds);
    let q = e.push(BackendCall::SendEof(Ok(SendOutcome::Accepted)));
    assert(q.drop_last() =~= e);
    lemma_recovered_frames(tail);
    lemma_recovered_concat(q, drained(tail));
}

} // verus!

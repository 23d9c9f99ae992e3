//! The decoder experiment: feed a sample's access units to one decoder
//! backend through the loop engine and check that every emitted frame
//! carries the ordinal it was submitted with, exactly once and in order.
//!
//! Each mode is a state machine driven by the caller, which demuxes the
//! sample and hands over one access unit at a time, then asks for the
//! report. Elapsed times come from the run's own monotonic clock.
use vstd::prelude::*;
use vstd::string::StringExecFns;
use crate::clock::{instant_now, micros_since};
use crate::counter::inc;
use crate::loop_engine::{drain_fully, flush_tail, submit_with_retry, DecoderLoopBackend, SubmitRecord};
use crate::ordinals::{Emission, EmissionLog};
use crate::annexb::extract_param_sets;
use crate::text::{push_debug_opt_i64s, push_debug_u8s, push_decimal, push_signed_decimal};

verus! {

/// Bound on `Again` answers absorbed per submission or end-of-stream.
pub const MAX_EAGAIN_CYCLES: u32 = 64;
/// Anomaly notes kept before further ones are suppressed.
pub const MAX_NOTES: usize = 50;

// ---------------------------------------------------------------------------
// Notes
// ---------------------------------------------------------------------------

pub open spec fn suppressed_note() -> Seq<char> {
    "...additional anomalies suppressed..."@
}

/// Notes after adding `msg`: kept while fewer than 50 are held, then one
/// suppression marker, then nothing.
pub open spec fn with_note(notes: Seq<Seq<char>>, msg: Seq<char>) -> Seq<Seq<char>> {
    if notes.len() < 50 {
        notes.push(msg)
    } else if notes.len() == 50 {
        notes.push(suppressed_note())
    } else {
        notes
    }
}

/// The texts of a list of strings.
pub open spec fn texts(v: Seq<String>) -> Seq<Seq<char>> {
    Seq::new(v.len(), |i: int| v[i]@)
}

/// The note an emission of class `c` gets, `e` being the ordinal expected
/// before it and `n` the emission count after it.
pub open spec fn emission_note(c: Emission, e: i64, o: Option<i64>, n: u64) -> Option<Seq<char>> {
    match c {
        Emission::Unknown => Some("emission #"@ + crate::text::decimal(n as nat)
            + ": unknown pts (neither pts nor best_effort_timestamp set)"@),
        Emission::Duplicate => Some("duplicate: ordinal "@ + crate::text::signed_decimal(o.unwrap() as int)
            + " emitted again (expected "@ + crate::text::signed_decimal(e as int) + ")"@),
        Emission::Skip => Some("silent skip: expected ordinal "@ + crate::text::signed_decimal(e as int)
            + ", got "@ + crate::text::signed_decimal(o.unwrap() as int) + " instead ("@
            + crate::text::signed_decimal(((o.unwrap() - e) as i64) as int) + " ordinal(s) "@
            + crate::text::signed_decimal(e as int) + ".."@ + crate::text::signed_decimal(o.unwrap() - 1)
            + " never emitted before this)"@),
        Emission::Reorder => Some("reorder: expected ordinal "@ + crate::text::signed_decimal(e as int)
            + ", got "@ + crate::text::signed_decimal(o.unwrap() as int) + " (out of order, not a repeat)"@),
        Emission::InOrder => None,
    }
}

/// Abstract bookkeeping of a run: emission counts and tracking, and notes.
pub struct RunView {
    pub emissions: crate::ordinals::EmissionState,
    pub notes: Seq<Seq<char>>,
}

/// One emission recorded with its note.
pub open spec fn run_step(v: RunView, o: Option<i64>) -> RunView {
    let c = crate::ordinals::emission_class(v.emissions.expected, v.emissions.seen, o);
    let em = crate::ordinals::emission_step(v.emissions, o);
    RunView {
        emissions: em,
        notes: match emission_note(c, v.emissions.expected, o, em.counts.emitted) {
            Some(m) => with_note(v.notes, m),
            None => v.notes,
        },
    }
}

/// Emissions `os` recorded in order.
pub open spec fn run_steps(v: RunView, os: Seq<Option<i64>>) -> RunView
    decreases os.len(),
{
    if os.len() == 0 {
        v
    } else {
        run_step(run_steps(v, os.drop_last()), os.last())
    }
}

/// Emission bookkeeping with anomaly notes and submit-to-emit delays.
pub struct RunState {
    log: EmissionLog,
    notes: Vec<String>,
    /// Submit-to-emit delays in microseconds, one per emission whose
    /// ordinal has a recorded send time.
    delays_us: Vec<u64>,
}

impl RunState {
    pub closed spec fn view(&self) -> RunView {
        RunView { emissions: self.log.state(), notes: texts(self.notes@) }
    }

    /// Submit-to-emit delays so far, in microseconds.
    pub closed spec fn delays(&self) -> Seq<u64> {
        self.delays_us@
    }

    /// A copy of the delays so far.
    pub fn delays_us(&self) -> (d: Vec<u64>)
        ensures
            d@ == self.delays(),
    {
        let mut d: Vec<u64> = Vec::new();
        let mut i: usize = 0;
        while i < self.delays_us.len()
            invariant
                i <= self.delays_us@.len(),
                d@ == self.delays_us@.take(i as int),
            decreases self.delays_us@.len() - i,
        {
            d.push(self.delays_us[i]);
            i += 1;
            assert(d@ =~= self.delays_us@.take(i as int));
        }
        assert(self.delays_us@.take(i as int) =~= self.delays_us@);
        d
    }

    pub fn new() -> (r: Self)
        ensures
            r.view() == (RunView { emissions: crate::ordinals::initial_emission_state(), notes: Seq::empty() }),
            r.delays().len() == 0,
    {
        let r = RunState { log: EmissionLog::new(), notes: Vec::new(), delays_us: Vec::new() };
        assert(texts(r.notes@) =~= Seq::<Seq<char>>::empty());
        r
    }

    /// Add an anomaly note, subject to the cap.
    pub fn note(&mut self, msg: String)
        ensures
            final(self).view() == (RunView { notes: with_note(old(self).view().notes, msg@), ..old(self).view() }),
            final(self).delays() == old(self).delays(),
    {
        let ghost before = self.notes@;
        if self.notes.len() < MAX_NOTES {
            self.notes.push(msg);
            assert(texts(self.notes@) =~= texts(before).push(msg@));
        } else if self.notes.len() == MAX_NOTES {
            self.notes.push(String::from_str("...additional anomalies suppressed..."));
            assert(texts(self.notes@) =~= texts(before).push(suppressed_note()));
        }
    }

    /// The counts so far.
    pub fn counts(&self) -> (c: crate::ordinals::EmissionCounts)
        ensures
            c == self.view().emissions.counts,
    {
        self.log.counts()
    }

    /// The notes so far.
    pub fn notes(&self) -> (n: Vec<String>)
        ensures
            texts(n@) == self.view().notes,
    {
        let mut out: Vec<String> = Vec::new();
        let mut i: usize = 0;
        while i < self.notes.len()
            invariant
                i <= self.notes@.len(),
                texts(out@) == texts(self.notes@).take(i as int),
            decreases self.notes@.len() - i,
        {
            let ghost before = out@;
            let t = self.notes[i].clone();
            out.push(t);
            assert(texts(out@) =~= texts(before).push(t@));
            assert(texts(self.notes@).take(i + 1) =~= texts(self.notes@).take(i as int).push(t@));
            i += 1;
        }
        assert(texts(self.notes@).take(i as int) =~= texts(self.notes@));
        out
    }

    /// Record one emitted ordinal: classify it, note an anomaly, and, when
    /// `send_times_us[ordinal - 1]` holds its send time, add its delay up
    /// to `now_us` (zero if the clock reads earlier).
    pub fn record_emission(&mut self, o: Option<i64>, send_times_us: &Vec<u64>, now_us: u64)
        ensures
            final(self).view() == run_step(old(self).view(), o),
            final(self).delays() == match o {
                Some(got) => if 1 <= got <= send_times_us@.len() {
                    old(self).delays().push(
                        if now_us >= send_times_us@[got - 1] { (now_us - send_times_us@[got - 1]) as u64 } else { 0 })
                } else {
                    old(self).delays()
                },
                None => old(self).delays(),
            },
    {
        let ghost v = self.view();
        let expected = self.log.expected();
        let c = self.log.record(o);
        let n = self.log.counts().emitted;
        match c {
            Emission::InOrder => {},
            Emission::Unknown => {
                let mut m = String::from_str("emission #");
                push_decimal(&mut m, n);
                m.append(": unknown pts (neither pts nor best_effort_timestamp set)");
                self.note(m);
            },
            Emission::Duplicate => {
                let got = match o { Some(g) => g, None => 0 };
                let mut m = String::from_str("duplicate: ordinal ");
                push_signed_decimal(&mut m, got);
                m.append(" emitted again (expected ");
                push_signed_decimal(&mut m, expected);
                m.append(")");
                self.note(m);
            },
            Emission::Skip => {
                let got = match o { Some(g) => g, None => 0 };
                let mut m = String::from_str("silent skip: expected ordinal ");
                push_signed_decimal(&mut m, expected);
                m.append(", got ");
                push_signed_decimal(&mut m, got);
                m.append(" instead (");
                push_signed_decimal(&mut m, (got as i128 - expected as i128) as i64);
                m.append(" ordinal(s) ");
                push_signed_decimal(&mut m, expected);
                m.append("..");
                push_signed_decimal(&mut m, got - 1);
                m.append(" never emitted before this)");
                self.note(m);
            },
            Emission::Reorder => {
                let got = match o { Some(g) => g, None => 0 };
                let mut m = String::from_str("reorder: expected ordinal ");
                push_signed_decimal(&mut m, expected);
                m.append(", got ");
                push_signed_decimal(&mut m, got);
                m.append(" (out of order, not a repeat)");
                self.note(m);
            },
        }
        if let Some(got) = o {
            if 1 <= got && got as u64 <= send_times_us.len() as u64 {
                let t0 = send_times_us[(got - 1) as usize];
                let d: u64 = if now_us >= t0 { now_us - t0 } else { 0 };
                self.delays_us.push(d);
            }
        }
    }
}

/// How many of `os` have a send time among `n` recorded ones.
pub open spec fn timed_count(os: Seq<Option<i64>>, n: nat) -> nat
    decreases os.len(),
{
    if os.len() == 0 {
        0
    } else {
        timed_count(os.drop_last(), n) + match os.last() {
            Some(got) => if 1 <= got <= n { 1nat } else { 0nat },
            None => 0nat,
        }
    }
}

impl RunState {
    /// Record emitted ordinals `os` in order, timing each against the
    /// run's clock.
    pub fn record_batch(&mut self, os: &Vec<Option<i64>>, send_times_us: &Vec<u64>, epoch: &std::time::Instant)
        ensures
            final(self).view() == run_steps(old(self).view(), os@),
            final(self).delays().len() == old(self).delays().len() + timed_count(os@, send_times_us@.len()),
            final(self).delays().take(old(self).delays().len() as int) == old(self).delays(),
    {
        let mut i: usize = 0;
        while i < os.len()
            invariant
                i <= os@.len(),
                self.view() == run_steps(old(self).view(), os@.take(i as int)),
                self.delays().len() == old(self).delays().len() + timed_count(os@.take(i as int), send_times_us@.len()),
                self.delays().take(old(self).delays().len() as int) == old(self).delays(),
            decreases os@.len() - i,
        {
            let now = micros_since(epoch);
            let ghost before = self.delays();
            self.record_emission(os[i], send_times_us, now);
            proof {
                assert(os@.take(i + 1).drop_last() =~= os@.take(i as int));
                assert(self.delays().take(old(self).delays().len() as int)
                    =~= before.take(old(self).delays().len() as int));
            }
            i += 1;
        }
        assert(os@.take(i as int) =~= os@);
    }
}

/// The ordinal as text, for error messages.
pub open spec fn ordinal_prefix(o: i64) -> Seq<char> {
    "ordinal "@ + crate::text::signed_decimal(o as int)
}

/// Abstract state of a streaming run.
pub struct StreamView {
    pub ordinal: i64,
    pub submitted: u64,
    pub eagain_retries: u64,
    pub send_times: nat,
    pub run: RunView,
    pub max_lag: i64,
    pub fatal: Option<Seq<char>>,
}

/// Lag between submitted and emitted counts, as a wrapped `i64`.
pub open spec fn lag_of(submitted: u64, emitted: u64) -> i64 {
    (submitted - emitted) as i64
}

pub open spec fn raise_lag(v: StreamView) -> StreamView {
    let l = lag_of(v.submitted, v.run.emissions.counts.emitted);
    StreamView { max_lag: if l > v.max_lag { l } else { v.max_lag }, ..v }
}

/// The streaming view after access unit `ordinal` was accepted after the
/// `Again` rounds `ds` and its post-accept drain returned `tail` (or
/// failed, `tail` being `None`).
pub open spec fn stream_accepted(v: StreamView, ds: Seq<Seq<Option<i64>>>) -> StreamView {
    raise_lag(StreamView {
        submitted: crate::counter::bump(v.submitted),
        eagain_retries: crate::counter::bump_times(v.eagain_retries, ds.len()),
        run: run_steps(v.run, ds.flatten()),
        ..v
    })
}

/// One access unit of a streaming run, as a relation between the state
/// and backend log before and after.
pub open spec fn stream_step(
    v: StreamView,
    calls: Seq<crate::loop_engine::BackendCall>,
    d: Seq<u8>,
    v2: StreamView,
    calls2: Seq<crate::loop_engine::BackendCall>,
) -> bool {
    ||| exists|e: Seq<char>| #[trigger] stream_submit_failed(sent_view(v), calls, d, v2, calls2, e)
    ||| exists|ds: Seq<Seq<Option<i64>>>, tail: Seq<Option<i64>>|
        #[trigger] stream_drained(sent_view(v), calls, d, v2, calls2, ds, tail)
    ||| exists|ds: Seq<Seq<Option<i64>>>, e: Seq<char>|
        #[trigger] stream_drain_failed(sent_view(v), calls, d, v2, calls2, ds, e)
}

/// An access unit whose demuxed packet had no data ends the run.
pub open spec fn stream_no_data(v: StreamView, v2: StreamView) -> bool {
    let ord = crate::counter::succ_i64(v.ordinal);
    v2 == StreamView { ordinal: ord, fatal: Some(ordinal_prefix(ord) + ": demuxed packet has no data"@), ..v }
}

/// The view once the next access unit has its ordinal and send time.
pub open spec fn sent_view(v: StreamView) -> StreamView {
    StreamView { ordinal: crate::counter::succ_i64(v.ordinal), send_times: v.send_times + 1, ..v }
}

pub open spec fn stream_submit_failed(
    v1: StreamView,
    calls: Seq<crate::loop_engine::BackendCall>,
    d: Seq<u8>,
    v2: StreamView,
    calls2: Seq<crate::loop_engine::BackendCall>,
    e: Seq<char>,
) -> bool {
    &&& crate::loop_engine::submit_error_after(calls, calls2, v1.ordinal, d, MAX_EAGAIN_CYCLES, e)
    &&& v2 == StreamView { fatal: Some(ordinal_prefix(v1.ordinal) + ": "@ + e), ..v1 }
}

pub open spec fn stream_drained(
    v1: StreamView,
    calls: Seq<crate::loop_engine::BackendCall>,
    d: Seq<u8>,
    v2: StreamView,
    calls2: Seq<crate::loop_engine::BackendCall>,
    ds: Seq<Seq<Option<i64>>>,
    tail: Seq<Option<i64>>,
) -> bool {
    let a = stream_accepted(v1, ds);
    &&& ds.len() <= MAX_EAGAIN_CYCLES
    &&& calls2 == calls + crate::loop_engine::accepted_submission(v1.ordinal, d, ds) + crate::loop_engine::drained(tail)
    &&& v2 == raise_lag(StreamView { run: run_steps(a.run, tail), ..a })
}

pub open spec fn stream_drain_failed(
    v1: StreamView,
    calls: Seq<crate::loop_engine::BackendCall>,
    d: Seq<u8>,
    v2: StreamView,
    calls2: Seq<crate::loop_engine::BackendCall>,
    ds: Seq<Seq<Option<i64>>>,
    e: Seq<char>,
) -> bool {
    &&& ds.len() <= MAX_EAGAIN_CYCLES
    &&& crate::loop_engine::failed_drain_after(
        calls + crate::loop_engine::accepted_submission(v1.ordinal, d, ds), calls2, e)
    &&& v2 == StreamView {
        fatal: Some(ordinal_prefix(v1.ordinal) + " post-accept drain: "@ + e),
        ..stream_accepted(v1, ds)
    }
}

/// The default and clean modes: submit every access unit in order,
/// draining after each acceptance, then flush the tail.
pub struct StreamingRun {
    ordinal: i64,
    submitted: u64,
    eagain_retries: u64,
    send_times_us: Vec<u64>,
    state: RunState,
    max_lag: i64,
    fatal: Option<String>,
    epoch: std::time::Instant,
}

/// What a streaming run reports.
#[derive(Debug, Clone)]
pub struct StreamingReport {
    pub pass: bool,
    pub frames_submitted: u64,
    pub frames_emitted: u64,
    pub unknown_pts: u64,
    pub duplicates: u64,
    /// Out-of-order emissions, silent skips included.
    pub reorders: u64,
    pub max_lag_frames: i64,
    pub eagain_retries: u64,
    /// Submit-to-emit delays in microseconds.
    pub delays_us: Vec<u64>,
    pub fail_reasons: Vec<String>,
}

pub open spec fn opt_text(o: Option<String>) -> Option<Seq<char>> {
    match o {
        Some(s) => Some(s@),
        None => None,
    }
}

/// Wrapped sum of two counters.
pub open spec fn wrapping_sum(a: u64, b: u64) -> u64 {
    ((a + b) % 0x1_0000_0000_0000_0000) as u64
}

/// Wrapped sum of two counters.
pub fn add_wrapping_pub(a: u64, b: u64) -> (r: u64)
    ensures
        r == wrapping_sum(a, b),
{
    add_wrapping(a, b)
}

fn add_wrapping(a: u64, b: u64) -> (r: u64)
    ensures
        r == wrapping_sum(a, b),
{
    if a <= u64::MAX - b { a + b } else { (b - (u64::MAX - a) - 1) as u64 }
}

impl StreamingRun {
    pub closed spec fn view(&self) -> StreamView {
        StreamView {
            ordinal: self.ordinal,
            submitted: self.submitted,
            eagain_retries: self.eagain_retries,
            send_times: self.send_times_us@.len(),
            run: self.state.view(),
            max_lag: self.max_lag,
            fatal: opt_text(self.fatal),
        }
    }

    /// Submit-to-emit delays so far.
    pub closed spec fn delays(&self) -> Seq<u64> {
        self.state.delays()
    }

    pub fn new() -> (r: Self)
        ensures
            r.view() == (StreamView {
                ordinal: 0,
                submitted: 0,
                eagain_retries: 0,
                send_times: 0,
                run: RunView { emissions: crate::ordinals::initial_emission_state(), notes: Seq::empty() },
                max_lag: 0,
                fatal: None,
            }),
            r.delays().len() == 0,
    {
        StreamingRun {
            ordinal: 0,
            submitted: 0,
            eagain_retries: 0,
            send_times_us: Vec::new(),
            state: RunState::new(),
            max_lag: 0,
            fatal: None,
            epoch: instant_now(),
        }
    }

    /// Whether the run takes another access unit: it has not failed and,
    /// with a frame limit, has submitted fewer than the limit.
    pub fn wants_more(&self, frames: Option<u64>) -> (r: bool)
        ensures
            r == (self.view().fatal is None && match frames {
                Some(limit) => self.view().submitted < limit,
                None => true,
            }),
    {
        if self.fatal.is_some() {
            return false;
        }
        match frames {
            Some(limit) => self.submitted < limit,
            None => true,
        }
    }

    fn update_lag(&mut self)
        ensures
            final(self).view() == raise_lag(old(self).view()),
    {
        let emitted = self.state.counts().emitted;
        let l: i64 = (self.submitted as i128 - emitted as i128) as i64;
        if l > self.max_lag {
            self.max_lag = l;
        }
    }

    /// Submit the next access unit (`None` when the demuxed packet had no
    /// data) and drain after its acceptance.
    pub fn on_packet<B: DecoderLoopBackend>(&mut self, backend: &mut B, data: Option<&[u8]>)
        requires
            old(self).view().fatal is None,
        ensures
            match data {
                Some(d) => stream_step(old(self).view(), old(backend).calls(), d@, final(self).view(), final(backend).calls()),
                None => stream_no_data(old(self).view(), final(self).view()) && final(backend).calls() == old(backend).calls(),
            },
    {
        self.ordinal = crate::counter::next_i64(self.ordinal);
        let ord = self.ordinal;
        let d = match data {
            Some(d) => d,
            None => {
                let mut m = String::from_str("ordinal ");
                push_signed_decimal(&mut m, ord);
                m.append(": demuxed packet has no data");
                self.fatal = Some(m);
                return;
            },
        };
        let now = micros_since(&self.epoch);
        self.send_times_us.push(now);
        let ghost v1 = self.view();
        assert(v1 == sent_view(old(self).view()));
        let ghost calls0 = backend.calls();
        match submit_with_retry(backend, ord, d, MAX_EAGAIN_CYCLES) {
            Err(reason) => {
                let mut m = String::from_str("ordinal ");
                push_signed_decimal(&mut m, ord);
                m.append(": ");
                m.append(reason.as_str());
                self.fatal = Some(m);
                assert(crate::loop_engine::submit_error_after(calls0, backend.calls(), ord, d@, MAX_EAGAIN_CYCLES, reason@));
                assert(self.view() == StreamView { fatal: Some(ordinal_prefix(ord) + ": "@ + reason@), ..v1 });
                assert(stream_submit_failed(v1, calls0, d@, self.view(), backend.calls(), reason@));
                assert(exists|e: Seq<char>| stream_submit_failed(v1, calls0, d@, self.view(), backend.calls(), e));
                assert(calls0 == old(backend).calls());
                assert(stream_submit_failed(sent_view(old(self).view()), old(backend).calls(), d@, self.view(), backend.calls(), reason@));
                assert(stream_step(old(self).view(), old(backend).calls(), d@, self.view(), backend.calls()));
            },
            Ok(record) => {
                let ghost ds = crate::loop_engine::drains_view(record.drains@);
                self.submitted = inc(self.submitted);
                let ghost pre = self.view();
                let mut k: usize = 0;
                while k < record.drains.len()
                    invariant
                        k <= record.drains@.len(),
                        self.view() == (StreamView {
                            eagain_retries: crate::counter::bump_times(v1.eagain_retries, k as nat),
                            ..pre
                        }),
                    decreases record.drains@.len() - k,
                {
                    self.eagain_retries = inc(self.eagain_retries);
                    k += 1;
                }
                self.record_drains(&record.drains);
                self.update_lag();
                assert(self.view() == stream_accepted(v1, ds));
                match drain_fully(backend) {
                    Ok(drain) => {
                        self.state.record_batch(&drain, &self.send_times_us, &self.epoch);
                        self.update_lag();
                        assert(stream_drained(v1, calls0, d@, self.view(), backend.calls(), ds, drain@));
                        assert(stream_step(old(self).view(), old(backend).calls(), d@, self.view(), backend.calls()));
                    },
                    Err(reason) => {
                        let mut m = String::from_str("ordinal ");
                        push_signed_decimal(&mut m, ord);
                        m.append(" post-accept drain: ");
                        m.append(reason.as_str());
                        self.fatal = Some(m);
                        assert(stream_drain_failed(v1, calls0, d@, self.view(), backend.calls(), ds, reason@));
                        assert(stream_step(old(self).view(), old(backend).calls(), d@, self.view(), backend.calls()));
                    },
                }
            },
        }
    }

    /// End of the sample: flush the tail unless the run already failed,
    /// note frames that were never emitted, and report.
    pub fn finish<B: DecoderLoopBackend>(&mut self, backend: &mut B) -> (r: StreamingReport)
        ensures
            stream_flush(old(self).view(), old(backend).calls(), final(self).view(), final(backend).calls()),
            report_matches(r, final(self).view(), final(self).delays()),
    {
        let ghost v0 = self.view();
        if self.fatal.is_none() {
            match flush_tail(backend, MAX_EAGAIN_CYCLES) {
                Ok(flush) => {
                    let ghost pre = self.view();
                    let mut k: u32 = 0;
                    while k < flush.eagain_count
                        invariant
                            k <= flush.eagain_count,
                            self.view() == (StreamView {
                                eagain_retries: crate::counter::bump_times(pre.eagain_retries, k as nat),
                                ..pre
                            }),
                        decreases flush.eagain_count - k,
                    {
                        self.eagain_retries = inc(self.eagain_retries);
                        k += 1;
                    }
                    self.state.record_batch(&flush.recovered, &self.send_times_us, &self.epoch);
                    assert(flush_done(v0, old(backend).calls(), self.view(), backend.calls(),
                        flush.eagain_count as nat, flush.recovered@));
                },
                Err(reason) => {
                    let mut m = String::from_str("flush: ");
                    m.append(reason.as_str());
                    self.fatal = Some(m);
                    assert(flush_broke(v0, old(backend).calls(), self.view(), backend.calls(), reason@));
                },
            }
        }
        let ghost v1 = self.view();
        let c = self.state.counts();
        if self.fatal.is_none() && c.emitted < self.submitted {
            let mut m = String::new();
            push_decimal(&mut m, self.submitted - c.emitted);
            m.append(" frame(s) submitted but never emitted by end of flush (");
            push_decimal(&mut m, self.submitted);
            m.append(" submitted, ");
            push_decimal(&mut m, c.emitted);
            m.append(" emitted)");
            self.state.note(m);
        }
        assert(self.view() == with_missing_note(v1));
        let reorders = add_wrapping(c.reorders, c.skips);
        let pass = self.fatal.is_none() && c.unknown_pts == 0 && c.duplicates == 0 && reorders == 0
            && c.emitted == self.submitted;
        let mut fail_reasons = self.state.notes();
        match &self.fatal {
            Some(f) => {
                let ghost before = fail_reasons@;
                fail_reasons.push(f.clone());
                assert(texts(fail_reasons@) =~= texts(before).push(f@));
            },
            None => {},
        }
        StreamingReport {
            pass,
            frames_submitted: self.submitted,
            frames_emitted: c.emitted,
            unknown_pts: c.unknown_pts,
            duplicates: c.duplicates,
            reorders,
            max_lag_frames: self.max_lag,
            eagain_retries: self.eagain_retries,
            delays_us: self.state.delays_us(),
            fail_reasons,
        }
    }

    fn record_drains(&mut self, drains: &Vec<Vec<Option<i64>>>)
        ensures
            final(self).view() == (StreamView {
                run: run_steps(old(self).view().run, crate::loop_engine::drains_view(drains@).flatten()),
                ..old(self).view()
            }),
    {
        let ghost ds = crate::loop_engine::drains_view(drains@);
        let mut i: usize = 0;
        while i < drains.len()
            invariant
                i <= drains@.len(),
                ds == crate::loop_engine::drains_view(drains@),
                self.view() == (StreamView {
                    run: run_steps(old(self).view().run, ds.take(i as int).flatten()),
                    ..old(self).view()
                }),
            decreases drains@.len() - i,
        {
            self.state.record_batch(&drains[i], &self.send_times_us, &self.epoch);
            proof {
                assert(ds.take(i + 1) =~= ds.take(i as int).push(ds[i as int]));
                ds.take(i as int).lemma_flatten_push(ds[i as int]);
                lemma_run_steps_concat(old(self).view().run, ds.take(i as int).flatten(), ds[i as int]);
            }
            i += 1;
        }
        assert(ds.take(i as int) =~= ds);
    }
}

// ---------------------------------------------------------------------------
// A whole streaming run
// ---------------------------------------------------------------------------

/// The view of a fresh streaming run.
pub open spec fn fresh_stream() -> StreamView {
    StreamView {
        ordinal: 0,
        submitted: 0,
        eagain_retries: 0,
        send_times: 0,
        run: RunView { emissions: crate::ordinals::initial_emission_state(), notes: Seq::empty() },
        max_lag: 0,
        fatal: None,
    }
}

/// `calls` extends `base`, and while the run has not failed its emission
/// bookkeeping is that of every frame the backend handed out since `base`.
pub open spec fn stream_tracks(v: StreamView, base: Seq<crate::loop_engine::BackendCall>,
    calls: Seq<crate::loop_engine::BackendCall>) -> bool {
    &&& calls.len() >= base.len()
    &&& calls.take(base.len() as int) == base
    &&& v.fatal is None ==> v.run.emissions == crate::ordinals::emissions_after(
        crate::ordinals::initial_emission_state(), crate::loop_engine::recovered(calls.skip(base.len() as int)))
}

proof fn lemma_run_emissions(r: RunView, os: Seq<Option<i64>>)
    ensures
        run_steps(r, os).emissions == crate::ordinals::emissions_after(r.emissions, os),
    decreases os.len(),
{
    if os.len() > 0 {
        lemma_run_emissions(r, os.drop_last());
    }
}

/// Appending `x` to a tracked log feeds `x`'s frames to the bookkeeping.
proof fn lemma_tracks_append(
    base: Seq<crate::loop_engine::BackendCall>,
    calls: Seq<crate::loop_engine::BackendCall>,
    x: Seq<crate::loop_engine::BackendCall>,
)
    requires
        calls.len() >= base.len(),
        calls.take(base.len() as int) == base,
    ensures
        (calls + x).len() >= base.len(),
        (calls + x).take(base.len() as int) == base,
        crate::loop_engine::recovered((calls + x).skip(base.len() as int))
            == crate::loop_engine::recovered(calls.skip(base.len() as int)) + crate::loop_engine::recovered(x),
{
    assert((calls + x).take(base.len() as int) =~= calls.take(base.len() as int));
    assert((calls + x).skip(base.len() as int) =~= calls.skip(base.len() as int) + x);
    crate::loop_engine::lemma_recovered_concat(calls.skip(base.len() as int), x);
}

proof fn lemma_stream_step_tracks(
    v: StreamView,
    base: Seq<crate::loop_engine::BackendCall>,
    calls: Seq<crate::loop_engine::BackendCall>,
    d: Seq<u8>,
    v2: StreamView,
    calls2: Seq<crate::loop_engine::BackendCall>,
)
    requires
        v.fatal is None,
        stream_tracks(v, base, calls),
        stream_step(v, calls, d, v2, calls2),
    ensures
        stream_tracks(v2, base, calls2),
        v2.submitted == v.submitted || v2.submitted == crate::counter::bump(v.submitted),
{
    let v1 = sent_view(v);
    if exists|e: Seq<char>| #[trigger] stream_submit_failed(v1, calls, d, v2, calls2, e) {
        let e = choose|e: Seq<char>| #[trigger] stream_submit_failed(v1, calls, d, v2, calls2, e);
        let x = calls2.skip(calls.len() as int);
        assert(calls2 =~= calls + x);
        lemma_tracks_append(base, calls, x);
    } else if exists|ds: Seq<Seq<Option<i64>>>, tail: Seq<Option<i64>>|
        #[trigger] stream_drained(v1, calls, d, v2, calls2, ds, tail) {
        let (ds, tail) = choose|ds: Seq<Seq<Option<i64>>>, tail: Seq<Option<i64>>|
            #[trigger] stream_drained(v1, calls, d, v2, calls2, ds, tail);
        let x = crate::loop_engine::accepted_submission(v1.ordinal, d, ds) + crate::loop_engine::drained(tail);
        assert(calls2 =~= calls + x);
        lemma_tracks_append(base, calls, x);
        crate::loop_engine::lemma_recovered_concat(crate::loop_engine::accepted_submission(v1.ordinal, d, ds),
            crate::loop_engine::drained(tail));
        crate::loop_engine::lemma_recovered_again_rounds(v1.ordinal, d, ds);
        crate::loop_engine::lemma_recovered_frames(tail);
        let r0 = crate::loop_engine::recovered(calls.skip(base.len() as int));
        let e0 = crate::ordinals::initial_emission_state();
        let a = stream_accepted(v1, ds);
        lemma_run_emissions(v.run, ds.flatten());
        lemma_run_emissions(a.run, tail);
        crate::harness::lemma_emissions_concat(e0, r0, ds.flatten());
        crate::harness::lemma_emissions_concat(e0, r0 + ds.flatten(), tail);
        assert(r0 + (ds.flatten() + tail) =~= r0 + ds.flatten() + tail);
    } else {
        let (ds, e) = choose|ds: Seq<Seq<Option<i64>>>, e: Seq<char>|
            #[trigger] stream_drain_failed(v1, calls, d, v2, calls2, ds, e);
        let x = calls2.skip(calls.len() as int);
        assert(calls2 =~= calls + x);
        lemma_tracks_append(base, calls, x);
    }
}

proof fn lemma_stream_flush_tracks(
    v: StreamView,
    base: Seq<crate::loop_engine::BackendCall>,
    calls: Seq<crate::loop_engine::BackendCall>,
    v2: StreamView,
    calls2: Seq<crate::loop_engine::BackendCall>,
)
    requires
        stream_tracks(v, base, calls),
        stream_flush(v, calls, v2, calls2),
    ensures
        stream_tracks(v2, base, calls2),
        v2.submitted == v.submitted,
{
    let v1 = choose|v1: StreamView| {
        &&& #[trigger] with_missing_note(v1) == v2
        &&& if v.fatal is Some {
            v1 == v && calls2 == calls
        } else {
            ||| exists|n: nat, rec: Seq<Option<i64>>| #[trigger] flush_done(v, calls, v1, calls2, n, rec)
            ||| exists|e: Seq<char>| #[trigger] flush_broke(v, calls, v1, calls2, e)
        }
    };
    if v.fatal is None {
        if exists|n: nat, rec: Seq<Option<i64>>| #[trigger] flush_done(v, calls, v1, calls2, n, rec) {
            let (n, rec) = choose|n: nat, rec: Seq<Option<i64>>| #[trigger] flush_done(v, calls, v1, calls2, n, rec);
            let (ds, tail) = choose|ds: Seq<Seq<Option<i64>>>, tail: Seq<Option<i64>>| {
                &&& ds.len() == n
                &&& calls2 == calls + #[trigger] crate::loop_engine::flushed(ds, tail)
                &&& rec == ds.flatten() + tail
            };
            lemma_tracks_append(base, calls, crate::loop_engine::flushed(ds, tail));
            crate::loop_engine::lemma_recovered_flushed(ds, tail);
            lemma_run_emissions(v.run, rec);
            crate::harness::lemma_emissions_concat(crate::ordinals::initial_emission_state(),
                crate::loop_engine::recovered(calls.skip(base.len() as int)), rec);
        } else {
            let e = choose|e: Seq<char>| #[trigger] flush_broke(v, calls, v1, calls2, e);
            let x = calls2.skip(calls.len() as int);
            assert(calls2 =~= calls + x);
            lemma_tracks_append(base, calls, x);
        }
    }
}

/// A demuxed access unit as plain bytes; `None` when the packet had no data.
pub open spec fn packet_bytes(p: Option<Vec<u8>>) -> Option<Seq<u8>> {
    match p {
        Some(v) => Some(v@),
        None => None,
    }
}

/// The demuxed access units as plain bytes.
pub open spec fn packets_bytes(ps: Seq<Option<Vec<u8>>>) -> Seq<Option<Seq<u8>>> {
    Seq::new(ps.len(), |k: int| packet_bytes(ps[k]))
}

/// A streaming run takes another access unit: it has not failed and is
/// under the frame limit, if any.
pub open spec fn stream_wants(v: StreamView, frames: Option<u64>) -> bool {
    v.fatal is None && match frames {
        Some(l) => v.submitted < l,
        None => true,
    }
}

/// Step `k` of a recorded streaming run: the run wanted more, and access
/// unit `ps[k]` took it from `vs[k]`, `cs[k]` to `vs[k + 1]`, `cs[k + 1]`.
pub open spec fn stream_step_at(
    ps: Seq<Option<Seq<u8>>>,
    frames: Option<u64>,
    vs: Seq<StreamView>,
    cs: Seq<Seq<crate::loop_engine::BackendCall>>,
    k: int,
) -> bool {
    &&& stream_wants(vs[k], frames)
    &&& match ps[k] {
        Some(d) => stream_step(vs[k], cs[k], d, vs[k + 1], cs[k + 1]),
        None => stream_no_data(vs[k], vs[k + 1]) && cs[k + 1] == cs[k],
    }
}

/// A whole streaming run over `ps` from `v0`, `calls0`: the states `vs`
/// and backend logs `cs` after each access unit taken, in order, stopping
/// when the run no longer wants more or the sample ends; then the tail
/// flush, to `vf`, `cf`.
pub open spec fn stream_run(
    ps: Seq<Option<Seq<u8>>>,
    frames: Option<u64>,
    v0: StreamView,
    calls0: Seq<crate::loop_engine::BackendCall>,
    vs: Seq<StreamView>,
    cs: Seq<Seq<crate::loop_engine::BackendCall>>,
    vf: StreamView,
    cf: Seq<crate::loop_engine::BackendCall>,
) -> bool {
    let n = vs.len() - 1;
    &&& vs.len() == cs.len()
    &&& 1 <= vs.len() <= ps.len() + 1
    &&& vs[0] == v0
    &&& cs[0] == calls0
    &&& forall|k: int| 0 <= k < n ==> #[trigger] stream_step_at(ps, frames, vs, cs, k)
    &&& (n == ps.len() || !stream_wants(vs[n], frames))
    &&& stream_flush(vs[n], cs[n], vf, cf)
}

impl StreamingRun {
    /// Drive a fresh run over the whole sample: while the run wants more
    /// (see [`StreamingRun::wants_more`]) submit the next demuxed access
    /// unit, then finish. The run passes exactly when it did not fail and
    /// the backend handed out the ordinals `1, 2, ..., submitted` in order,
    /// each once, and nothing else; with a frame limit, no more than the
    /// limit are submitted.
    pub fn run_all<B: DecoderLoopBackend>(&mut self, backend: &mut B, packets: &Vec<Option<Vec<u8>>>,
        frames: Option<u64>) -> (r: StreamingReport)
        requires
            old(self).view() == fresh_stream(),
        ensures
            final(backend).calls().len() >= old(backend).calls().len(),
            final(backend).calls().take(old(backend).calls().len() as int) == old(backend).calls(),
            report_matches(r, final(self).view(), final(self).delays()),
            ({
                let rec = crate::loop_engine::recovered(final(backend).calls().skip(old(backend).calls().len() as int));
                rec.len() < i64::MAX ==> (r.pass <==> (final(self).view().fatal is None
                    && rec == crate::ordinals::in_order(final(self).view().submitted as nat)))
            }),
            frames matches Some(l) ==> final(self).view().submitted <= l,
            exists|vs: Seq<StreamView>, cs: Seq<Seq<crate::loop_engine::BackendCall>>|
                #[trigger] stream_run(packets_bytes(packets@), frames, fresh_stream(), old(backend).calls(), vs, cs,
                    final(self).view(), final(backend).calls()),
    {
        let ghost base = backend.calls();
        let ghost ps = packets_bytes(packets@);
        let ghost mut vs: Seq<StreamView> = seq![self.view()];
        let ghost mut cs: Seq<Seq<crate::loop_engine::BackendCall>> = seq![base];
        proof {
            assert(base.take(base.len() as int) =~= base);
            assert(base.skip(base.len() as int) =~= Seq::<crate::loop_engine::BackendCall>::empty());
        }
        let mut i: usize = 0;
        while i < packets.len()
            invariant
                i <= packets@.len(),
                ps == packets_bytes(packets@),
                stream_tracks(self.view(), base, backend.calls()),
                frames matches Some(l) ==> self.view().submitted <= l,
                vs.len() == i + 1,
                cs.len() == i + 1,
                vs[0] == fresh_stream(),
                cs[0] == base,
                vs[i as int] == self.view(),
                cs[i as int] == backend.calls(),
                forall|k: int| 0 <= k < i ==> #[trigger] stream_step_at(ps, frames, vs, cs, k),
            ensures
                vs.len() == cs.len(),
                1 <= vs.len() <= packets@.len() + 1,
                vs[0] == fresh_stream(),
                cs[0] == base,
                vs.last() == self.view(),
                cs.last() == backend.calls(),
                forall|k: int| 0 <= k < vs.len() - 1 ==> #[trigger] stream_step_at(ps, frames, vs, cs, k),
                vs.len() - 1 == packets@.len() || !stream_wants(self.view(), frames),
                stream_tracks(self.view(), base, backend.calls()),
                frames matches Some(l) ==> self.view().submitted <= l,
            decreases packets@.len() - i,
        {
            if !self.wants_more(frames) {
                break;
            }
            let ghost v0 = self.view();
            let ghost c0 = backend.calls();
            let data: Option<&[u8]> = match &packets[i] {
                Some(p) => Some(p.as_slice()),
                None => None,
            };
            self.on_packet(backend, data);
            proof {
                match data {
                    Some(d) => {
                        lemma_stream_step_tracks(v0, base, c0, d@, self.view(), backend.calls());
                    },
                    None => {},
                }
                let ghost vs0 = vs;
                let ghost cs0 = cs;
                vs = vs.push(self.view());
                cs = cs.push(backend.calls());
                assert(ps[i as int] == packet_bytes(packets@[i as int]));
                assert(stream_step_at(ps, frames, vs, cs, i as int));
                assert forall|k: int| 0 <= k < i + 1 implies #[trigger] stream_step_at(ps, frames, vs, cs, k) by {
                    if k < i {
                        assert(stream_step_at(ps, frames, vs0, cs0, k));
                        assert(vs[k] == vs0[k] && vs[k + 1] == vs0[k + 1] && cs[k] == cs0[k] && cs[k + 1] == cs0[k + 1]);
                    }
                }
            }
            i += 1;
        }
        let ghost v1 = self.view();
        let ghost c1 = backend.calls();
        let r = self.finish(backend);
        proof {
            assert(stream_run(ps, frames, fresh_stream(), base, vs, cs, self.view(), backend.calls()));
            lemma_stream_flush_tracks(v1, base, c1, self.view(), backend.calls());
            let rec = crate::loop_engine::recovered(backend.calls().skip(base.len() as int));
            let v = self.view();
            if rec.len() < i64::MAX && v.fatal is None {
                crate::ordinals::lemma_clean_iff_in_order(rec);
                crate::ordinals::lemma_anomalies_bounded(rec);
                let k = v.run.emissions.counts;
                assert(wrapping_sum(k.reorders, k.skips) == k.reorders + k.skips);
                if rec == crate::ordinals::in_order(v.submitted as nat) {
                    assert(rec.len() == v.submitted);
                }
                if r.pass {
                    assert(crate::ordinals::clean(k));
                    assert(rec == crate::ordinals::in_order(rec.len()));
                }
            }
        }
        r
    }
}

/// The tail flush of a run that had not failed: `n` end-of-stream retries
/// and the recovered frames recorded.
pub open spec fn flush_done(
    v: StreamView,
    calls: Seq<crate::loop_engine::BackendCall>,
    v2: StreamView,
    calls2: Seq<crate::loop_engine::BackendCall>,
    n: nat,
    recovered: Seq<Option<i64>>,
) -> bool {
    &&& v.fatal is None
    &&& n <= MAX_EAGAIN_CYCLES
    &&& exists|ds: Seq<Seq<Option<i64>>>, tail: Seq<Option<i64>>| {
        &&& ds.len() == n
        &&& calls2 == calls + #[trigger] crate::loop_engine::flushed(ds, tail)
        &&& recovered == ds.flatten() + tail
    }
    &&& v2 == StreamView {
        eagain_retries: crate::counter::bump_times(v.eagain_retries, n),
        run: run_steps(v.run, recovered),
        ..v
    }
}

/// The tail flush of a run that had not failed broke with `e`.
pub open spec fn flush_broke(
    v: StreamView,
    calls: Seq<crate::loop_engine::BackendCall>,
    v2: StreamView,
    calls2: Seq<crate::loop_engine::BackendCall>,
    e: Seq<char>,
) -> bool {
    &&& v.fatal is None
    &&& crate::loop_engine::flush_error_after(calls, calls2, MAX_EAGAIN_CYCLES, e)
    &&& v2 == StreamView { fatal: Some("flush: "@ + e), ..v }
}

/// The flush step of `finish`, before the final note: nothing happens to a
/// failed run.
pub open spec fn stream_flush(
    v: StreamView,
    calls: Seq<crate::loop_engine::BackendCall>,
    v2: StreamView,
    calls2: Seq<crate::loop_engine::BackendCall>,
) -> bool {
    exists|v1: StreamView| {
        &&& #[trigger] with_missing_note(v1) == v2
        &&& if v.fatal is Some {
            v1 == v && calls2 == calls
        } else {
            ||| exists|n: nat, rec: Seq<Option<i64>>| #[trigger] flush_done(v, calls, v1, calls2, n, rec)
            ||| exists|e: Seq<char>| #[trigger] flush_broke(v, calls, v1, calls2, e)
        }
    }
}

/// A run that did not fail but emitted fewer frames than it submitted
/// gets a closing note saying how many never came out.
pub open spec fn with_missing_note(v: StreamView) -> StreamView {
    let k = v.run.emissions.counts;
    if v.fatal is None && k.emitted < v.submitted {
        StreamView {
            run: RunView {
                notes: with_note(v.run.notes,
                    crate::text::decimal((v.submitted - k.emitted) as nat)
                        + " frame(s) submitted but never emitted by end of flush ("@
                        + crate::text::decimal(v.submitted as nat) + " submitted, "@
                        + crate::text::decimal(k.emitted as nat) + " emitted)"@),
                ..v.run
            },
            ..v
        }
    } else {
        v
    }
}

/// The report of a finished run in state `v`: it passes when it did not
/// fail, every frame carried a known ordinal exactly once and in order,
/// and every submitted frame was emitted; its reasons are the notes and
/// then the failure.
pub open spec fn report_matches(r: StreamingReport, v: StreamView, delays: Seq<u64>) -> bool {
    let k = v.run.emissions.counts;
    &&& r.frames_submitted == v.submitted
    &&& r.frames_emitted == k.emitted
    &&& r.unknown_pts == k.unknown_pts
    &&& r.duplicates == k.duplicates
    &&& r.reorders == wrapping_sum(k.reorders, k.skips)
    &&& r.max_lag_frames == v.max_lag
    &&& r.eagain_retries == v.eagain_retries
    &&& r.delays_us@ == delays
    &&& r.pass == (v.fatal is None && k.unknown_pts == 0 && k.duplicates == 0
        && wrapping_sum(k.reorders, k.skips) == 0 && k.emitted == v.submitted)
    &&& texts(r.fail_reasons@) == match v.fatal {
        Some(f) => v.run.notes.push(f),
        None => v.run.notes,
    }
}

/// Recording `a` then `b` is recording `a + b`.
pub proof fn lemma_run_steps_concat(v: RunView, a: Seq<Option<i64>>, b: Seq<Option<i64>>)
    ensures
        run_steps(run_steps(v, a), b) == run_steps(v, a + b),
    decreases b.len(),
{
    if b.len() == 0 {
        assert(a + b =~= a);
    } else {
        lemma_run_steps_concat(v, a, b.drop_last());
        assert((a + b).drop_last() =~= a + b.drop_last());
    }
}

// ---------------------------------------------------------------------------
// Drain classification and ordinal coverage
// ---------------------------------------------------------------------------

/// Count a drain: zero-output drains and multi-output drains, and the
/// largest number of outputs seen in one drain.
pub fn classify_drain(
    drain: &[Option<i64>],
    zero_output_drains: &mut u64,
    multi_output_drains: &mut u64,
    multi_output_max: &mut usize,
)
    ensures
        *final(zero_output_drains) == if drain@.len() == 0 {
            crate::counter::bump(*old(zero_output_drains))
        } else {
            *old(zero_output_drains)
        },
        *final(multi_output_drains) == if drain@.len() > 1 {
            crate::counter::bump(*old(multi_output_drains))
        } else {
            *old(multi_output_drains)
        },
        *final(multi_output_max) == if drain@.len() > *old(multi_output_max) {
            drain@.len() as usize
        } else {
            *old(multi_output_max)
        },
{
    if drain.len() == 0 {
        *zero_output_drains = inc(*zero_output_drains);
    } else if drain.len() > 1 {
        *multi_output_drains = inc(*multi_output_drains);
    }
    if drain.len() > *multi_output_max {
        *multi_output_max = drain.len();
    }
}

/// `"accepted_after_eagain"` when any attempt was answered `Again`, else
/// `"accepted"`.
pub fn send_outcome_label(record: &SubmitRecord) -> (r: &'static str)
    ensures
        r@ == if exists|i: int| 0 <= i < record.attempts@.len() && (#[trigger] record.attempts@[i]).again {
            "accepted_after_eagain"@
        } else {
            "accepted"@
        },
{
    let mut i: usize = 0;
    while i < record.attempts.len()
        invariant
            i <= record.attempts@.len(),
            forall|k: int| 0 <= k < i ==> !(#[trigger] record.attempts@[k]).again,
        decreases record.attempts@.len() - i,
    {
        if record.attempts[i].again {
            return "accepted_after_eagain";
        }
        i += 1;
    }
    "accepted"
}

/// Number of unknown ordinals in `os`.
pub open spec fn unknown_count(os: Seq<Option<i64>>) -> nat
    decreases os.len(),
{
    if os.len() == 0 { 0 } else { unknown_count(os.drop_last()) + if os.last() is None { 1nat } else { 0nat } }
}

/// Number of known ordinals in `os` that already occurred earlier.
pub open spec fn duplicate_count(os: Seq<Option<i64>>) -> nat
    decreases os.len(),
{
    if os.len() == 0 {
        0
    } else {
        duplicate_count(os.drop_last()) + if os.last() is Some && os.drop_last().contains(os.last()) {
            1nat
        } else {
            0nat
        }
    }
}

/// Every known ordinal of `os` lies in `1..=n`.
pub open spec fn all_in_range(os: Seq<Option<i64>>, n: int) -> bool {
    forall|i: int| 0 <= i < os.len() && (#[trigger] os[i]) is Some ==> 1 <= os[i].unwrap() <= n
}

/// What the emitted ordinals of a run say about its coverage.
#[derive(Debug, Clone, Copy, PartialEq, Eq)]
pub struct Coverage {
    pub emitted: u64,
    pub unknown_pts: u64,
    pub duplicates: u64,
    /// Ordinal 0 never appears.
    pub ordinal_zero_never_emitted: bool,
    /// Every emission carried a known ordinal, none twice, and together
    /// they are exactly `1..=submitted`.
    pub exact: bool,
}

/// The coverage of emitted ordinals `os` against the ordinals `1..=n`:
/// exact when there was no failure, no unknown and no duplicate ordinal,
/// all lie in `1..=n` and there are as many as that range holds.
pub open spec fn coverage_of(os: Seq<Option<i64>>, n: int, failed: bool) -> Coverage {
    Coverage {
        emitted: os.len() as u64,
        unknown_pts: unknown_count(os) as u64,
        duplicates: duplicate_count(os) as u64,
        ordinal_zero_never_emitted: !os.contains(Some(0i64)),
        exact: !failed && unknown_count(os) == 0 && duplicate_count(os) == 0 && all_in_range(os, n)
            && os.len() == (if n > 0 { n } else { 0 }),
    }
}

/// The known ordinals of `os`, as integers.
pub open spec fn known_ints(os: Seq<Option<i64>>) -> Set<int> {
    Set::new(|v: int| exists|i: int| 0 <= i < os.len() && #[trigger] os[i] is Some && os[i].unwrap() as int == v)
}

proof fn lemma_known_ints_push(p: Seq<Option<i64>>, x: Option<i64>)
    ensures
        known_ints(p.push(x)) == match x {
            Some(v) => known_ints(p).insert(v as int),
            None => known_ints(p),
        },
{
    let q = p.push(x);
    let target = match x {
        Some(v) => known_ints(p).insert(v as int),
        None => known_ints(p),
    };
    assert forall|v: int| known_ints(q).contains(v) <==> target.contains(v) by {
        if known_ints(q).contains(v) {
            let i = choose|i: int| 0 <= i < q.len() && #[trigger] q[i] is Some && q[i].unwrap() as int == v;
            if i < p.len() {
                assert(p[i] == q[i]);
                assert(known_ints(p).contains(v));
            }
        }
        if known_ints(p).contains(v) {
            let i = choose|i: int| 0 <= i < p.len() && #[trigger] p[i] is Some && p[i].unwrap() as int == v;
            assert(q[i] == p[i]);
        }
        if x is Some && v == x.unwrap() as int {
            assert(q[p.len() as int] == x);
        }
    }
    assert(known_ints(q) =~= target);
}

/// Without unknown or repeated ordinals, the known ordinals are as many as
/// the emissions.
proof fn lemma_known_ints_len(os: Seq<Option<i64>>)
    requires
        unknown_count(os) == 0,
        duplicate_count(os) == 0,
    ensures
        known_ints(os).finite(),
        known_ints(os).len() == os.len(),
    decreases os.len(),
{
    if os.len() == 0 {
        assert(known_ints(os) =~= Set::empty());
    } else {
        let p = os.drop_last();
        let x = os.last();
        assert(os == p.push(x));
        lemma_known_ints_len(p);
        lemma_known_ints_push(p, x);
        let v = x.unwrap();
        if known_ints(p).contains(v as int) {
            let i = choose|i: int| 0 <= i < p.len() && #[trigger] p[i] is Some && p[i].unwrap() as int == v as int;
            assert(p[i] == x);
            assert(p.contains(x));
        }
    }
}

/// Exact coverage, for a run that did not fail and `n` submissions, means
/// what it says: every emission carried a known ordinal, none twice, and
/// the ordinals emitted are exactly `1..=n`.
pub proof fn lemma_exact_coverage_is_exact_set(os: Seq<Option<i64>>, n: int)
    requires
        0 <= n,
    ensures
        coverage_of(os, n, false).exact <==> (unknown_count(os) == 0 && duplicate_count(os) == 0
            && known_ints(os) == vstd::set_lib::set_int_range(1, n + 1)),
{
    let range = vstd::set_lib::set_int_range(1, n + 1);
    vstd::set_lib::lemma_int_range(1, n + 1);
    let inr = all_in_range(os, n);
    assert(inr <==> known_ints(os).subset_of(range)) by {
        if inr {
            assert forall|v: int| known_ints(os).contains(v) implies range.contains(v) by {
                let i = choose|i: int| 0 <= i < os.len() && #[trigger] os[i] is Some && os[i].unwrap() as int == v;
            }
        }
        if known_ints(os).subset_of(range) {
            assert forall|i: int| 0 <= i < os.len() && (#[trigger] os[i]) is Some implies 1 <= os[i].unwrap() <= n by {
                assert(known_ints(os).contains(os[i].unwrap() as int));
            }
        }
    }
    if unknown_count(os) == 0 && duplicate_count(os) == 0 {
        lemma_known_ints_len(os);
        if coverage_of(os, n, false).exact {
            vstd::set_lib::lemma_subset_equality(known_ints(os), range);
        }
        if known_ints(os) == range {
            assert(known_ints(os).subset_of(range));
        }
    }
}

/// Check the emitted ordinals `os` of a run with `submitted` submissions
/// (taken as `i64`, as the submission ordinals are).
pub fn coverage(os: &Vec<Option<i64>>, submitted: u64, failed: bool) -> (c: Coverage)
    ensures
        c == coverage_of(os@, (submitted as i64) as int, failed),
{
    broadcast use vstd::std_specs::hash::group_hash_axioms;
    let n: i64 = submitted as i64;
    let mut seen: std::collections::HashSet<i64> = std::collections::HashSet::new();
    let mut unknown: u64 = 0;
    let mut dups: u64 = 0;
    let mut in_range = true;
    let mut zero_seen = false;
    let mut i: usize = 0;
    while i < os.len()
        invariant
            i <= os@.len(),
            unknown == unknown_count(os@.take(i as int)),
            dups == duplicate_count(os@.take(i as int)),
            unknown + dups <= i,
            in_range == all_in_range(os@.take(i as int), n as int),
            zero_seen == os@.take(i as int).contains(Some(0i64)),
            forall|v: i64| seen@.contains(v) <==> os@.take(i as int).contains(Some(v)),
        decreases os@.len() - i,
    {
        let ghost prev = os@.take(i as int);
        assert(os@.take(i + 1) =~= prev.push(os@[i as int]));
        assert(os@.take(i + 1).drop_last() =~= prev);
        match os[i] {
            None => {
                unknown = unknown + 1;
            },
            Some(v) => {
                if seen.contains(&v) {
                    dups = dups + 1;
                } else {
                    seen.insert(v);
                }
                if !(1 <= v && v <= n) {
                    in_range = false;
                }
                if v == 0 {
                    zero_seen = true;
                }
            },
        }
        proof {
            let cur = os@.take(i + 1);
            assert forall|v: i64| seen@.contains(v) <==> cur.contains(Some(v)) by {
                if cur.contains(Some(v)) {
                    let k = choose|k: int| 0 <= k < cur.len() && cur[k] == Some(v);
                    if k < i {
                        assert(prev[k] == Some(v));
                    }
                }
                if prev.contains(Some(v)) {
                    let k = choose|k: int| 0 <= k < prev.len() && prev[k] == Some(v);
                    assert(cur[k] == Some(v));
                }
            }
            if cur.contains(Some(0i64)) && !prev.contains(Some(0i64)) {
                assert(os@[i as int] == Some(0i64));
            }
            if prev.contains(Some(0i64)) {
                let k = choose|k: int| 0 <= k < prev.len() && prev[k] == Some(0i64);
                assert(cur[k] == Some(0i64));
            }
            if all_in_range(cur, n as int) {
                assert forall|k: int| 0 <= k < prev.len() && (#[trigger] prev[k]) is Some implies
                    1 <= prev[k].unwrap() <= n by {
                    assert(cur[k] == prev[k]);
                }
            }
        }
        i += 1;
    }
    assert(os@.take(i as int) =~= os@);
    Coverage {
        emitted: os.len() as u64,
        unknown_pts: unknown,
        duplicates: dups,
        ordinal_zero_never_emitted: !zero_seen,
        exact: !failed && unknown == 0 && dups == 0 && in_range
            && (os.len() as i128) == (if n > 0 { n as i128 } else { 0i128 }),
    }
}

// ---------------------------------------------------------------------------
// Characterization: phase A forcing, phase B steady state, tail
// ---------------------------------------------------------------------------

/// Why phase A ended.
#[derive(Debug, Clone, Copy, PartialEq, Eq, Structural)]
pub enum PhaseAStop {
    /// The input ran out while still forcing.
    InputExhausted,
    /// Three `Again` events were recorded.
    EagainEventsReached,
    /// `max_packets` access units were submitted.
    MaxPacketsReached,
    /// The wall-clock bound passed.
    TimeoutReached,
}

/// Part of a run.
#[derive(Debug, Clone, Copy, PartialEq, Eq, Structural)]
pub enum RunPhase {
    A,
    B,
    Tail,
}

/// One `send_packet` attempt in the characterization log.
#[derive(Debug, Clone, Copy, PartialEq, Eq)]
pub struct AttemptEntry {
    pub ordinal: i64,
    pub phase: RunPhase,
    pub again: bool,
}

/// One of the first three `Again` events: the ordinal and what its drain
/// recovered.
#[derive(Debug, Clone, PartialEq, Eq)]
pub struct EagainEvent {
    pub ordinal: i64,
    pub recovered: Vec<Option<i64>>,
}

/// Abstract state of a characterization run.
pub struct CharView {
    pub ordinal: i64,
    pub submitted: u64,
    pub accepted: u64,
    pub mid_stream: Seq<Option<i64>>,
    pub zero_output_drains: u64,
    pub multi_output_drains: u64,
    pub multi_output_max: usize,
    pub attempts: Seq<AttemptEntry>,
    pub events: Seq<(i64, Seq<Option<i64>>)>,
    pub phase_a_again: u64,
    pub phase_b_again: u64,
    pub in_phase_a: bool,
    pub stop: PhaseAStop,
    pub fatal: Option<(Seq<char>, RunPhase)>,
}

/// A drain counted into the view.
pub open spec fn char_drain(v: CharView, drain: Seq<Option<i64>>) -> CharView {
    CharView {
        mid_stream: v.mid_stream + drain,
        zero_output_drains: if drain.len() == 0 { crate::counter::bump(v.zero_output_drains) } else { v.zero_output_drains },
        multi_output_drains: if drain.len() > 1 { crate::counter::bump(v.multi_output_drains) } else { v.multi_output_drains },
        multi_output_max: if drain.len() > v.multi_output_max { drain.len() as usize } else { v.multi_output_max },
        ..v
    }
}

/// The attempts of an accepted submission: one per `Again` round, each
/// with its drain counted (and kept as an event while fewer than three are
/// held), then the accepted one.
pub open spec fn char_rounds(v: CharView, ord: i64, ds: Seq<Seq<Option<i64>>>) -> CharView
    decreases ds.len(),
{
    if ds.len() == 0 {
        v
    } else {
        let p = char_rounds(v, ord, ds.drop_last());
        let d = ds.last();
        let q = char_drain(p, d);
        CharView {
            attempts: p.attempts.push(AttemptEntry { ordinal: ord, phase: if p.in_phase_a { RunPhase::A } else { RunPhase::B }, again: true }),
            phase_a_again: if p.in_phase_a { crate::counter::bump(p.phase_a_again) } else { p.phase_a_again },
            phase_b_again: if p.in_phase_a { p.phase_b_again } else { crate::counter::bump(p.phase_b_again) },
            events: if p.events.len() < 3 { p.events.push((ord, d)) } else { p.events },
            ..q
        }
    }
}

/// After an accepted submission of `ord` with `Again` rounds `ds`.
pub open spec fn char_accepted(v: CharView, ord: i64, ds: Seq<Seq<Option<i64>>>) -> CharView {
    let r = char_rounds(v, ord, ds);
    CharView {
        submitted: crate::counter::bump(v.submitted),
        accepted: crate::counter::bump(v.accepted),
        attempts: r.attempts.push(AttemptEntry { ordinal: ord, phase: if v.in_phase_a { RunPhase::A } else { RunPhase::B }, again: false }),
        ..r
    }
}

/// The phase decision before an access unit: phase A ends on three
/// events, then on `max_packets` submissions, then on the time bound.
pub open spec fn char_phase(v: CharView, max_packets: u64, timed_out: bool) -> CharView {
    if !v.in_phase_a {
        v
    } else if v.events.len() >= 3 {
        CharView { in_phase_a: false, stop: PhaseAStop::EagainEventsReached, ..v }
    } else if v.submitted >= max_packets {
        CharView { in_phase_a: false, stop: PhaseAStop::MaxPacketsReached, ..v }
    } else if timed_out {
        CharView { in_phase_a: false, stop: PhaseAStop::TimeoutReached, ..v }
    } else {
        v
    }
}

pub open spec fn phase_of(v: CharView) -> RunPhase {
    if v.in_phase_a { RunPhase::A } else { RunPhase::B }
}

/// One access unit of a characterization run after the phase decision
/// (`v` already carries the next ordinal).
pub open spec fn char_step(
    v: CharView,
    calls: Seq<crate::loop_engine::BackendCall>,
    d: Seq<u8>,
    v2: CharView,
    calls2: Seq<crate::loop_engine::BackendCall>,
) -> bool {
    ||| exists|e: Seq<char>| #[trigger] crate::loop_engine::submit_error_after(calls, calls2, v.ordinal, d, MAX_EAGAIN_CYCLES, e)
        && v2 == CharView { fatal: Some((ordinal_prefix(v.ordinal) + ": "@ + e, phase_of(v))), ..v }
    ||| exists|ds: Seq<Seq<Option<i64>>>, tail: Seq<Option<i64>>| #[trigger] char_drained(v, calls, d, v2, calls2, ds, tail)
    ||| exists|ds: Seq<Seq<Option<i64>>>, e: Seq<char>| #[trigger] char_drain_failed(v, calls, d, v2, calls2, ds, e)
}

/// Accepted; in phase A nothing more, in phase B the post-accept drain
/// returned `tail`.
pub open spec fn char_drained(
    v: CharView,
    calls: Seq<crate::loop_engine::BackendCall>,
    d: Seq<u8>,
    v2: CharView,
    calls2: Seq<crate::loop_engine::BackendCall>,
    ds: Seq<Seq<Option<i64>>>,
    tail: Seq<Option<i64>>,
) -> bool {
    let a = char_accepted(v, v.ordinal, ds);
    &&& ds.len() <= MAX_EAGAIN_CYCLES
    &&& if v.in_phase_a {
        tail.len() == 0 && calls2 == calls + crate::loop_engine::accepted_submission(v.ordinal, d, ds) && v2 == a
    } else {
        calls2 == calls + crate::loop_engine::accepted_submission(v.ordinal, d, ds) + crate::loop_engine::drained(tail)
            && v2 == char_drain(a, tail)
    }
}

/// Accepted in phase B, and the post-accept drain failed with `e`.
pub open spec fn char_drain_failed(
    v: CharView,
    calls: Seq<crate::loop_engine::BackendCall>,
    d: Seq<u8>,
    v2: CharView,
    calls2: Seq<crate::loop_engine::BackendCall>,
    ds: Seq<Seq<Option<i64>>>,
    e: Seq<char>,
) -> bool {
    &&& !v.in_phase_a
    &&& ds.len() <= MAX_EAGAIN_CYCLES
    &&& crate::loop_engine::failed_drain_after(calls + crate::loop_engine::accepted_submission(v.ordinal, d, ds), calls2, e)
    &&& v2 == CharView {
        fatal: Some((ordinal_prefix(v.ordinal) + " post-accept drain: "@ + e, RunPhase::B)),
        ..char_accepted(v, v.ordinal, ds)
    }
}

/// The view with the phase decided and the next ordinal taken.
pub open spec fn char_next(v: CharView, max_packets: u64, timed_out: bool) -> CharView {
    let p = char_phase(v, max_packets, timed_out);
    CharView { ordinal: crate::counter::succ_i64(p.ordinal), ..p }
}

/// One access unit with data.
pub open spec fn char_packet(
    v: CharView,
    max_packets: u64,
    timed_out: bool,
    calls: Seq<crate::loop_engine::BackendCall>,
    d: Seq<u8>,
    v2: CharView,
    calls2: Seq<crate::loop_engine::BackendCall>,
) -> bool {
    char_step(char_next(v, max_packets, timed_out), calls, d, v2, calls2)
}

/// One access unit whose demuxed packet had no data: the run fails.
pub open spec fn char_no_data(v: CharView, max_packets: u64, timed_out: bool, v2: CharView) -> bool {
    let w = char_next(v, max_packets, timed_out);
    v2 == CharView { fatal: Some((ordinal_prefix(w.ordinal) + ": demuxed packet has no data"@, phase_of(w))), ..w }
}

/// The bounded characterization protocol. Phase A submits without
/// draining to try to force `Again`; phase B drains after every
/// acceptance; the tail flush ends the run.
pub struct CharacterizeRun {
    ordinal: i64,
    submitted: u64,
    accepted: u64,
    mid_stream: Vec<Option<i64>>,
    zero_output_drains: u64,
    multi_output_drains: u64,
    multi_output_max: usize,
    attempts: Vec<AttemptEntry>,
    events: Vec<EagainEvent>,
    phase_a_again: u64,
    phase_b_again: u64,
    in_phase_a: bool,
    stop: PhaseAStop,
    fatal: Option<(String, RunPhase)>,
    max_packets: u64,
    timeout_secs: u64,
    start: std::time::Instant,
}

pub open spec fn event_views(e: Seq<EagainEvent>) -> Seq<(i64, Seq<Option<i64>>)> {
    Seq::new(e.len(), |i: int| (e[i].ordinal, e[i].recovered@))
}

pub open spec fn fatal_text(f: Option<(String, RunPhase)>) -> Option<(Seq<char>, RunPhase)> {
    match f {
        Some((s, p)) => Some((s@, p)),
        None => None,
    }
}

impl CharacterizeRun {
    pub closed spec fn view(&self) -> CharView {
        CharView {
            ordinal: self.ordinal,
            submitted: self.submitted,
            accepted: self.accepted,
            mid_stream: self.mid_stream@,
            zero_output_drains: self.zero_output_drains,
            multi_output_drains: self.multi_output_drains,
            multi_output_max: self.multi_output_max,
            attempts: self.attempts@,
            events: event_views(self.events@),
            phase_a_again: self.phase_a_again,
            phase_b_again: self.phase_b_again,
            in_phase_a: self.in_phase_a,
            stop: self.stop,
            fatal: fatal_text(self.fatal),
        }
    }

    pub closed spec fn max_packets(&self) -> u64 {
        self.max_packets
    }

    /// A run bounded by `max_packets` submissions and `timeout_secs` of
    /// phase A.
    pub fn new(max_packets: u64, timeout_secs: u64) -> (r: Self)
        ensures
            r.max_packets() == max_packets,
            r.view() == (CharView {
                ordinal: 0,
                submitted: 0,
                accepted: 0,
                mid_stream: Seq::empty(),
                zero_output_drains: 0,
                multi_output_drains: 0,
                multi_output_max: 0,
                attempts: Seq::empty(),
                events: Seq::empty(),
                phase_a_again: 0,
                phase_b_again: 0,
                in_phase_a: true,
                stop: PhaseAStop::InputExhausted,
                fatal: None,
            }),
    {
        let r = CharacterizeRun {
            ordinal: 0,
            submitted: 0,
            accepted: 0,
            mid_stream: Vec::new(),
            zero_output_drains: 0,
            multi_output_drains: 0,
            multi_output_max: 0,
            attempts: Vec::new(),
            events: Vec::new(),
            phase_a_again: 0,
            phase_b_again: 0,
            in_phase_a: true,
            stop: PhaseAStop::InputExhausted,
            fatal: None,
            max_packets,
            timeout_secs,
            start: instant_now(),
        };
        assert(event_views(r.events@) =~= Seq::<(i64, Seq<Option<i64>>)>::empty());
        r
    }

    /// Whether the run takes another access unit: it has not failed.
    pub fn wants_more(&self) -> (r: bool)
        ensures
            r == (self.view().fatal is None),
    {
        self.fatal.is_none()
    }

    fn count_drain(&mut self, drain: &Vec<Option<i64>>)
        ensures
            final(self).view() == char_drain(old(self).view(), drain@),
            final(self).max_packets() == old(self).max_packets(),
    {
        classify_drain(drain.as_slice(), &mut self.zero_output_drains, &mut self.multi_output_drains,
            &mut self.multi_output_max);
        let mut i: usize = 0;
        let ghost before = self.mid_stream@;
        let ghost mid = self.view();
        while i < drain.len()
            invariant
                i <= drain@.len(),
                self.mid_stream@ == before + drain@.take(i as int),
                before == old(self).mid_stream@,
                self.view() == (CharView { mid_stream: self.mid_stream@, ..mid }),
                self.max_packets == old(self).max_packets,
            decreases drain@.len() - i,
        {
            self.mid_stream.push(drain[i]);
            i += 1;
            assert(self.mid_stream@ =~= before + drain@.take(i as int));
        }
        assert(drain@.take(i as int) =~= drain@);
    }

    fn copy_ordinals(v: &Vec<Option<i64>>) -> (r: Vec<Option<i64>>)
        ensures
            r@ == v@,
    {
        let mut r: Vec<Option<i64>> = Vec::new();
        let mut i: usize = 0;
        while i < v.len()
            invariant
                i <= v@.len(),
                r@ == v@.take(i as int),
            decreases v@.len() - i,
        {
            r.push(v[i]);
            i += 1;
            assert(r@ =~= v@.take(i as int));
        }
        assert(v@.take(i as int) =~= v@);
        r
    }

    fn log_rounds(&mut self, ord: i64, drains: &Vec<Vec<Option<i64>>>)
        ensures
            final(self).view() == char_rounds(old(self).view(), ord, crate::loop_engine::drains_view(drains@)),
            final(self).max_packets() == old(self).max_packets(),
    {
        let ghost ds = crate::loop_engine::drains_view(drains@);
        let mut i: usize = 0;
        while i < drains.len()
            invariant
                i <= drains@.len(),
                ds == crate::loop_engine::drains_view(drains@),
                self.view() == char_rounds(old(self).view(), ord, ds.take(i as int)),
                self.max_packets() == old(self).max_packets(),
            decreases drains@.len() - i,
        {
            let ghost p = self.view();
            let phase = if self.in_phase_a { RunPhase::A } else { RunPhase::B };
            self.attempts.push(AttemptEntry { ordinal: ord, phase, again: true });
            if self.in_phase_a {
                self.phase_a_again = inc(self.phase_a_again);
            } else {
                self.phase_b_again = inc(self.phase_b_again);
            }
            self.count_drain(&drains[i]);
            if self.events.len() < 3 {
                let ghost ev = self.events@;
                self.events.push(EagainEvent { ordinal: ord, recovered: Self::copy_ordinals(&drains[i]) });
                assert(event_views(self.events@) =~= event_views(ev).push((ord, ds[i as int])));
            }
            proof {
                assert(ds.take(i + 1).drop_last() =~= ds.take(i as int));
                assert(ds.take(i + 1).last() == ds[i as int]);
            }
            i += 1;
        }
        assert(ds.take(i as int) =~= ds);
    }

    /// Submit the next access unit (`None` when the demuxed packet had no
    /// data), first deciding whether phase A is over.
    pub fn on_packet<B: DecoderLoopBackend>(&mut self, backend: &mut B, data: Option<&[u8]>)
        requires
            old(self).view().fatal is None,
        ensures
            final(self).max_packets() == old(self).max_packets(),
            match data {
                Some(d) => exists|timed_out: bool| #[trigger] char_packet(old(self).view(), old(self).max_packets(),
                    timed_out, old(backend).calls(), d@, final(self).view(), final(backend).calls()),
                None => final(backend).calls() == old(backend).calls() && exists|timed_out: bool|
                    #[trigger] char_no_data(old(self).view(), old(self).max_packets(), timed_out, final(self).view()),
            },
    {
        let ghost v0 = self.view();
        let mut timed_out = false;
        if self.in_phase_a {
            if self.events.len() >= 3 {
                self.in_phase_a = false;
                self.stop = PhaseAStop::EagainEventsReached;
            } else if self.submitted >= self.max_packets {
                self.in_phase_a = false;
                self.stop = PhaseAStop::MaxPacketsReached;
            } else if micros_since(&self.start) / 1_000_000 >= self.timeout_secs {
                timed_out = true;
                self.in_phase_a = false;
                self.stop = PhaseAStop::TimeoutReached;
            }
        }
        assert(self.view() == char_phase(v0, self.max_packets, timed_out));
        self.ordinal = crate::counter::next_i64(self.ordinal);
        let ghost w = self.view();
        assert(w == char_next(v0, self.max_packets, timed_out));
        let ord = self.ordinal;
        let phase = if self.in_phase_a { RunPhase::A } else { RunPhase::B };
        let d = match data {
            Some(d) => d,
            None => {
                let mut m = String::from_str("ordinal ");
                push_signed_decimal(&mut m, ord);
                m.append(": demuxed packet has no data");
                self.fatal = Some((m, phase));
                assert(char_no_data(v0, self.max_packets, timed_out, self.view()));
                assert(exists|t: bool| #[trigger] char_no_data(v0, self.max_packets, t, self.view()));
                assert(v0 == old(self).view() && self.max_packets == old(self).max_packets());
                assert(exists|t: bool| #[trigger] char_no_data(old(self).view(), old(self).max_packets(), t, self.view()));
                return;
            },
        };
        let ghost calls0 = backend.calls();
        match submit_with_retry(backend, ord, d, MAX_EAGAIN_CYCLES) {
            Err(reason) => {
                let mut m = String::from_str("ordinal ");
                push_signed_decimal(&mut m, ord);
                m.append(": ");
                m.append(reason.as_str());
                self.fatal = Some((m, phase));
                assert(crate::loop_engine::submit_error_after(calls0, backend.calls(), ord, d@, MAX_EAGAIN_CYCLES, reason@));
                assert(char_step(w, calls0, d@, self.view(), backend.calls()));
                assert(char_packet(v0, self.max_packets, timed_out, calls0, d@, self.view(), backend.calls()));
                assert(exists|t: bool| #[trigger] char_packet(v0, self.max_packets, t, calls0, d@, self.view(), backend.calls()));
                assert(v0 == old(self).view() && self.max_packets == old(self).max_packets() && calls0 == old(backend).calls());
                assert(exists|t: bool| #[trigger] char_packet(old(self).view(), old(self).max_packets(), t, old(backend).calls(), d@, self.view(), backend.calls()));
            },
            Ok(record) => {
                let ghost ds = crate::loop_engine::drains_view(record.drains@);
                self.submitted = inc(self.submitted);
                self.accepted = inc(self.accepted);
                let ghost w1 = self.view();
                self.log_rounds(ord, &record.drains);
                proof {
                    lemma_char_rounds_keeps(w1, ord, ds);
                    lemma_char_rounds_keeps(w, ord, ds);
                }
                self.attempts.push(AttemptEntry { ordinal: ord, phase, again: false });
                assert(self.view() == char_accepted(w, ord, ds));
                if !self.in_phase_a {
                    match drain_fully(backend) {
                        Ok(drain) => {
                            self.count_drain(&drain);
                            assert(char_drained(w, calls0, d@, self.view(), backend.calls(), ds, drain@));
                            assert(char_packet(v0, self.max_packets, timed_out, calls0, d@, self.view(), backend.calls()));
                assert(exists|t: bool| #[trigger] char_packet(v0, self.max_packets, t, calls0, d@, self.view(), backend.calls()));
                assert(v0 == old(self).view() && self.max_packets == old(self).max_packets() && calls0 == old(backend).calls());
                assert(exists|t: bool| #[trigger] char_packet(old(self).view(), old(self).max_packets(), t, old(backend).calls(), d@, self.view(), backend.calls()));
                        },
                        Err(reason) => {
                            let mut m = String::from_str("ordinal ");
                            push_signed_decimal(&mut m, ord);
                            m.append(" post-accept drain: ");
                            m.append(reason.as_str());
                            self.fatal = Some((m, RunPhase::B));
                            assert(char_drain_failed(w, calls0, d@, self.view(), backend.calls(), ds, reason@));
                            assert(char_packet(v0, self.max_packets, timed_out, calls0, d@, self.view(), backend.calls()));
                assert(exists|t: bool| #[trigger] char_packet(v0, self.max_packets, t, calls0, d@, self.view(), backend.calls()));
                assert(v0 == old(self).view() && self.max_packets == old(self).max_packets() && calls0 == old(backend).calls());
                assert(exists|t: bool| #[trigger] char_packet(old(self).view(), old(self).max_packets(), t, old(backend).calls(), d@, self.view(), backend.calls()));
                        },
                    }
                } else {
                    assert(char_drained(w, calls0, d@, self.view(), backend.calls(), ds, Seq::empty()));
                    assert(char_packet(v0, self.max_packets, timed_out, calls0, d@, self.view(), backend.calls()));
                assert(exists|t: bool| #[trigger] char_packet(v0, self.max_packets, t, calls0, d@, self.view(), backend.calls()));
                assert(v0 == old(self).view() && self.max_packets == old(self).max_packets() && calls0 == old(backend).calls());
                assert(exists|t: bool| #[trigger] char_packet(old(self).view(), old(self).max_packets(), t, old(backend).calls(), d@, self.view(), backend.calls()));
                }
            },
        }
    }
}

/// How a part of the run went.
#[derive(Debug, Clone, Copy, PartialEq, Eq, Structural)]
pub enum PhaseStatus {
    /// The run failed in this part.
    Error,
    /// At least one `Again` was observed.
    Forced,
    /// No `Again` was observed.
    NotForced,
}

pub open spec fn status_of(failed_here: bool, agains: int) -> PhaseStatus {
    if failed_here { PhaseStatus::Error } else if agains > 0 { PhaseStatus::Forced } else { PhaseStatus::NotForced }
}

fn status(failed_here: bool, agains: u64) -> (r: PhaseStatus)
    ensures
        r == status_of(failed_here, agains as int),
{
    if failed_here { PhaseStatus::Error } else if agains > 0 { PhaseStatus::Forced } else { PhaseStatus::NotForced }
}

/// What a characterization run reports.
#[derive(Debug, Clone)]
pub struct CharacterizeReport {
    pub pass: bool,
    pub phase_a_status: PhaseStatus,
    pub phase_a_stop: PhaseAStop,
    pub phase_a_eagain: u64,
    pub phase_b_status: PhaseStatus,
    pub phase_b_eagain: u64,
    pub tail_status: PhaseStatus,
    pub tail_eagain: u32,
    pub tail_outputs: usize,
    pub attempts: Vec<AttemptEntry>,
    pub eagain_events: Vec<EagainEvent>,
    pub zero_output_packets: u64,
    pub multi_output_drains: u64,
    pub multi_output_max: usize,
    pub submitted: u64,
    pub accepted: u64,
    pub emitted: u64,
    pub ordinal_coverage_exact: bool,
    pub exactly_once_ok: bool,
    pub fail_reasons: Vec<String>,
}

pub open spec fn failed_in(f: Option<(Seq<char>, RunPhase)>, p: RunPhase) -> bool {
    f matches Some((_, q)) && q == p
}

pub open spec fn coverage_note(v: CharView, c: Coverage) -> Seq<char> {
    "ordinal coverage not exact: submitted="@ + crate::text::decimal(v.submitted as nat) + " accepted="@
        + crate::text::decimal(v.accepted as nat) + " emitted="@ + crate::text::decimal(c.emitted as nat)
        + " unknown_pts="@ + crate::text::decimal(c.unknown_pts as nat) + " duplicates="@
        + crate::text::decimal(c.duplicates as nat)
}

/// The report of a characterization run in state `v` whose tail flush
/// answered `Again` `tail_again` times and recovered `tail`: exact coverage
/// of the mid-stream and tail ordinals, exactly-once acceptance, per-part
/// statuses, and the pass verdict that needs both and no failure.
pub open spec fn char_report_matches(r: CharacterizeReport, v: CharView, tail_again: u32, tail: Seq<Option<i64>>) -> bool {
    let c = coverage_of(v.mid_stream + tail, (v.submitted as i64) as int, v.fatal is Some);
    let once = v.fatal is None && v.submitted == v.accepted;
    &&& r.ordinal_coverage_exact == c.exact
    &&& r.exactly_once_ok == once
    &&& r.pass == (v.fatal is None && c.exact && once)
    &&& r.emitted == c.emitted
    &&& r.phase_a_status == status_of(failed_in(v.fatal, RunPhase::A), v.phase_a_again as int)
    &&& r.phase_b_status == status_of(failed_in(v.fatal, RunPhase::B), v.phase_b_again as int)
    &&& r.tail_status == status_of(failed_in(v.fatal, RunPhase::Tail), tail_again as int)
    &&& r.phase_a_stop == v.stop
    &&& r.phase_a_eagain == v.phase_a_again
    &&& r.phase_b_eagain == v.phase_b_again
    &&& r.tail_eagain == tail_again
    &&& r.tail_outputs == tail.len()
    &&& r.attempts@ == v.attempts
    &&& event_views(r.eagain_events@) == v.events
    &&& r.zero_output_packets == v.zero_output_drains
    &&& r.multi_output_drains == v.multi_output_drains
    &&& r.multi_output_max == v.multi_output_max
    &&& r.submitted == v.submitted
    &&& r.accepted == v.accepted
    &&& texts(r.fail_reasons@) == match v.fatal {
        Some((f, _)) => seq![f],
        None => if c.exact { Seq::empty() } else { seq![coverage_note(v, c)] },
    }
}

/// The tail step of a characterization run: skipped after a failure,
/// else a flush that recovered `tail` after `n` retries, or that failed.
pub open spec fn char_tail(
    v: CharView,
    calls: Seq<crate::loop_engine::BackendCall>,
    v2: CharView,
    calls2: Seq<crate::loop_engine::BackendCall>,
    n: u32,
    tail: Seq<Option<i64>>,
) -> bool {
    if v.fatal is Some {
        v2 == v && calls2 == calls && n == 0 && tail.len() == 0
    } else {
        ||| (n <= MAX_EAGAIN_CYCLES && v2 == v && exists|ds: Seq<Seq<Option<i64>>>, t: Seq<Option<i64>>| {
            &&& ds.len() == n
            &&& calls2 == calls + #[trigger] crate::loop_engine::flushed(ds, t)
            &&& tail == ds.flatten() + t
        })
        ||| (n == 0 && tail.len() == 0 && exists|e: Seq<char>| {
            &&& #[trigger] crate::loop_engine::flush_error_after(calls, calls2, MAX_EAGAIN_CYCLES, e)
            &&& v2 == CharView { fatal: Some(("tail flush: "@ + e, RunPhase::Tail)), ..v }
        })
    }
}

/// The view of a fresh characterization run.
pub open spec fn fresh_char() -> CharView {
    CharView {
        ordinal: 0,
        submitted: 0,
        accepted: 0,
        mid_stream: Seq::empty(),
        zero_output_drains: 0,
        multi_output_drains: 0,
        multi_output_max: 0,
        attempts: Seq::empty(),
        events: Seq::empty(),
        phase_a_again: 0,
        phase_b_again: 0,
        in_phase_a: true,
        stop: PhaseAStop::InputExhausted,
        fatal: None,
    }
}

/// `calls` extends `base`, and while the run has not failed its mid-stream
/// ordinals are every frame the backend handed out since `base`.
pub open spec fn char_tracks(v: CharView, base: Seq<crate::loop_engine::BackendCall>,
    calls: Seq<crate::loop_engine::BackendCall>) -> bool {
    &&& calls.len() >= base.len()
    &&& calls.take(base.len() as int) == base
    &&& v.fatal is None ==> v.mid_stream == crate::loop_engine::recovered(calls.skip(base.len() as int))
}

proof fn lemma_char_rounds_mid(v: CharView, ord: i64, ds: Seq<Seq<Option<i64>>>)
    ensures
        char_rounds(v, ord, ds).mid_stream == v.mid_stream + ds.flatten(),
        char_rounds(v, ord, ds).fatal == v.fatal,
    decreases ds.len(),
{
    if ds.len() == 0 {
        assert(v.mid_stream + ds.flatten() =~= v.mid_stream);
    } else {
        lemma_char_rounds_mid(v, ord, ds.drop_last());
        ds.drop_last().lemma_flatten_push(ds.last());
        assert(ds.drop_last().push(ds.last()) =~= ds);
        assert(v.mid_stream + ds.drop_last().flatten() + ds.last() =~= v.mid_stream + ds.flatten());
    }
}

proof fn lemma_char_packet_tracks(
    v: CharView,
    base: Seq<crate::loop_engine::BackendCall>,
    calls: Seq<crate::loop_engine::BackendCall>,
    max_packets: u64,
    timed_out: bool,
    d: Seq<u8>,
    v2: CharView,
    calls2: Seq<crate::loop_engine::BackendCall>,
)
    requires
        v.fatal is None,
        char_tracks(v, base, calls),
        char_packet(v, max_packets, timed_out, calls, d, v2, calls2),
    ensures
        char_tracks(v2, base, calls2),
{
    let w = char_next(v, max_packets, timed_out);
    assert(w.mid_stream == v.mid_stream && w.fatal is None);
    if exists|ds: Seq<Seq<Option<i64>>>, tail: Seq<Option<i64>>| #[trigger] char_drained(w, calls, d, v2, calls2, ds, tail) {
        let (ds, tail) = choose|ds: Seq<Seq<Option<i64>>>, tail: Seq<Option<i64>>|
            #[trigger] char_drained(w, calls, d, v2, calls2, ds, tail);
        let sub = crate::loop_engine::accepted_submission(w.ordinal, d, ds);
        lemma_char_rounds_mid(w, w.ordinal, ds);
        crate::loop_engine::lemma_recovered_again_rounds(w.ordinal, d, ds);
        let r0 = crate::loop_engine::recovered(calls.skip(base.len() as int));
        if w.in_phase_a {
            lemma_tracks_append(base, calls, sub);
        } else {
            let x = sub + crate::loop_engine::drained(tail);
            assert(calls2 =~= calls + x);
            lemma_tracks_append(base, calls, x);
            crate::loop_engine::lemma_recovered_concat(sub, crate::loop_engine::drained(tail));
            crate::loop_engine::lemma_recovered_frames(tail);
            assert(r0 + (ds.flatten() + tail) =~= r0 + ds.flatten() + tail);
        }
    } else if exists|ds: Seq<Seq<Option<i64>>>, e: Seq<char>| #[trigger] char_drain_failed(w, calls, d, v2, calls2, ds, e) {
        let (ds, e) = choose|ds: Seq<Seq<Option<i64>>>, e: Seq<char>| #[trigger] char_drain_failed(w, calls, d, v2, calls2, ds, e);
        let sub = calls + crate::loop_engine::accepted_submission(w.ordinal, d, ds);
        let ords = choose|ords: Seq<Option<i64>>| calls2 == sub + #[trigger] crate::loop_engine::drain_failed(ords, e);
        let x = crate::loop_engine::accepted_submission(w.ordinal, d, ds) + crate::loop_engine::drain_failed(ords, e);
        assert(calls2 =~= calls + x);
        lemma_tracks_append(base, calls, x);
        lemma_char_rounds_mid(w, w.ordinal, ds);
    } else {
        let e = choose|e: Seq<char>| (#[trigger] crate::loop_engine::submit_error_after(calls, calls2, w.ordinal, d, MAX_EAGAIN_CYCLES, e)
            && v2 == (CharView { fatal: Some((ordinal_prefix(w.ordinal) + ": "@ + e, phase_of(w))), ..w }));
        let ds = choose|ds: Seq<Seq<Option<i64>>>| #[trigger] crate::loop_engine::submit_failed(calls, calls2, w.ordinal, d, MAX_EAGAIN_CYCLES, ds, e);
        let x = calls2.skip(calls.len() as int);
        assert(calls2.len() >= calls.len());
        assert(calls2.take(calls.len() as int) =~= calls);
        assert(calls2 =~= calls + x);
        lemma_tracks_append(base, calls, x);
    }
}

/// Step `k` of a recorded characterization run: the run had not failed,
/// and access unit `ps[k]` took it from `vs[k]`, `cs[k]` to `vs[k + 1]`,
/// `cs[k + 1]`.
pub open spec fn char_step_at(
    ps: Seq<Option<Seq<u8>>>,
    max_packets: u64,
    vs: Seq<CharView>,
    cs: Seq<Seq<crate::loop_engine::BackendCall>>,
    k: int,
) -> bool {
    &&& vs[k].fatal is None
    &&& match ps[k] {
        Some(d) => char_packet_taken(vs[k], max_packets, cs[k], d, vs[k + 1], cs[k + 1]),
        None => cs[k + 1] == cs[k] && char_no_data_taken(vs[k], max_packets, vs[k + 1]),
    }
}

/// One access unit with data, whatever the time bound said.
pub open spec fn char_packet_taken(
    v: CharView,
    max_packets: u64,
    calls: Seq<crate::loop_engine::BackendCall>,
    d: Seq<u8>,
    v2: CharView,
    calls2: Seq<crate::loop_engine::BackendCall>,
) -> bool {
    exists|t: bool| #[trigger] char_packet(v, max_packets, t, calls, d, v2, calls2)
}

/// One access unit without data, whatever the time bound said.
pub open spec fn char_no_data_taken(v: CharView, max_packets: u64, v2: CharView) -> bool {
    exists|t: bool| #[trigger] char_no_data(v, max_packets, t, v2)
}

/// A whole characterization run over `ps` from `v0`, `calls0`: the states
/// and backend logs after each access unit taken, in order, stopping at the
/// first failure or the end of the sample; then the tail step, with `n`
/// end-of-stream retries recovering `tail`, to `vf`, `cf`.
pub open spec fn char_run(
    ps: Seq<Option<Seq<u8>>>,
    max_packets: u64,
    v0: CharView,
    calls0: Seq<crate::loop_engine::BackendCall>,
    vs: Seq<CharView>,
    cs: Seq<Seq<crate::loop_engine::BackendCall>>,
    vf: CharView,
    cf: Seq<crate::loop_engine::BackendCall>,
    n: u32,
    tail: Seq<Option<i64>>,
) -> bool {
    let m = vs.len() - 1;
    &&& vs.len() == cs.len()
    &&& 1 <= vs.len() <= ps.len() + 1
    &&& vs[0] == v0
    &&& cs[0] == calls0
    &&& forall|k: int| 0 <= k < m ==> #[trigger] char_step_at(ps, max_packets, vs, cs, k)
    &&& (m == ps.len() || vs[m].fatal is Some)
    &&& char_tail(vs[m], cs[m], vf, cf, n, tail)
}

impl CharacterizeRun {
    /// Drive a fresh run over the whole sample: while the run has not
    /// failed submit the next demuxed access unit, then flush and judge.
    /// With `rec` every frame the backend handed out during the run, in
    /// receive order, the run passes exactly when it did not fail, every
    /// frame carried a known ordinal, none twice, the ordinals are exactly
    /// `1..=submitted`, and every submission was accepted once. Whether and
    /// where `Again` was forced does not enter the verdict.
    pub fn run_all<B: DecoderLoopBackend>(&mut self, backend: &mut B, packets: &Vec<Option<Vec<u8>>>)
        -> (r: CharacterizeReport)
        requires
            old(self).view() == fresh_char(),
        ensures
            final(backend).calls().len() >= old(backend).calls().len(),
            final(backend).calls().take(old(backend).calls().len() as int) == old(backend).calls(),
            exists|vs: Seq<CharView>, cs: Seq<Seq<crate::loop_engine::BackendCall>>, n: u32, tail: Seq<Option<i64>>|
                #[trigger] char_run(packets_bytes(packets@), old(self).max_packets(), fresh_char(), old(backend).calls(),
                    vs, cs, final(self).view(), final(backend).calls(), n, tail)
                && char_report_matches(r, final(self).view(), n, tail),
            ({
                let rec = crate::loop_engine::recovered(final(backend).calls().skip(old(backend).calls().len() as int));
                let v = final(self).view();
                v.submitted <= i64::MAX ==> (r.pass <==> (v.fatal is None && unknown_count(rec) == 0
                    && duplicate_count(rec) == 0
                    && known_ints(rec) == vstd::set_lib::set_int_range(1, v.submitted + 1)
                    && v.submitted == v.accepted))
            }),
    {
        let ghost base = backend.calls();
        let ghost ps = packets_bytes(packets@);
        let ghost mp = self.max_packets();
        let ghost mut vs: Seq<CharView> = seq![self.view()];
        let ghost mut cs: Seq<Seq<crate::loop_engine::BackendCall>> = seq![base];
        proof {
            assert(base.take(base.len() as int) =~= base);
            assert(base.skip(base.len() as int) =~= Seq::<crate::loop_engine::BackendCall>::empty());
        }
        let mut i: usize = 0;
        while i < packets.len()
            invariant
                i <= packets@.len(),
                ps == packets_bytes(packets@),
                mp == self.max_packets(),
                char_tracks(self.view(), base, backend.calls()),
                vs.len() == i + 1,
                cs.len() == i + 1,
                vs[0] == fresh_char(),
                cs[0] == base,
                vs[i as int] == self.view(),
                cs[i as int] == backend.calls(),
                forall|k: int| 0 <= k < i ==> #[trigger] char_step_at(ps, mp, vs, cs, k),
            ensures
                vs.len() == cs.len(),
                1 <= vs.len() <= packets@.len() + 1,
                vs[0] == fresh_char(),
                cs[0] == base,
                vs.last() == self.view(),
                cs.last() == backend.calls(),
                mp == self.max_packets(),
                forall|k: int| 0 <= k < vs.len() - 1 ==> #[trigger] char_step_at(ps, mp, vs, cs, k),
                vs.len() - 1 == packets@.len() || self.view().fatal is Some,
                char_tracks(self.view(), base, backend.calls()),
            decreases packets@.len() - i,
        {
            if !self.wants_more() {
                break;
            }
            let ghost v0 = self.view();
            let ghost c0 = backend.calls();
            let data: Option<&[u8]> = match &packets[i] {
                Some(p) => Some(p.as_slice()),
                None => None,
            };
            self.on_packet(backend, data);
            proof {
                let ghost vs0 = vs;
                let ghost cs0 = cs;
                vs = vs.push(self.view());
                cs = cs.push(backend.calls());
                assert(vs[i as int] == v0 && cs[i as int] == c0);
                assert(ps[i as int] == packet_bytes(packets@[i as int]));
                match data {
                    Some(d) => {
                        let t = choose|t: bool| #[trigger] char_packet(v0, mp, t, c0, d@, self.view(), backend.calls());
                        lemma_char_packet_tracks(v0, base, c0, mp, t, d@, self.view(), backend.calls());
                        assert(char_packet_taken(vs[i as int], mp, cs[i as int], d@, vs[i + 1], cs[i + 1]));
                    },
                    None => {
                        let t = choose|t: bool| #[trigger] char_no_data(v0, mp, t, self.view());
                        assert(char_no_data_taken(vs[i as int], mp, vs[i + 1]));
                    },
                }
                assert(char_step_at(ps, mp, vs, cs, i as int));
                assert forall|k: int| 0 <= k < i + 1 implies #[trigger] char_step_at(ps, mp, vs, cs, k) by {
                    if k < i {
                        assert(char_step_at(ps, mp, vs0, cs0, k));
                        assert(vs[k] == vs0[k] && vs[k + 1] == vs0[k + 1] && cs[k] == cs0[k] && cs[k + 1] == cs0[k + 1]);
                    }
                }
            }
            i += 1;
        }
        let ghost v1 = self.view();
        let ghost c1 = backend.calls();
        let r = self.finish(backend);
        proof {
            let (n, tail) = choose|n: u32, tail: Seq<Option<i64>>| {
                &&& #[trigger] char_tail(v1, c1, self.view(), backend.calls(), n, tail)
                &&& char_report_matches(r, self.view(), n, tail)
            };
            assert(char_run(ps, mp, fresh_char(), base, vs, cs, self.view(), backend.calls(), n, tail));
            let v = self.view();
            let rec = crate::loop_engine::recovered(backend.calls().skip(base.len() as int));
            if v1.fatal is None {
                if v.fatal is None {
                    let (ds, t) = choose|ds: Seq<Seq<Option<i64>>>, t: Seq<Option<i64>>| {
                        &&& ds.len() == n
                        &&& backend.calls() == c1 + #[trigger] crate::loop_engine::flushed(ds, t)
                        &&& tail == ds.flatten() + t
                    };
                    lemma_tracks_append(base, c1, crate::loop_engine::flushed(ds, t));
                    crate::loop_engine::lemma_recovered_flushed(ds, t);
                    assert(rec == v.mid_stream + tail);
                    if v.submitted <= i64::MAX {
                        lemma_exact_coverage_is_exact_set(rec, v.submitted as int);
                    }
                }
            }
        }
        r
    }
}

impl CharacterizeRun {
    /// Flush the tail unless the run failed, then judge the run.
    pub fn finish<B: DecoderLoopBackend>(&mut self, backend: &mut B) -> (r: CharacterizeReport)
        ensures
            exists|n: u32, tail: Seq<Option<i64>>| {
                &&& #[trigger] char_tail(old(self).view(), old(backend).calls(), final(self).view(), final(backend).calls(), n, tail)
                &&& char_report_matches(r, final(self).view(), n, tail)
            },
    {
        let mut tail_again: u32 = 0;
        let mut tail: Vec<Option<i64>> = Vec::new();
        if self.fatal.is_none() {
            match flush_tail(backend, MAX_EAGAIN_CYCLES) {
                Ok(t) => {
                    tail_again = t.eagain_count;
                    tail = t.recovered;
                },
                Err(reason) => {
                    let mut m = String::from_str("tail flush: ");
                    m.append(reason.as_str());
                    self.fatal = Some((m, RunPhase::Tail));
                    assert(crate::loop_engine::flush_error_after(old(backend).calls(), backend.calls(), MAX_EAGAIN_CYCLES, reason@));
                },
            }
        }
        assert(char_tail(old(self).view(), old(backend).calls(), self.view(), backend.calls(), tail_again, tail@));
        let mut combined = Self::copy_ordinals(&self.mid_stream);
        let mut i: usize = 0;
        let ghost mid = combined@;
        while i < tail.len()
            invariant
                i <= tail@.len(),
                combined@ == mid + tail@.take(i as int),
            decreases tail@.len() - i,
        {
            combined.push(tail[i]);
            i += 1;
            assert(combined@ =~= mid + tail@.take(i as int));
        }
        assert(tail@.take(i as int) =~= tail@);
        let failed = self.fatal.is_some();
        let cov = coverage(&combined, self.submitted, failed);
        let once = !failed && self.submitted == self.accepted;
        let (fa, fb, ft) = match &self.fatal {
            Some((_, p)) => (*p == RunPhase::A, *p == RunPhase::B, *p == RunPhase::Tail),
            None => (false, false, false),
        };
        let mut fail_reasons: Vec<String> = Vec::new();
        match &self.fatal {
            Some((f, _)) => {
                fail_reasons.push(f.clone());
                assert(texts(fail_reasons@) =~= seq![f@]);
            },
            None => {
                if !cov.exact {
                    let mut m = String::from_str("ordinal coverage not exact: submitted=");
                    push_decimal(&mut m, self.submitted);
                    m.append(" accepted=");
                    push_decimal(&mut m, self.accepted);
                    m.append(" emitted=");
                    push_decimal(&mut m, cov.emitted);
                    m.append(" unknown_pts=");
                    push_decimal(&mut m, cov.unknown_pts);
                    m.append(" duplicates=");
                    push_decimal(&mut m, cov.duplicates);
                    fail_reasons.push(m);
                    assert(texts(fail_reasons@) =~= seq![m@]);
                } else {
                    assert(texts(fail_reasons@) =~= Seq::<Seq<char>>::empty());
                }
            },
        }
        let mut attempts: Vec<AttemptEntry> = Vec::new();
        let mut k: usize = 0;
        while k < self.attempts.len()
            invariant
                k <= self.attempts@.len(),
                attempts@ == self.attempts@.take(k as int),
            decreases self.attempts@.len() - k,
        {
            attempts.push(self.attempts[k]);
            k += 1;
            assert(attempts@ =~= self.attempts@.take(k as int));
        }
        assert(self.attempts@.take(k as int) =~= self.attempts@);
        let mut events: Vec<EagainEvent> = Vec::new();
        let mut j: usize = 0;
        while j < self.events.len()
            invariant
                j <= self.events@.len(),
                event_views(events@) == event_views(self.events@).take(j as int),
            decreases self.events@.len() - j,
        {
            let ghost before = events@;
            let e = EagainEvent { ordinal: self.events[j].ordinal, recovered: Self::copy_ordinals(&self.events[j].recovered) };
            events.push(e);
            assert(event_views(events@) =~= event_views(before).push((self.events@[j as int].ordinal, self.events@[j as int].recovered@)));
            assert(event_views(self.events@).take(j + 1) =~= event_views(self.events@).take(j as int).push(
                (self.events@[j as int].ordinal, self.events@[j as int].recovered@)));
            j += 1;
        }
        assert(event_views(self.events@).take(j as int) =~= event_views(self.events@));
        let r = CharacterizeReport {
            pass: !failed && cov.exact && once,
            phase_a_status: status(fa, self.phase_a_again),
            phase_a_stop: self.stop,
            phase_a_eagain: self.phase_a_again,
            phase_b_status: status(fb, self.phase_b_again),
            phase_b_eagain: self.phase_b_again,
            tail_status: status(ft, tail_again as u64),
            tail_eagain: tail_again,
            tail_outputs: tail.len(),
            attempts,
            eagain_events: events,
            zero_output_packets: self.zero_output_drains,
            multi_output_drains: self.multi_output_drains,
            multi_output_max: self.multi_output_max,
            submitted: self.submitted,
            accepted: self.accepted,
            emitted: cov.emitted,
            ordinal_coverage_exact: cov.exact,
            exactly_once_ok: once,
            fail_reasons,
        };
        assert(char_report_matches(r, self.view(), tail_again, tail@));
        r
    }
}

/// The `Again` rounds leave the phase, the counters of submissions, the
/// ordinal and the failure alone, and differ only in what they count when
/// the submission counters differ.
proof fn lemma_char_rounds_keeps(v: CharView, ord: i64, ds: Seq<Seq<Option<i64>>>)
    ensures
        char_rounds(v, ord, ds).in_phase_a == v.in_phase_a,
        char_rounds(v, ord, ds).submitted == v.submitted,
        char_rounds(v, ord, ds).accepted == v.accepted,
        char_rounds(v, ord, ds).ordinal == v.ordinal,
        char_rounds(v, ord, ds).fatal == v.fatal,
        char_rounds(v, ord, ds).stop == v.stop,
        forall|s: u64, a: u64| #[trigger] char_rounds((CharView { submitted: s, accepted: a, ..v }), ord, ds)
            == (CharView { submitted: s, accepted: a, ..char_rounds(v, ord, ds) }),
    decreases ds.len(),
{
    if ds.len() > 0 {
        lemma_char_rounds_keeps(v, ord, ds.drop_last());
        assert forall|s: u64, a: u64| #[trigger] char_rounds(CharView { submitted: s, accepted: a, ..v }, ord, ds)
            == CharView { submitted: s, accepted: a, ..char_rounds(v, ord, ds) } by {
            lemma_char_rounds_keeps(CharView { submitted: s, accepted: a, ..v }, ord, ds.drop_last());
        }
    }
}

// ---------------------------------------------------------------------------
// Forcing a zero-output packet
// ---------------------------------------------------------------------------

/// How the zero-output condition was forced, if it was.
#[derive(Debug, Clone, Copy, PartialEq, Eq, Structural)]
pub enum Strategy {
    NotForced,
    /// A parameter-set-only packet was accepted and its drain was empty.
    ParamSetPacket,
    /// The first access unit's immediate drain was empty.
    FirstAuImmediateDrain,
}

/// Where a zero-output drain happened.
#[derive(Debug, Clone, Copy, PartialEq, Eq, Structural)]
pub enum ZeroContext {
    ForcedParamSetPacket,
    FirstAuImmediateDrain,
    NormalPostAcceptDrain,
}

/// One zero-output event: the ordinal, where it happened, and whether its
/// send was accepted only after `Again`.
#[derive(Debug, Clone, Copy, PartialEq, Eq)]
pub struct ZeroOutputEvent {
    pub ordinal: i64,
    pub context: ZeroContext,
    pub accepted_after_eagain: bool,
}

/// Why the submission loop stopped.
#[derive(Debug, Clone, Copy, PartialEq, Eq, Structural)]
pub enum LoopStop {
    NotEntered,
    EndOfSample,
    MaxPacketsReached,
    TimeoutReached,
    FatalError,
}

/// Abstract state of a forcing run.
pub struct ZeroView {
    pub submitted_vcl: u64,
    pub accepted_vcl: u64,
    pub combined: Seq<Option<i64>>,
    pub detail: Seq<ZeroOutputEvent>,
    pub notes: Seq<Seq<char>>,
    pub strategy: Strategy,
    pub fatal: Option<Seq<char>>,
    pub loop_stop: LoopStop,
    pub ordinal: i64,
    pub au1_submitted: bool,
    pub tail_outputs: nat,
    /// Types of the parameter sets taken from the first access unit.
    pub crafted_types: Seq<u8>,
}

/// Whether any of `ds` is non-empty: the submission saw `Again`.
pub open spec fn saw_again(ds: Seq<Seq<Option<i64>>>) -> bool {
    ds.len() > 0
}

/// A real access unit `ord` submitted and accepted after rounds `ds`,
/// counted and its rounds' frames kept.
pub open spec fn vcl_accepted(v: ZeroView, ds: Seq<Seq<Option<i64>>>) -> ZeroView {
    ZeroView {
        submitted_vcl: crate::counter::bump(v.submitted_vcl),
        accepted_vcl: crate::counter::bump(v.accepted_vcl),
        combined: v.combined + ds.flatten(),
        ..v
    }
}

/// Outcome of submitting a real access unit and draining it.
pub enum VclOutcome {
    /// Accepted after rounds `ds`; the drain recovered `tail`.
    Drained(Seq<Seq<Option<i64>>>, Seq<Option<i64>>),
    /// The submission failed.
    SubmitFailed(Seq<char>),
    /// Accepted after rounds `ds`; the drain failed.
    DrainFailed(Seq<Seq<Option<i64>>>, Seq<char>),
}

/// The calls and bookkeeping of one real submission with its drain.
pub open spec fn vcl_step(
    v: ZeroView,
    calls: Seq<crate::loop_engine::BackendCall>,
    ord: i64,
    d: Seq<u8>,
    v2: ZeroView,
    calls2: Seq<crate::loop_engine::BackendCall>,
    o: VclOutcome,
) -> bool {
    match o {
        VclOutcome::Drained(ds, tail) => {
            &&& ds.len() <= MAX_EAGAIN_CYCLES
            &&& calls2 == calls + crate::loop_engine::accepted_submission(ord, d, ds) + crate::loop_engine::drained(tail)
            &&& v2 == ZeroView { combined: vcl_accepted(v, ds).combined + tail, ..vcl_accepted(v, ds) }
        },
        VclOutcome::SubmitFailed(e) => {
            &&& crate::loop_engine::submit_error_after(calls, calls2, ord, d, MAX_EAGAIN_CYCLES, e)
            &&& v2 == v
        },
        VclOutcome::DrainFailed(ds, e) => {
            &&& ds.len() <= MAX_EAGAIN_CYCLES
            &&& crate::loop_engine::failed_drain_after(calls + crate::loop_engine::accepted_submission(ord, d, ds), calls2, e)
            &&& v2 == vcl_accepted(v, ds)
        },
    }
}

pub open spec fn vcl_error(o: VclOutcome) -> Option<Seq<char>> {
    match o {
        VclOutcome::Drained(_, _) => None,
        VclOutcome::SubmitFailed(e) => Some(e),
        VclOutcome::DrainFailed(_, e) => Some(e),
    }
}

pub open spec fn zero_notes(v: ZeroView, m: Seq<char>) -> ZeroView {
    ZeroView { notes: v.notes.push(m), ..v }
}

pub open spec fn with_detail(v: ZeroView, ord: i64, c: ZeroContext, again: bool) -> ZeroView {
    ZeroView { detail: v.detail.push(ZeroOutputEvent { ordinal: ord, context: c, accepted_after_eagain: again }), ..v }
}

/// The parameter-set stage: with no parameter sets, strategy A is noted as
/// unavailable; else the crafted packet is submitted as ordinal 0 and
/// drained at once. Returns whether the first access unit must be tried
/// on its own (strategy B).
pub open spec fn param_stage(
    v: ZeroView,
    calls: Seq<crate::loop_engine::BackendCall>,
    crafted: Seq<u8>,
    types: Seq<u8>,
    v2: ZeroView,
    calls2: Seq<crate::loop_engine::BackendCall>,
    need_b: bool,
) -> bool {
    if crafted.len() == 0 {
        &&& need_b
        &&& calls2 == calls
        &&& v2 == zero_notes(v, "AU 1 carried no VPS/SPS/PPS NAL units (types found: "@
            + crate::text::debug_u8s(types) + "); strategy A unavailable"@)
    } else {
        ||| exists|e: Seq<char>| {
            &&& #[trigger] crate::loop_engine::submit_error_after(calls, calls2, 0, crafted, MAX_EAGAIN_CYCLES, e)
            &&& need_b
            &&& v2 == zero_notes(v, "ordinal 0 crafted parameter-set-only packet was REJECTED: "@ + e)
        }
        ||| exists|ds: Seq<Seq<Option<i64>>>, d0: Seq<Option<i64>>|
            #[trigger] param_drained(v, calls, crafted, types, v2, calls2, ds, d0) && !need_b
        ||| exists|ds: Seq<Seq<Option<i64>>>, e: Seq<char>| {
            &&& ds.len() <= MAX_EAGAIN_CYCLES
            &&& #[trigger] crate::loop_engine::failed_drain_after(
                calls + crate::loop_engine::accepted_submission(0, crafted, ds), calls2, e)
            &&& !need_b
            &&& v2 == ZeroView { combined: v.combined + ds.flatten(), fatal: Some("ordinal 0 immediate drain: "@ + e), ..v }
        }
    }
}

pub open spec fn param_drained(
    v: ZeroView,
    calls: Seq<crate::loop_engine::BackendCall>,
    crafted: Seq<u8>,
    types: Seq<u8>,
    v2: ZeroView,
    calls2: Seq<crate::loop_engine::BackendCall>,
    ds: Seq<Seq<Option<i64>>>,
    d0: Seq<Option<i64>>,
) -> bool {
    let w = ZeroView { combined: v.combined + ds.flatten() + d0, ..v };
    &&& ds.len() <= MAX_EAGAIN_CYCLES
    &&& calls2 == calls + crate::loop_engine::accepted_submission(0, crafted, ds) + crate::loop_engine::drained(d0)
    &&& v2 == if d0.len() == 0 {
        ZeroView { strategy: Strategy::ParamSetPacket, ..with_detail(w, 0, ZeroContext::ForcedParamSetPacket, saw_again(ds)) }
    } else {
        zero_notes(w, "ordinal 0 crafted parameter-set-only packet ("@ + crate::text::debug_u8s(types)
            + ") was accepted but its immediate drain emitted "@ + crate::text::decimal(d0.len())
            + " frame(s) unexpectedly ("@ + crate::text::debug_opt_i64s(d0)
            + "); strategy A did not force a zero-output condition"@)
    }
}

/// Strategy B: the real first access unit as ordinal 1, drained at once.
pub open spec fn first_au_b(
    v: ZeroView,
    calls: Seq<crate::loop_engine::BackendCall>,
    au1: Seq<u8>,
    v2: ZeroView,
    calls2: Seq<crate::loop_engine::BackendCall>,
) -> bool {
    exists|w: ZeroView, o: VclOutcome| {
        &&& #[trigger] vcl_step(v, calls, 1, au1, w, calls2, o)
        &&& v2 == match o {
            VclOutcome::Drained(ds, d1) => {
                let w1 = ZeroView { au1_submitted: true, ..w };
                if d1.len() == 0 {
                    ZeroView {
                        strategy: Strategy::FirstAuImmediateDrain,
                        ..with_detail(w1, 1, ZeroContext::FirstAuImmediateDrain, saw_again(ds))
                    }
                } else {
                    zero_notes(w1, "strategy B: ordinal 1 (real first AU) accepted, but its immediate drain emitted "@
                        + crate::text::decimal(d1.len()) + " frame(s) ("@ + crate::text::debug_opt_i64s(d1)
                        + ") \u{2014} accepted-no-emit-until-next-send did not hold under an immediate drain"@)
                }
            },
            _ => ZeroView { fatal: Some("ordinal 1 (strategy B real first AU): "@ + vcl_error(o).unwrap()), ..w },
        }
    }
}

/// The first access unit as ordinal 1 when strategy B did not submit it.
pub open spec fn first_au_normal(
    v: ZeroView,
    calls: Seq<crate::loop_engine::BackendCall>,
    au1: Seq<u8>,
    v2: ZeroView,
    calls2: Seq<crate::loop_engine::BackendCall>,
) -> bool {
    exists|w: ZeroView, o: VclOutcome| {
        &&& #[trigger] vcl_step(v, calls, 1, au1, w, calls2, o)
        &&& v2 == match o {
            VclOutcome::Drained(_, d) => if d.len() == 0 {
                with_detail(w, 1, ZeroContext::NormalPostAcceptDrain, false)
            } else {
                w
            },
            _ => ZeroView { fatal: Some("ordinal 1: "@ + vcl_error(o).unwrap()), ..w },
        }
    }
}

/// The forcing mode: a parameter-set-only packet as ordinal 0 (strategy A),
/// else the first access unit drained at once (strategy B); then the whole
/// sample as ordinals 1, 2, ..., and the tail.
pub struct ForceZeroRun {
    submitted_vcl: u64,
    accepted_vcl: u64,
    combined: Vec<Option<i64>>,
    detail: Vec<ZeroOutputEvent>,
    notes: Vec<String>,
    strategy: Strategy,
    fatal: Option<String>,
    loop_stop: LoopStop,
    ordinal: i64,
    au1_submitted: bool,
    tail_outputs: usize,
    crafted_types: Vec<u8>,
    max_packets: u64,
    timeout_secs: u64,
    start: std::time::Instant,
}

fn append_ordinals(dst: &mut Vec<Option<i64>>, src: &Vec<Option<i64>>)
    ensures
        final(dst)@ == old(dst)@ + src@,
{
    let mut i: usize = 0;
    while i < src.len()
        invariant
            i <= src@.len(),
            dst@ == old(dst)@ + src@.take(i as int),
        decreases src@.len() - i,
    {
        dst.push(src[i]);
        i += 1;
        assert(dst@ =~= old(dst)@ + src@.take(i as int));
    }
    assert(src@.take(i as int) =~= src@);
}

fn append_drains(dst: &mut Vec<Option<i64>>, drains: &Vec<Vec<Option<i64>>>)
    ensures
        final(dst)@ == old(dst)@ + crate::loop_engine::drains_view(drains@).flatten(),
{
    let ghost ds = crate::loop_engine::drains_view(drains@);
    let mut i: usize = 0;
    while i < drains.len()
        invariant
            i <= drains@.len(),
            ds == crate::loop_engine::drains_view(drains@),
            dst@ == old(dst)@ + ds.take(i as int).flatten(),
        decreases drains@.len() - i,
    {
        append_ordinals(dst, &drains[i]);
        proof {
            assert(ds.take(i + 1) =~= ds.take(i as int).push(ds[i as int]));
            ds.take(i as int).lemma_flatten_push(ds[i as int]);
            assert(dst@ =~= old(dst)@ + ds.take(i + 1).flatten());
        }
        i += 1;
    }
    assert(ds.take(i as int) =~= ds);
}

impl ForceZeroRun {
    pub closed spec fn view(&self) -> ZeroView {
        ZeroView {
            submitted_vcl: self.submitted_vcl,
            accepted_vcl: self.accepted_vcl,
            combined: self.combined@,
            detail: self.detail@,
            notes: texts(self.notes@),
            strategy: self.strategy,
            fatal: opt_text(self.fatal),
            loop_stop: self.loop_stop,
            ordinal: self.ordinal,
            au1_submitted: self.au1_submitted,
            tail_outputs: self.tail_outputs as nat,
            crafted_types: self.crafted_types@,
        }
    }

    pub closed spec fn max_packets(&self) -> u64 {
        self.max_packets
    }

    /// A run bounded by `max_packets` real submissions and `timeout_secs`.
    pub fn new(max_packets: u64, timeout_secs: u64) -> (r: Self)
        ensures
            r.max_packets() == max_packets,
            r.view() == (ZeroView {
                submitted_vcl: 0,
                accepted_vcl: 0,
                combined: Seq::empty(),
                detail: Seq::empty(),
                notes: Seq::empty(),
                strategy: Strategy::NotForced,
                fatal: None,
                loop_stop: LoopStop::NotEntered,
                ordinal: 0,
                au1_submitted: false,
                tail_outputs: 0,
                crafted_types: Seq::empty(),
            }),
    {
        let r = ForceZeroRun {
            submitted_vcl: 0,
            accepted_vcl: 0,
            combined: Vec::new(),
            detail: Vec::new(),
            notes: Vec::new(),
            strategy: Strategy::NotForced,
            fatal: None,
            loop_stop: LoopStop::NotEntered,
            ordinal: 0,
            au1_submitted: false,
            tail_outputs: 0,
            crafted_types: Vec::new(),
            max_packets,
            timeout_secs,
            start: instant_now(),
        };
        assert(texts(r.notes@) =~= Seq::<Seq<char>>::empty());
        r
    }

    fn add_note(&mut self, m: String)
        ensures
            final(self).view() == zero_notes(old(self).view(), m@),
            final(self).max_packets() == old(self).max_packets(),
    {
        let ghost before = self.notes@;
        self.notes.push(m);
        assert(texts(self.notes@) =~= texts(before).push(m@));
    }

    /// Submit a real access unit as `ord` and drain it at once.
    fn submit_vcl_and_drain<B: DecoderLoopBackend>(&mut self, backend: &mut B, ord: i64, data: &[u8])
        -> (r: Result<(SubmitRecord, Vec<Option<i64>>), String>)
        ensures
            final(self).max_packets() == old(self).max_packets(),
            exists|o: VclOutcome| {
                &&& #[trigger] vcl_step(old(self).view(), old(backend).calls(), ord, data@, final(self).view(), final(backend).calls(), o)
                &&& match o {
                    VclOutcome::Drained(ds, tail) => r matches Ok((rec, d)) && d@ == tail
                        && crate::loop_engine::drains_view(rec.drains@) == ds
                        && rec.attempts@ == crate::loop_engine::accepted_after(ds.len()),
                    VclOutcome::SubmitFailed(e) => r matches Err(m) && m@ == e,
                    VclOutcome::DrainFailed(_, e) => r matches Err(m) && m@ == e,
                }
            },
    {
        match submit_with_retry(backend, ord, data, MAX_EAGAIN_CYCLES) {
            Err(e) => {
                proof {
                    let o = VclOutcome::SubmitFailed(e@);
                    assert(vcl_step(old(self).view(), old(backend).calls(), ord, data@, self.view(), backend.calls(), o));
                }
                Err(e)
            },
            Ok(record) => {
                let ghost ds = crate::loop_engine::drains_view(record.drains@);
                let ghost calls1 = backend.calls();
                self.submitted_vcl = inc(self.submitted_vcl);
                self.accepted_vcl = inc(self.accepted_vcl);
                append_drains(&mut self.combined, &record.drains);
                assert(self.view() == vcl_accepted(old(self).view(), ds));
                match drain_fully(backend) {
                    Ok(drain) => {
                        append_ordinals(&mut self.combined, &drain);
                        proof {
                            let o = VclOutcome::Drained(ds, drain@);
                            assert(vcl_step(old(self).view(), old(backend).calls(), ord, data@, self.view(), backend.calls(), o));
                        }
                        Ok((record, drain))
                    },
                    Err(e) => {
                        proof {
                            let o = VclOutcome::DrainFailed(ds, e@);
                            assert(vcl_step(old(self).view(), old(backend).calls(), ord, data@, self.view(), backend.calls(), o));
                        }
                        Err(e)
                    },
                }
            },
        }
    }

    /// Strategy A, or its unavailability. Returns whether strategy B must
    /// run.
    fn param_stage<B: DecoderLoopBackend>(&mut self, backend: &mut B, crafted: &Vec<u8>, types: &Vec<u8>) -> (need_b: bool)
        requires
            old(self).view().fatal is None,
        ensures
            final(self).max_packets() == old(self).max_packets(),
            param_stage(old(self).view(), old(backend).calls(), crafted@, types@, final(self).view(), final(backend).calls(), need_b),
    {
        if crafted.len() == 0 {
            let mut m = String::from_str("AU 1 carried no VPS/SPS/PPS NAL units (types found: ");
            push_debug_u8s(&mut m, types.as_slice());
            m.append("); strategy A unavailable");
            self.add_note(m);
            return true;
        }
        match submit_with_retry(backend, 0, crafted.as_slice(), MAX_EAGAIN_CYCLES) {
            Err(reason) => {
                let mut m = String::from_str("ordinal 0 crafted parameter-set-only packet was REJECTED: ");
                m.append(reason.as_str());
                self.add_note(m);
                assert(crate::loop_engine::submit_error_after(old(backend).calls(), backend.calls(), 0, crafted@, MAX_EAGAIN_CYCLES, reason@));
                true
            },
            Ok(record) => {
                let ghost ds = crate::loop_engine::drains_view(record.drains@);
                append_drains(&mut self.combined, &record.drains);
                let again = send_outcome_label_again(&record);
                proof {
                    lemma_again_iff(record.attempts@, ds.len());
                }
                match drain_fully(backend) {
                    Ok(drain0) => {
                        append_ordinals(&mut self.combined, &drain0);
                        let ghost w = self.view();
                        if drain0.len() == 0 {
                            self.strategy = Strategy::ParamSetPacket;
                            self.detail.push(ZeroOutputEvent { ordinal: 0, context: ZeroContext::ForcedParamSetPacket, accepted_after_eagain: again });
                        } else {
                            let mut m = String::from_str("ordinal 0 crafted parameter-set-only packet (");
                            push_debug_u8s(&mut m, types.as_slice());
                            m.append(") was accepted but its immediate drain emitted ");
                            push_decimal(&mut m, drain0.len() as u64);
                            m.append(" frame(s) unexpectedly (");
                            push_debug_opt_i64s(&mut m, drain0.as_slice());
                            m.append("); strategy A did not force a zero-output condition");
                            self.add_note(m);
                        }
                        assert(param_drained(old(self).view(), old(backend).calls(), crafted@, types@, self.view(),
                            backend.calls(), ds, drain0@));
                        false
                    },
                    Err(reason) => {
                        let mut m = String::from_str("ordinal 0 immediate drain: ");
                        m.append(reason.as_str());
                        self.fatal = Some(m);
                        assert(crate::loop_engine::failed_drain_after(
                            old(backend).calls() + crate::loop_engine::accepted_submission(0, crafted@, ds), backend.calls(), reason@));
                        false
                    },
                }
            },
        }
    }

    /// Strategy B when asked for and nothing failed, then the first access
    /// unit as ordinal 1 if strategy B did not submit it.
    fn first_au<B: DecoderLoopBackend>(&mut self, backend: &mut B, au1: &[u8], need_b: bool)
        ensures
            final(self).max_packets() == old(self).max_packets(),
            exists|vm: ZeroView, cm: Seq<crate::loop_engine::BackendCall>| {
                &&& #[trigger] first_b_part(old(self).view(), old(backend).calls(), au1@, need_b, vm, cm)
                &&& if vm.fatal is None && !vm.au1_submitted {
                    first_au_normal(vm, cm, au1@, final(self).view(), final(backend).calls())
                } else {
                    final(self).view() == vm && final(backend).calls() == cm
                }
            },
    {
        let ghost v0 = self.view();
        let ghost c0 = backend.calls();
        if need_b && self.fatal.is_none() {
            let res = self.submit_vcl_and_drain(backend, 1, au1);
            let ghost w = self.view();
            let ghost cw = backend.calls();
            let ghost o = choose|o: VclOutcome| {
                &&& #[trigger] vcl_step(v0, c0, 1, au1@, w, cw, o)
                &&& match o {
                    VclOutcome::Drained(ds, tail) => res matches Ok((rec, d)) && d@ == tail
                        && crate::loop_engine::drains_view(rec.drains@) == ds
                        && rec.attempts@ == crate::loop_engine::accepted_after(ds.len()),
                    VclOutcome::SubmitFailed(e) => res matches Err(m) && m@ == e,
                    VclOutcome::DrainFailed(_, e) => res matches Err(m) && m@ == e,
                }
            };
            match res {
                Ok((record, drain1)) => {
                    self.au1_submitted = true;
                    let again = send_outcome_label_again(&record);
                    proof {
                        lemma_again_iff(record.attempts@, crate::loop_engine::drains_view(record.drains@).len());
                    }
                    if drain1.len() == 0 {
                        self.strategy = Strategy::FirstAuImmediateDrain;
                        self.detail.push(ZeroOutputEvent { ordinal: 1, context: ZeroContext::FirstAuImmediateDrain, accepted_after_eagain: again });
                    } else {
                        let mut m = String::from_str("strategy B: ordinal 1 (real first AU) accepted, but its immediate drain emitted ");
                        push_decimal(&mut m, drain1.len() as u64);
                        m.append(" frame(s) (");
                        push_debug_opt_i64s(&mut m, drain1.as_slice());
                        m.append(") \u{2014} accepted-no-emit-until-next-send did not hold under an immediate drain");
                        self.add_note(m);
                    }
                },
                Err(reason) => {
                    let mut m = String::from_str("ordinal 1 (strategy B real first AU): ");
                    m.append(reason.as_str());
                    self.fatal = Some(m);
                },
            }
            assert(vcl_step(v0, c0, 1, au1@, w, cw, o));
            assert(first_au_b(v0, c0, au1@, self.view(), backend.calls()));
        }
        let ghost vm = self.view();
        let ghost cm = backend.calls();
        assert(first_b_part(v0, c0, au1@, need_b, vm, cm));
        if self.fatal.is_none() && !self.au1_submitted {
            let res = self.submit_vcl_and_drain(backend, 1, au1);
            let ghost w = self.view();
            let ghost cw = backend.calls();
            let ghost o = choose|o: VclOutcome| {
                &&& #[trigger] vcl_step(vm, cm, 1, au1@, w, cw, o)
                &&& match o {
                    VclOutcome::Drained(ds, tail) => res matches Ok((rec, d)) && d@ == tail
                        && crate::loop_engine::drains_view(rec.drains@) == ds
                        && rec.attempts@ == crate::loop_engine::accepted_after(ds.len()),
                    VclOutcome::SubmitFailed(e) => res matches Err(m) && m@ == e,
                    VclOutcome::DrainFailed(_, e) => res matches Err(m) && m@ == e,
                }
            };
            match res {
                Ok((_, drain)) => {
                    if drain.len() == 0 {
                        self.detail.push(ZeroOutputEvent { ordinal: 1, context: ZeroContext::NormalPostAcceptDrain, accepted_after_eagain: false });
                    }
                },
                Err(reason) => {
                    let mut m = String::from_str("ordinal 1: ");
                    m.append(reason.as_str());
                    self.fatal = Some(m);
                },
            }
            assert(vcl_step(vm, cm, 1, au1@, w, cw, o));
            assert(first_au_normal(vm, cm, au1@, self.view(), backend.calls()));
        }
    }
}

/// Whether a submission saw `Again` before it was accepted.
fn send_outcome_label_again(record: &SubmitRecord) -> (r: bool)
    ensures
        r == exists|i: int| 0 <= i < record.attempts@.len() && (#[trigger] record.attempts@[i]).again,
{
    let mut i: usize = 0;
    while i < record.attempts.len()
        invariant
            i <= record.attempts@.len(),
            forall|k: int| 0 <= k < i ==> !(#[trigger] record.attempts@[k]).again,
        decreases record.attempts@.len() - i,
    {
        if record.attempts[i].again {
            return true;
        }
        i += 1;
    }
    false
}

/// A record of `n` `Again` attempts then the accepted one saw `Again`
/// exactly when `n > 0`.
proof fn lemma_again_iff(attempts: Seq<crate::loop_engine::AttemptRecord>, n: nat)
    requires
        attempts == crate::loop_engine::accepted_after(n),
    ensures
        (exists|i: int| 0 <= i < attempts.len() && (#[trigger] attempts[i]).again) == (n > 0),
{
    if n > 0 {
        assert(attempts[0].again);
    } else {
        assert forall|i: int| 0 <= i < attempts.len() implies !(#[trigger] attempts[i]).again by {
            assert(i == 0);
        }
    }
}

/// The strategy B part of the first access unit's handling.
pub open spec fn first_b_part(
    v: ZeroView,
    calls: Seq<crate::loop_engine::BackendCall>,
    au1: Seq<u8>,
    need_b: bool,
    v2: ZeroView,
    calls2: Seq<crate::loop_engine::BackendCall>,
) -> bool {
    if need_b && v.fatal is None {
        first_au_b(v, calls, au1, v2, calls2)
    } else {
        v2 == v && calls2 == calls
    }
}

/// The first access unit's handling after the parameter-set stage.
pub open spec fn first_au_stage(
    v: ZeroView,
    calls: Seq<crate::loop_engine::BackendCall>,
    au1: Seq<u8>,
    need_b: bool,
    v2: ZeroView,
    calls2: Seq<crate::loop_engine::BackendCall>,
) -> bool {
    exists|vm: ZeroView, cm: Seq<crate::loop_engine::BackendCall>| {
        &&& #[trigger] first_b_part(v, calls, au1, need_b, vm, cm)
        &&& if vm.fatal is None && !vm.au1_submitted {
            first_au_normal(vm, cm, au1, v2, calls2)
        } else {
            v2 == vm && calls2 == cm
        }
    }
}

/// The opening of a forcing run on first access unit `au1`.
pub open spec fn zero_start(
    v: ZeroView,
    calls: Seq<crate::loop_engine::BackendCall>,
    au1: Seq<u8>,
    v2: ZeroView,
    calls2: Seq<crate::loop_engine::BackendCall>,
) -> bool {
    let nals = crate::annexb::split_spec(au1);
    let vt = ZeroView { crafted_types: crate::annexb::param_set_types(nals), ..v };
    exists|vm: ZeroView, cm: Seq<crate::loop_engine::BackendCall>, need_b: bool| {
        &&& #[trigger] param_stage(vt, calls, crate::annexb::param_set_bytes(au1, nals),
            crate::annexb::param_set_types(nals), vm, cm, need_b)
        &&& first_au_stage(vm, cm, au1, need_b, v2, calls2)
    }
}

/// One access unit of the submission loop, `v` carrying its ordinal.
pub open spec fn zero_packet(
    v: ZeroView,
    calls: Seq<crate::loop_engine::BackendCall>,
    d: Seq<u8>,
    v2: ZeroView,
    calls2: Seq<crate::loop_engine::BackendCall>,
) -> bool {
    exists|w: ZeroView, o: VclOutcome| {
        &&& #[trigger] vcl_step(v, calls, v.ordinal, d, w, calls2, o)
        &&& v2 == match o {
            VclOutcome::Drained(_, t) => if t.len() == 0 {
                with_detail(w, v.ordinal, ZeroContext::NormalPostAcceptDrain, false)
            } else {
                w
            },
            _ => ZeroView {
                fatal: Some(ordinal_prefix(v.ordinal) + ": "@ + vcl_error(o).unwrap()),
                loop_stop: LoopStop::FatalError,
                ..w
            },
        }
    }
}

/// A copy of `v`.
fn copy_bytes(v: &Vec<u8>) -> (r: Vec<u8>)
    ensures
        r@ == v@,
{
    let mut r: Vec<u8> = Vec::new();
    let mut t: usize = 0;
    while t < v.len()
        invariant
            t <= v@.len(),
            r@ == v@.take(t as int),
        decreases v@.len() - t,
    {
        r.push(v[t]);
        t += 1;
        assert(r@ =~= v@.take(t as int));
    }
    assert(v@.take(t as int) =~= v@);
    r
}

/// The tail step of a forcing run: nothing after a failure, else a flush
/// whose frames are kept, or one that failed with `e`.
pub open spec fn zero_finish(
    v: ZeroView,
    calls: Seq<crate::loop_engine::BackendCall>,
    v2: ZeroView,
    calls2: Seq<crate::loop_engine::BackendCall>,
) -> bool {
    if v.fatal is Some {
        v2 == v && calls2 == calls
    } else {
        ||| exists|ds: Seq<Seq<Option<i64>>>, t: Seq<Option<i64>>| {
            &&& ds.len() <= MAX_EAGAIN_CYCLES
            &&& calls2 == calls + #[trigger] crate::loop_engine::flushed(ds, t)
            &&& v2 == (ZeroView {
                combined: v.combined + (ds.flatten() + t),
                tail_outputs: (ds.flatten() + t).len(),
                ..v
            })
        }
        ||| exists|e: Seq<char>| {
            &&& #[trigger] crate::loop_engine::flush_error_after(calls, calls2, MAX_EAGAIN_CYCLES, e)
            &&& v2 == (ZeroView { fatal: Some("tail flush: "@ + e), ..v })
        }
    }
}

/// What a forcing run reports.
#[derive(Debug, Clone)]
pub struct ForceZeroReport {
    pub pass: bool,
    pub strategy_used: Strategy,
    pub zero_output_detail: Vec<ZeroOutputEvent>,
    pub emitted: u64,
    pub submitted_vcl: u64,
    pub accepted_vcl: u64,
    pub unknown_pts: u64,
    pub duplicates: u64,
    pub ordinal_zero_never_emitted: bool,
    pub ordinal_coverage_exact: bool,
    pub exactly_once_ok: bool,
    pub tail_outputs: usize,
    pub loop_stop_reason: LoopStop,
    pub crafted_param_set_nal_types: Vec<u8>,
    pub notes: Vec<String>,
    pub fail_reasons: Vec<String>,
}

pub open spec fn bool_text(b: bool) -> Seq<char> {
    if b { "true"@ } else { "false"@ }
}

/// The report of a finished forcing run in state `v`: coverage of the
/// real submissions `1..=submitted_vcl` with ordinal 0 never emitted,
/// exactly-once acceptance, and the verdict that needs both.
pub open spec fn zero_report_matches(r: ForceZeroReport, v: ZeroView) -> bool {
    let c = coverage_of(v.combined, (v.submitted_vcl as i64) as int, v.fatal is Some);
    let exact = c.exact && c.ordinal_zero_never_emitted;
    let once = v.fatal is None && v.submitted_vcl == v.accepted_vcl;
    let cov_note = "ordinal coverage not exact: submitted_vcl="@ + crate::text::decimal(v.submitted_vcl as nat)
        + " accepted_vcl="@ + crate::text::decimal(v.accepted_vcl as nat) + " emitted="@
        + crate::text::decimal(c.emitted as nat) + " unknown_pts="@ + crate::text::decimal(c.unknown_pts as nat)
        + " duplicates="@ + crate::text::decimal(c.duplicates as nat) + " ordinal_zero_never_emitted="@
        + bool_text(c.ordinal_zero_never_emitted);
    let once_note = "exactly-once violated: submitted_vcl="@ + crate::text::decimal(v.submitted_vcl as nat)
        + " accepted_vcl="@ + crate::text::decimal(v.accepted_vcl as nat);
    &&& r.pass == (v.fatal is None && exact && once)
    &&& r.ordinal_coverage_exact == exact
    &&& r.exactly_once_ok == once
    &&& r.ordinal_zero_never_emitted == c.ordinal_zero_never_emitted
    &&& r.emitted == c.emitted
    &&& r.unknown_pts == c.unknown_pts
    &&& r.duplicates == c.duplicates
    &&& r.submitted_vcl == v.submitted_vcl
    &&& r.accepted_vcl == v.accepted_vcl
    &&& r.strategy_used == v.strategy
    &&& r.zero_output_detail@ == v.detail
    &&& r.tail_outputs == v.tail_outputs
    &&& r.loop_stop_reason == v.loop_stop
    &&& r.crafted_param_set_nal_types@ == v.crafted_types
    &&& texts(r.notes@) == v.notes
    &&& texts(r.fail_reasons@) == match v.fatal {
        Some(f) => seq![f],
        None => (if exact { Seq::empty() } else { seq![cov_note] })
            + (if once { Seq::empty() } else { seq![once_note] }),
    }
}

impl ForceZeroRun {
    /// Open the run on the sample's first access unit: strategy A with its
    /// parameter sets, strategy B if needed, then the first access unit as
    /// ordinal 1 unless strategy B submitted it.
    pub fn start<B: DecoderLoopBackend>(&mut self, backend: &mut B, au1: &[u8])
        requires
            old(self).view().fatal is None,
        ensures
            final(self).max_packets() == old(self).max_packets(),
            zero_start(old(self).view(), old(backend).calls(), au1@, final(self).view(), final(backend).calls()),
    {
        let (crafted, types) = extract_param_sets(au1);
        let ghost nals = crate::annexb::split_spec(au1@);
        self.crafted_types = copy_bytes(&types);
        let ghost vt = self.view();
        assert(vt == ZeroView { crafted_types: crate::annexb::param_set_types(nals), ..old(self).view() });
        let need_b = self.param_stage(backend, &crafted, &types);
        let ghost vm = self.view();
        let ghost cm = backend.calls();
        self.first_au(backend, au1, need_b);
        assert(first_au_stage(vm, cm, au1@, need_b, self.view(), backend.calls()));
        assert(param_stage(vt, old(backend).calls(), crate::annexb::param_set_bytes(au1@, nals),
            crate::annexb::param_set_types(nals), vm, cm, need_b));
    }

    /// Enter the submission loop, unless the opening failed: ordinals
    /// continue from 1.
    pub fn begin_loop(&mut self)
        ensures
            final(self).max_packets() == old(self).max_packets(),
            final(self).view() == if old(self).view().fatal is None {
                ZeroView { loop_stop: LoopStop::EndOfSample, ordinal: 1, ..old(self).view() }
            } else {
                old(self).view()
            },
    {
        if self.fatal.is_none() {
            self.loop_stop = LoopStop::EndOfSample;
            self.ordinal = 1;
        }
    }

    /// Whether the loop takes another access unit: not once `max_packets`
    /// real submissions were made, nor past the time bound (which ends the
    /// loop with its reason).
    pub fn check_bounds(&mut self) -> (go: bool)
        ensures
            final(self).max_packets() == old(self).max_packets(),
            old(self).view().submitted_vcl >= old(self).max_packets() ==> !go && final(self).view() == (ZeroView {
                loop_stop: LoopStop::MaxPacketsReached,
                ..old(self).view()
            }),
            old(self).view().submitted_vcl < old(self).max_packets() ==> (go && final(self).view() == old(self).view())
                || (!go && final(self).view() == (ZeroView { loop_stop: LoopStop::TimeoutReached, ..old(self).view() })),
    {
        if self.submitted_vcl >= self.max_packets {
            self.loop_stop = LoopStop::MaxPacketsReached;
            return false;
        }
        if micros_since(&self.start) / 1_000_000 >= self.timeout_secs {
            self.loop_stop = LoopStop::TimeoutReached;
            return false;
        }
        true
    }

    /// Whether the run has failed.
    pub fn failed(&self) -> (r: bool)
        ensures
            r == (self.view().fatal is Some),
    {
        self.fatal.is_some()
    }

    /// Submit the next access unit of the loop (`None` when the demuxed
    /// packet had no data) and drain it.
    pub fn on_packet<B: DecoderLoopBackend>(&mut self, backend: &mut B, data: Option<&[u8]>)
        ensures
            final(self).max_packets() == old(self).max_packets(),
            ({
                let w = ZeroView { ordinal: crate::counter::succ_i64(old(self).view().ordinal), ..old(self).view() };
                match data {
                    Some(d) => zero_packet(w, old(backend).calls(), d@, final(self).view(), final(backend).calls()),
                    None => final(backend).calls() == old(backend).calls() && final(self).view() == (ZeroView {
                        fatal: Some(ordinal_prefix(w.ordinal) + ": demuxed packet has no data"@),
                        loop_stop: LoopStop::FatalError,
                        ..w
                    }),
                }
            }),
    {
        self.ordinal = crate::counter::next_i64(self.ordinal);
        let ord = self.ordinal;
        let ghost w = self.view();
        let ghost c0 = backend.calls();
        let d = match data {
            Some(d) => d,
            None => {
                let mut m = String::from_str("ordinal ");
                push_signed_decimal(&mut m, ord);
                m.append(": demuxed packet has no data");
                self.fatal = Some(m);
                self.loop_stop = LoopStop::FatalError;
                return;
            },
        };
        let res = self.submit_vcl_and_drain(backend, ord, d);
        let ghost w2 = self.view();
        let ghost cw = backend.calls();
        let ghost o = choose|o: VclOutcome| {
            &&& #[trigger] vcl_step(w, c0, ord, d@, w2, cw, o)
            &&& match o {
                VclOutcome::Drained(ds, tail) => res matches Ok((rec, dd)) && dd@ == tail
                    && crate::loop_engine::drains_view(rec.drains@) == ds
                    && rec.attempts@ == crate::loop_engine::accepted_after(ds.len()),
                VclOutcome::SubmitFailed(e) => res matches Err(m) && m@ == e,
                VclOutcome::DrainFailed(_, e) => res matches Err(m) && m@ == e,
            }
        };
        match res {
            Ok((_, drain)) => {
                if drain.len() == 0 {
                    self.detail.push(ZeroOutputEvent { ordinal: ord, context: ZeroContext::NormalPostAcceptDrain, accepted_after_eagain: false });
                }
            },
            Err(reason) => {
                let mut m = String::from_str("ordinal ");
                push_signed_decimal(&mut m, ord);
                m.append(": ");
                m.append(reason.as_str());
                self.fatal = Some(m);
                self.loop_stop = LoopStop::FatalError;
            },
        }
        assert(vcl_step(w, c0, ord, d@, w2, cw, o));
        assert(zero_packet(w, c0, d@, self.view(), backend.calls()));
    }

    /// Flush the tail unless the run failed, then judge the run.
    pub fn finish<B: DecoderLoopBackend>(&mut self, backend: &mut B) -> (r: ForceZeroReport)
        ensures
            zero_finish(old(self).view(), old(backend).calls(), final(self).view(), final(backend).calls()),
            zero_report_matches(r, final(self).view()),
    {
        if self.fatal.is_none() {
            match flush_tail(backend, MAX_EAGAIN_CYCLES) {
                Ok(tail) => {
                    self.tail_outputs = tail.recovered.len();
                    append_ordinals(&mut self.combined, &tail.recovered);
                },
                Err(reason) => {
                    let mut m = String::from_str("tail flush: ");
                    m.append(reason.as_str());
                    self.fatal = Some(m);
                    assert(crate::loop_engine::flush_error_after(old(backend).calls(), backend.calls(), MAX_EAGAIN_CYCLES, reason@));
                },
            }
        }
        let failed = self.fatal.is_some();
        let cov = coverage(&self.combined, self.submitted_vcl, failed);
        let exact = cov.exact && cov.ordinal_zero_never_emitted;
        let once = !failed && self.submitted_vcl == self.accepted_vcl;
        let mut fail_reasons: Vec<String> = Vec::new();
        match &self.fatal {
            Some(f) => {
                fail_reasons.push(f.clone());
                assert(texts(fail_reasons@) =~= seq![f@]);
            },
            None => {
                let ghost cov_note = "ordinal coverage not exact: submitted_vcl="@ + crate::text::decimal(self.submitted_vcl as nat)
                    + " accepted_vcl="@ + crate::text::decimal(self.accepted_vcl as nat) + " emitted="@
                    + crate::text::decimal(cov.emitted as nat) + " unknown_pts="@ + crate::text::decimal(cov.unknown_pts as nat)
                    + " duplicates="@ + crate::text::decimal(cov.duplicates as nat) + " ordinal_zero_never_emitted="@
                    + bool_text(cov.ordinal_zero_never_emitted);
                let ghost once_note = "exactly-once violated: submitted_vcl="@ + crate::text::decimal(self.submitted_vcl as nat)
                    + " accepted_vcl="@ + crate::text::decimal(self.accepted_vcl as nat);
                if !exact {
                    let mut m = String::from_str("ordinal coverage not exact: submitted_vcl=");
                    push_decimal(&mut m, self.submitted_vcl);
                    m.append(" accepted_vcl=");
                    push_decimal(&mut m, self.accepted_vcl);
                    m.append(" emitted=");
                    push_decimal(&mut m, cov.emitted);
                    m.append(" unknown_pts=");
                    push_decimal(&mut m, cov.unknown_pts);
                    m.append(" duplicates=");
                    push_decimal(&mut m, cov.duplicates);
                    m.append(" ordinal_zero_never_emitted=");
                    m.append(if cov.ordinal_zero_never_emitted { "true" } else { "false" });
                    assert(m@ == cov_note);
                    fail_reasons.push(m);
                    assert(texts(fail_reasons@) =~= seq![cov_note]);
                } else {
                    assert(texts(fail_reasons@) =~= Seq::<Seq<char>>::empty());
                }
                let ghost mid = texts(fail_reasons@);
                if !once {
                    let mut m = String::from_str("exactly-once violated: submitted_vcl=");
                    push_decimal(&mut m, self.submitted_vcl);
                    m.append(" accepted_vcl=");
                    push_decimal(&mut m, self.accepted_vcl);
                    let ghost before = fail_reasons@;
                    fail_reasons.push(m);
                    assert(texts(fail_reasons@) =~= texts(before).push(m@));
                    assert(texts(fail_reasons@) =~= mid + seq![once_note]);
                } else {
                    assert(texts(fail_reasons@) =~= mid + Seq::<Seq<char>>::empty());
                }
            },
        }
        let mut detail: Vec<ZeroOutputEvent> = Vec::new();
        let mut k: usize = 0;
        while k < self.detail.len()
            invariant
                k <= self.detail@.len(),
                detail@ == self.detail@.take(k as int),
            decreases self.detail@.len() - k,
        {
            detail.push(self.detail[k]);
            k += 1;
            assert(detail@ =~= self.detail@.take(k as int));
        }
        assert(self.detail@.take(k as int) =~= self.detail@);
        let mut notes: Vec<String> = Vec::new();
        let mut j: usize = 0;
        while j < self.notes.len()
            invariant
                j <= self.notes@.len(),
                texts(notes@) == texts(self.notes@).take(j as int),
            decreases self.notes@.len() - j,
        {
            let ghost before = notes@;
            let t = self.notes[j].clone();
            notes.push(t);
            assert(texts(notes@) =~= texts(before).push(t@));
            assert(texts(self.notes@).take(j + 1) =~= texts(self.notes@).take(j as int).push(t@));
            j += 1;
        }
        assert(texts(self.notes@).take(j as int) =~= texts(self.notes@));
        let mut types: Vec<u8> = Vec::new();
        let mut t: usize = 0;
        while t < self.crafted_types.len()
            invariant
                t <= self.crafted_types@.len(),
                types@ == self.crafted_types@.take(t as int),
            decreases self.crafted_types@.len() - t,
        {
            types.push(self.crafted_types[t]);
            t += 1;
            assert(types@ =~= self.crafted_types@.take(t as int));
        }
        assert(self.crafted_types@.take(t as int) =~= self.crafted_types@);
        ForceZeroReport {
            pass: !failed && exact && once,
            strategy_used: self.strategy,
            zero_output_detail: detail,
            emitted: cov.emitted,
            submitted_vcl: self.submitted_vcl,
            accepted_vcl: self.accepted_vcl,
            unknown_pts: cov.unknown_pts,
            duplicates: cov.duplicates,
            ordinal_zero_never_emitted: cov.ordinal_zero_never_emitted,
            ordinal_coverage_exact: exact,
            exactly_once_ok: once,
            tail_outputs: self.tail_outputs,
            loop_stop_reason: self.loop_stop,
            crafted_param_set_nal_types: types,
            notes,
            fail_reasons,
        }
    }
}

// ---------------------------------------------------------------------------
// A whole forcing run
// ---------------------------------------------------------------------------

/// `calls` extends `base`, and while the run has not failed the frames the
/// backend handed out since `base` are `lost` (drained while a rejected
/// parameter-set packet was retried) followed by the frames the run kept.
pub open spec fn zero_tracks(v: ZeroView, base: Seq<crate::loop_engine::BackendCall>,
    calls: Seq<crate::loop_engine::BackendCall>, lost: Seq<Option<i64>>) -> bool {
    &&& calls.len() >= base.len()
    &&& calls.take(base.len() as int) == base
    &&& v.fatal is None ==> crate::loop_engine::recovered(calls.skip(base.len() as int)) == lost + v.combined
}

/// The calls of a failed submission extend the calls before it.
proof fn lemma_submit_error_extends(calls: Seq<crate::loop_engine::BackendCall>,
    calls2: Seq<crate::loop_engine::BackendCall>, ord: i64, d: Seq<u8>, e: Seq<char>)
    requires
        crate::loop_engine::submit_error_after(calls, calls2, ord, d, MAX_EAGAIN_CYCLES, e),
    ensures
        calls2 == calls + calls2.skip(calls.len() as int),
{
    let ds = choose|ds: Seq<Seq<Option<i64>>>| #[trigger] crate::loop_engine::submit_failed(calls, calls2, ord, d, MAX_EAGAIN_CYCLES, ds, e);
    assert(calls2.len() >= calls.len());
    assert(calls2.take(calls.len() as int) =~= calls);
    assert(calls2 =~= calls + calls2.skip(calls.len() as int));
}

/// One real submission keeps the tracking: a drained one appends its
/// frames to what the run kept; a failed one extends the log.
proof fn lemma_vcl_tracks(
    v: ZeroView,
    base: Seq<crate::loop_engine::BackendCall>,
    calls: Seq<crate::loop_engine::BackendCall>,
    lost: Seq<Option<i64>>,
    ord: i64,
    d: Seq<u8>,
    w: ZeroView,
    calls2: Seq<crate::loop_engine::BackendCall>,
    o: VclOutcome,
)
    requires
        v.fatal is None,
        zero_tracks(v, base, calls, lost),
        vcl_step(v, calls, ord, d, w, calls2, o),
    ensures
        calls2.len() >= base.len(),
        calls2.take(base.len() as int) == base,
        w.fatal is None,
        o is Drained ==> crate::loop_engine::recovered(calls2.skip(base.len() as int)) == lost + w.combined,
{
    match o {
        VclOutcome::Drained(ds, tail) => {
            let x = crate::loop_engine::accepted_submission(ord, d, ds) + crate::loop_engine::drained(tail);
            assert(calls2 =~= calls + x);
            lemma_tracks_append(base, calls, x);
            crate::loop_engine::lemma_recovered_concat(crate::loop_engine::accepted_submission(ord, d, ds),
                crate::loop_engine::drained(tail));
            crate::loop_engine::lemma_recovered_again_rounds(ord, d, ds);
            crate::loop_engine::lemma_recovered_frames(tail);
            let r0 = crate::loop_engine::recovered(calls.skip(base.len() as int));
            assert(lost + v.combined + (ds.flatten() + tail) =~= lost + (v.combined + ds.flatten() + tail));
        },
        VclOutcome::SubmitFailed(e) => {
            lemma_submit_error_extends(calls, calls2, ord, d, e);
            lemma_tracks_append(base, calls, calls2.skip(calls.len() as int));
        },
        VclOutcome::DrainFailed(ds, e) => {
            let sub = calls + crate::loop_engine::accepted_submission(ord, d, ds);
            let ords = choose|ords: Seq<Option<i64>>| calls2 == sub + #[trigger] crate::loop_engine::drain_failed(ords, e);
            let x = crate::loop_engine::accepted_submission(ord, d, ds) + crate::loop_engine::drain_failed(ords, e);
            assert(calls2 =~= calls + x);
            lemma_tracks_append(base, calls, x);
        },
    }
}

proof fn lemma_param_stage_tracks(
    v: ZeroView,
    base: Seq<crate::loop_engine::BackendCall>,
    crafted: Seq<u8>,
    types: Seq<u8>,
    v2: ZeroView,
    calls2: Seq<crate::loop_engine::BackendCall>,
    need_b: bool,
) -> (lost: Seq<Option<i64>>)
    requires
        v.fatal is None,
        v.combined.len() == 0,
        param_stage(v, base, crafted, types, v2, calls2, need_b),
    ensures
        zero_tracks(v2, base, calls2, lost),
        lost.len() > 0 ==> v2.strategy == v.strategy,
{
    assert(base.take(base.len() as int) =~= base);
    assert(base.skip(base.len() as int) =~= Seq::<crate::loop_engine::BackendCall>::empty());
    if crafted.len() == 0 {
        assert(Seq::<Option<i64>>::empty() + v2.combined =~= v2.combined);
        Seq::empty()
    } else if exists|ds: Seq<Seq<Option<i64>>>, d0: Seq<Option<i64>>|
        #[trigger] param_drained(v, base, crafted, types, v2, calls2, ds, d0) && !need_b {
        let (ds, d0) = choose|ds: Seq<Seq<Option<i64>>>, d0: Seq<Option<i64>>|
            #[trigger] param_drained(v, base, crafted, types, v2, calls2, ds, d0) && !need_b;
        let x = crate::loop_engine::accepted_submission(0, crafted, ds) + crate::loop_engine::drained(d0);
        assert(calls2 =~= base + x);
        lemma_tracks_append(base, base, x);
        crate::loop_engine::lemma_recovered_concat(crate::loop_engine::accepted_submission(0, crafted, ds),
            crate::loop_engine::drained(d0));
        crate::loop_engine::lemma_recovered_again_rounds(0, crafted, ds);
        crate::loop_engine::lemma_recovered_frames(d0);
        assert(Seq::<Option<i64>>::empty() + v2.combined =~= v.combined + ds.flatten() + d0);
        Seq::empty()
    } else if exists|e: Seq<char>| {
        &&& #[trigger] crate::loop_engine::submit_error_after(base, calls2, 0, crafted, MAX_EAGAIN_CYCLES, e)
        &&& need_b
        &&& v2 == zero_notes(v, "ordinal 0 crafted parameter-set-only packet was REJECTED: "@ + e)
    } {
        let e = choose|e: Seq<char>| {
            &&& #[trigger] crate::loop_engine::submit_error_after(base, calls2, 0, crafted, MAX_EAGAIN_CYCLES, e)
            &&& need_b
            &&& v2 == zero_notes(v, "ordinal 0 crafted parameter-set-only packet was REJECTED: "@ + e)
        };
        lemma_submit_error_extends(base, calls2, 0, crafted, e);
        let x = calls2.skip(base.len() as int);
        lemma_tracks_append(base, base, x);
        let lost = crate::loop_engine::recovered(x);
        assert(lost + v2.combined =~= lost);
        lost
    } else {
        let (ds, e) = choose|ds: Seq<Seq<Option<i64>>>, e: Seq<char>| {
            &&& ds.len() <= MAX_EAGAIN_CYCLES
            &&& #[trigger] crate::loop_engine::failed_drain_after(
                base + crate::loop_engine::accepted_submission(0, crafted, ds), calls2, e)
            &&& !need_b
            &&& v2 == (ZeroView { combined: v.combined + ds.flatten(), fatal: Some("ordinal 0 immediate drain: "@ + e), ..v })
        };
        let sub = base + crate::loop_engine::accepted_submission(0, crafted, ds);
        let ords = choose|ords: Seq<Option<i64>>| calls2 == sub + #[trigger] crate::loop_engine::drain_failed(ords, e);
        let x = crate::loop_engine::accepted_submission(0, crafted, ds) + crate::loop_engine::drain_failed(ords, e);
        assert(calls2 =~= base + x);
        lemma_tracks_append(base, base, x);
        Seq::empty()
    }
}

/// No strategy-A success: the parameter-set packet did not force the
/// zero-output condition.
pub open spec fn not_param_forced(v: ZeroView) -> bool {
    v.strategy != Strategy::ParamSetPacket
}

proof fn lemma_first_au_b_tracks(v: ZeroView, base: Seq<crate::loop_engine::BackendCall>,
    calls: Seq<crate::loop_engine::BackendCall>, lost: Seq<Option<i64>>, au1: Seq<u8>,
    v2: ZeroView, calls2: Seq<crate::loop_engine::BackendCall>)
    requires
        v.fatal is None,
        zero_tracks(v, base, calls, lost),
        lost.len() > 0 ==> not_param_forced(v),
        first_au_b(v, calls, au1, v2, calls2),
    ensures
        zero_tracks(v2, base, calls2, lost),
        lost.len() > 0 ==> not_param_forced(v2),
{
    let (w, o) = choose|w: ZeroView, o: VclOutcome| {
        &&& #[trigger] vcl_step(v, calls, 1, au1, w, calls2, o)
        &&& v2 == match o {
            VclOutcome::Drained(ds, d1) => {
                let w1 = ZeroView { au1_submitted: true, ..w };
                if d1.len() == 0 {
                    ZeroView {
                        strategy: Strategy::FirstAuImmediateDrain,
                        ..with_detail(w1, 1, ZeroContext::FirstAuImmediateDrain, saw_again(ds))
                    }
                } else {
                    zero_notes(w1, "strategy B: ordinal 1 (real first AU) accepted, but its immediate drain emitted "@
                        + crate::text::decimal(d1.len()) + " frame(s) ("@ + crate::text::debug_opt_i64s(d1)
                        + ") \u{2014} accepted-no-emit-until-next-send did not hold under an immediate drain"@)
                }
            },
            _ => ZeroView { fatal: Some("ordinal 1 (strategy B real first AU): "@ + vcl_error(o).unwrap()), ..w },
        }
    };
    lemma_vcl_tracks(v, base, calls, lost, 1, au1, w, calls2, o);
}

proof fn lemma_first_au_normal_tracks(v: ZeroView, base: Seq<crate::loop_engine::BackendCall>,
    calls: Seq<crate::loop_engine::BackendCall>, lost: Seq<Option<i64>>, au1: Seq<u8>,
    v2: ZeroView, calls2: Seq<crate::loop_engine::BackendCall>)
    requires
        v.fatal is None,
        zero_tracks(v, base, calls, lost),
        lost.len() > 0 ==> not_param_forced(v),
        first_au_normal(v, calls, au1, v2, calls2),
    ensures
        zero_tracks(v2, base, calls2, lost),
        lost.len() > 0 ==> not_param_forced(v2),
{
    let (w, o) = choose|w: ZeroView, o: VclOutcome| {
        &&& #[trigger] vcl_step(v, calls, 1, au1, w, calls2, o)
        &&& v2 == match o {
            VclOutcome::Drained(_, d) => if d.len() == 0 {
                with_detail(w, 1, ZeroContext::NormalPostAcceptDrain, false)
            } else {
                w
            },
            _ => ZeroView { fatal: Some("ordinal 1: "@ + vcl_error(o).unwrap()), ..w },
        }
    };
    lemma_vcl_tracks(v, base, calls, lost, 1, au1, w, calls2, o);
}

proof fn lemma_zero_packet_tracks(v: ZeroView, base: Seq<crate::loop_engine::BackendCall>,
    calls: Seq<crate::loop_engine::BackendCall>, lost: Seq<Option<i64>>, d: Seq<u8>,
    v2: ZeroView, calls2: Seq<crate::loop_engine::BackendCall>)
    requires
        v.fatal is None,
        zero_tracks(v, base, calls, lost),
        lost.len() > 0 ==> not_param_forced(v),
        zero_packet(v, calls, d, v2, calls2),
    ensures
        zero_tracks(v2, base, calls2, lost),
        lost.len() > 0 ==> not_param_forced(v2),
        v2.submitted_vcl == v.submitted_vcl || v2.submitted_vcl == crate::counter::bump(v.submitted_vcl),
{
    let (w, o) = choose|w: ZeroView, o: VclOutcome| {
        &&& #[trigger] vcl_step(v, calls, v.ordinal, d, w, calls2, o)
        &&& v2 == match o {
            VclOutcome::Drained(_, t) => if t.len() == 0 {
                with_detail(w, v.ordinal, ZeroContext::NormalPostAcceptDrain, false)
            } else {
                w
            },
            _ => ZeroView {
                fatal: Some(ordinal_prefix(v.ordinal) + ": "@ + vcl_error(o).unwrap()),
                loop_stop: LoopStop::FatalError,
                ..w
            },
        }
    };
    lemma_vcl_tracks(v, base, calls, lost, v.ordinal, d, w, calls2, o);
}

proof fn lemma_zero_start_tracks(v: ZeroView, base: Seq<crate::loop_engine::BackendCall>, au1: Seq<u8>,
    v2: ZeroView, calls2: Seq<crate::loop_engine::BackendCall>) -> (lost: Seq<Option<i64>>)
    requires
        v.fatal is None,
        v.combined.len() == 0,
        v.strategy == Strategy::NotForced,
        zero_start(v, base, au1, v2, calls2),
    ensures
        zero_tracks(v2, base, calls2, lost),
        lost.len() > 0 ==> not_param_forced(v2),
{
    let nals = crate::annexb::split_spec(au1);
    let vt = ZeroView { crafted_types: crate::annexb::param_set_types(nals), ..v };
    let (vm, cm, need_b) = choose|vm: ZeroView, cm: Seq<crate::loop_engine::BackendCall>, need_b: bool| {
        &&& #[trigger] param_stage(vt, base, crate::annexb::param_set_bytes(au1, nals),
            crate::annexb::param_set_types(nals), vm, cm, need_b)
        &&& first_au_stage(vm, cm, au1, need_b, v2, calls2)
    };
    let lost = lemma_param_stage_tracks(vt, base, crate::annexb::param_set_bytes(au1, nals),
        crate::annexb::param_set_types(nals), vm, cm, need_b);
    let (vm2, cm2) = choose|vm2: ZeroView, cm2: Seq<crate::loop_engine::BackendCall>| {
        &&& #[trigger] first_b_part(vm, cm, au1, need_b, vm2, cm2)
        &&& if vm2.fatal is None && !vm2.au1_submitted {
            first_au_normal(vm2, cm2, au1, v2, calls2)
        } else {
            v2 == vm2 && calls2 == cm2
        }
    };
    if need_b && vm.fatal is None {
        lemma_first_au_b_tracks(vm, base, cm, lost, au1, vm2, cm2);
    }
    if vm2.fatal is None && !vm2.au1_submitted {
        lemma_first_au_normal_tracks(vm2, base, cm2, lost, au1, v2, calls2);
    }
    lost
}

/// The frames a forcing run was handed, `rec`, are `lost` followed by the
/// frames it kept, while it has not failed; frames are lost only when
/// strategy A did not succeed.
pub open spec fn zero_run_split(lost: Seq<Option<i64>>, rec: Seq<Option<i64>>, v: ZeroView) -> bool {
    &&& v.fatal is None ==> rec == lost + v.combined
    &&& lost.len() > 0 ==> not_param_forced(v)
}

/// The view of a fresh forcing run.
pub open spec fn fresh_zero() -> ZeroView {
    ZeroView {
        submitted_vcl: 0,
        accepted_vcl: 0,
        combined: Seq::empty(),
        detail: Seq::empty(),
        notes: Seq::empty(),
        strategy: Strategy::NotForced,
        fatal: None,
        loop_stop: LoopStop::NotEntered,
        ordinal: 0,
        au1_submitted: false,
        tail_outputs: 0,
        crafted_types: Seq::empty(),
    }
}

/// The forcing run's view after the opening and `begin_loop`.
pub open spec fn zero_loop_entry(v: ZeroView) -> ZeroView {
    if v.fatal is None { ZeroView { loop_stop: LoopStop::EndOfSample, ordinal: 1, ..v } } else { v }
}

/// One access unit of the submission loop: the next ordinal is taken, and
/// the unit is submitted and drained, or, without data, the run fails.
pub open spec fn zero_on_packet(
    v: ZeroView,
    calls: Seq<crate::loop_engine::BackendCall>,
    p: Option<Seq<u8>>,
    v2: ZeroView,
    calls2: Seq<crate::loop_engine::BackendCall>,
) -> bool {
    let w = ZeroView { ordinal: crate::counter::succ_i64(v.ordinal), ..v };
    match p {
        Some(d) => zero_packet(w, calls, d, v2, calls2),
        None => calls2 == calls && v2 == (ZeroView {
            fatal: Some(ordinal_prefix(w.ordinal) + ": demuxed packet has no data"@),
            loop_stop: LoopStop::FatalError,
            ..w
        }),
    }
}

/// Step `k` of the submission loop: nothing had failed, the packet bound
/// allowed another submission and the time bound did not stop the run, and
/// access unit `ps[k]` took the run from `vs[k]`, `cs[k]` to `vs[k + 1]`,
/// `cs[k + 1]`.
pub open spec fn zero_step_at(
    ps: Seq<Option<Seq<u8>>>,
    max_packets: u64,
    vs: Seq<ZeroView>,
    cs: Seq<Seq<crate::loop_engine::BackendCall>>,
    k: int,
) -> bool {
    &&& vs[k].fatal is None
    &&& vs[k].submitted_vcl < max_packets
    &&& zero_on_packet(vs[k], cs[k], ps[k], vs[k + 1], cs[k + 1])
}

/// The bounds stopped the loop at `v`: the packet bound, or else the time
/// bound.
pub open spec fn zero_bounds_stop(max_packets: u64, v: ZeroView, v2: ZeroView) -> bool {
    if v.submitted_vcl >= max_packets {
        v2 == (ZeroView { loop_stop: LoopStop::MaxPacketsReached, ..v })
    } else {
        v2 == (ZeroView { loop_stop: LoopStop::TimeoutReached, ..v })
    }
}

/// A whole forcing run from `calls0`: the opening on `au1` to `vst`,
/// `cs[0]`; the submission loop over `ps` through `vs`, `cs`, stopping at
/// the first failure, at the bounds (to `ve`) or at the end of the sample;
/// then the tail step to `vf`, `cf`.
pub open spec fn zero_run(
    au1: Seq<u8>,
    ps: Seq<Option<Seq<u8>>>,
    max_packets: u64,
    calls0: Seq<crate::loop_engine::BackendCall>,
    vst: ZeroView,
    vs: Seq<ZeroView>,
    cs: Seq<Seq<crate::loop_engine::BackendCall>>,
    ve: ZeroView,
    vf: ZeroView,
    cf: Seq<crate::loop_engine::BackendCall>,
) -> bool {
    let m = vs.len() - 1;
    &&& zero_start(fresh_zero(), calls0, au1, vst, cs[0])
    &&& vs.len() == cs.len()
    &&& 1 <= vs.len() <= ps.len() + 1
    &&& vs[0] == zero_loop_entry(vst)
    &&& forall|k: int| 0 <= k < m ==> #[trigger] zero_step_at(ps, max_packets, vs, cs, k)
    &&& {
        ||| (vs[m].fatal is Some && ve == vs[m])
        ||| (m == ps.len() && ve == vs[m])
        ||| (vs[m].fatal is None && zero_bounds_stop(max_packets, vs[m], ve))
    }
    &&& zero_finish(ve, cs[m], vf, cf)
}

impl ForceZeroRun {
    /// Drive a fresh run over the whole sample: open it on `au1`, then,
    /// unless that failed, submit each access unit of `rest` while the
    /// bounds allow and nothing failed, then flush and judge. The frames the
    /// backend handed out during the run are `lost` followed by the frames
    /// the run kept, where `lost` are frames drained while a rejected
    /// parameter-set packet was retried (empty unless it was rejected, and
    /// then strategy A did not succeed). The run passes exactly when it did
    /// not fail, every kept frame carried a known ordinal, none twice,
    /// ordinal 0 never came out, the kept ordinals are exactly
    /// `1..=submitted_vcl`, and every real submission was accepted once.
    /// The strategy used does not enter the verdict.
    pub fn run_all<B: DecoderLoopBackend>(&mut self, backend: &mut B, au1: &[u8], rest: &Vec<Option<Vec<u8>>>)
        -> (r: ForceZeroReport)
        requires
            old(self).view() == fresh_zero(),
        ensures
            final(backend).calls().len() >= old(backend).calls().len(),
            final(backend).calls().take(old(backend).calls().len() as int) == old(backend).calls(),
            zero_report_matches(r, final(self).view()),
            exists|vst: ZeroView, vs: Seq<ZeroView>, cs: Seq<Seq<crate::loop_engine::BackendCall>>, ve: ZeroView|
                #[trigger] zero_run(au1@, packets_bytes(rest@), old(self).max_packets(), old(backend).calls(),
                    vst, vs, cs, ve, final(self).view(), final(backend).calls()),
            exists|lost: Seq<Option<i64>>| #[trigger] zero_run_split(lost,
                crate::loop_engine::recovered(final(backend).calls().skip(old(backend).calls().len() as int)),
                final(self).view()),
            ({
                let v = final(self).view();
                let kept = v.combined;
                v.submitted_vcl <= i64::MAX ==> (r.pass <==> (v.fatal is None && unknown_count(kept) == 0
                    && duplicate_count(kept) == 0 && !kept.contains(Some(0i64))
                    && known_ints(kept) == vstd::set_lib::set_int_range(1, v.submitted_vcl + 1)
                    && v.submitted_vcl == v.accepted_vcl))
            }),
    {
        let ghost base = backend.calls();
        let ghost ps = packets_bytes(rest@);
        let ghost mp = self.max_packets();
        self.start(backend, au1);
        let ghost vst = self.view();
        let ghost cst = backend.calls();
        let ghost lost = lemma_zero_start_tracks(fresh_zero(), base, au1@, self.view(), backend.calls());
        self.begin_loop();
        let ghost mut vs: Seq<ZeroView> = seq![self.view()];
        let ghost mut cs: Seq<Seq<crate::loop_engine::BackendCall>> = seq![backend.calls()];
        if !self.failed() {
            let mut i: usize = 0;
            while i < rest.len()
                invariant_except_break
                    self.view().fatal is None,
                    vs.len() == i + 1,
                    vs.last() == self.view(),
                invariant
                    i <= rest@.len(),
                    ps == packets_bytes(rest@),
                    mp == self.max_packets(),
                    zero_tracks(self.view(), base, backend.calls(), lost),
                    lost.len() > 0 ==> not_param_forced(self.view()),
                    vs.len() == cs.len(),
                    1 <= vs.len() <= rest@.len() + 1,
                    vs[0] == zero_loop_entry(vst),
                    cs[0] == cst,
                    cs.last() == backend.calls(),
                    forall|k: int| 0 <= k < vs.len() - 1 ==> #[trigger] zero_step_at(ps, mp, vs, cs, k),
                ensures
                    vs.len() == cs.len(),
                    1 <= vs.len() <= rest@.len() + 1,
                    vs[0] == zero_loop_entry(vst),
                    cs[0] == cst,
                    cs.last() == backend.calls(),
                    mp == self.max_packets(),
                    forall|k: int| 0 <= k < vs.len() - 1 ==> #[trigger] zero_step_at(ps, mp, vs, cs, k),
                    ({
                        let m = vs.len() - 1;
                        ||| (vs[m].fatal is Some && self.view() == vs[m])
                        ||| (m == ps.len() && self.view() == vs[m])
                        ||| (vs[m].fatal is None && zero_bounds_stop(mp, vs[m], self.view()))
                    }),
                    zero_tracks(self.view(), base, backend.calls(), lost),
                    lost.len() > 0 ==> not_param_forced(self.view()),
                decreases rest@.len() - i,
            {
                if !self.check_bounds() {
                    break;
                }
                let ghost v0 = self.view();
                let ghost c0 = backend.calls();
                let data: Option<&[u8]> = match &rest[i] {
                    Some(p) => Some(p.as_slice()),
                    None => None,
                };
                self.on_packet(backend, data);
                proof {
                    let w = ZeroView { ordinal: crate::counter::succ_i64(v0.ordinal), ..v0 };
                    match data {
                        Some(d) => {
                            lemma_zero_packet_tracks(w, base, c0, lost, d@, self.view(), backend.calls());
                        },
                        None => {},
                    }
                    let ghost vs0 = vs;
                    let ghost cs0 = cs;
                    vs = vs.push(self.view());
                    cs = cs.push(backend.calls());
                    assert(vs[i as int] == v0 && cs[i as int] == c0);
                    assert(ps[i as int] == packet_bytes(rest@[i as int]));
                    match data {
                        Some(d) => { assert(ps[i as int] == Some(d@)); },
                        None => { assert(ps[i as int] is None); },
                    }
                    assert(zero_step_at(ps, mp, vs, cs, i as int));
                    assert forall|k: int| 0 <= k < i + 1 implies #[trigger] zero_step_at(ps, mp, vs, cs, k) by {
                        if k < i {
                            assert(zero_step_at(ps, mp, vs0, cs0, k));
                            assert(vs[k] == vs0[k] && vs[k + 1] == vs0[k + 1] && cs[k] == cs0[k] && cs[k + 1] == cs0[k + 1]);
                        }
                    }
                }
                if self.failed() {
                    break;
                }
                i += 1;
            }
        }
        let ghost v1 = self.view();
        let ghost c1 = backend.calls();
        let r = self.finish(backend);
        proof {
            assert(zero_start(fresh_zero(), base, au1@, vst, cs[0]));
            assert(zero_finish(v1, cs[vs.len() - 1], self.view(), backend.calls()));
            assert(zero_run(au1@, ps, mp, base, vst, vs, cs, v1, self.view(), backend.calls()));
            let v = self.view();
            if v1.fatal is None && v.fatal is None {
                let (ds, t) = choose|ds: Seq<Seq<Option<i64>>>, t: Seq<Option<i64>>| {
                    &&& ds.len() <= MAX_EAGAIN_CYCLES
                    &&& backend.calls() == c1 + #[trigger] crate::loop_engine::flushed(ds, t)
                    &&& self.view() == (ZeroView {
                        combined: v1.combined + (ds.flatten() + t),
                        tail_outputs: (ds.flatten() + t).len(),
                        ..v1
                    })
                };
                lemma_tracks_append(base, c1, crate::loop_engine::flushed(ds, t));
                crate::loop_engine::lemma_recovered_flushed(ds, t);
                assert(lost + v1.combined + (ds.flatten() + t) =~= lost + v.combined);
            } else if v1.fatal is None {
                let e = choose|e: Seq<char>| {
                    &&& #[trigger] crate::loop_engine::flush_error_after(c1, backend.calls(), MAX_EAGAIN_CYCLES, e)
                    &&& self.view() == (ZeroView { fatal: Some("tail flush: "@ + e), ..v1 })
                };
                let (ds, e2) = choose|ds: Seq<Seq<Option<i64>>>, e2: Seq<char>| #[trigger] crate::loop_engine::flush_failed(c1, backend.calls(), MAX_EAGAIN_CYCLES, ds, e2) && e2 == e;
                assert(backend.calls().len() >= c1.len());
                assert(backend.calls().take(c1.len() as int) =~= c1);
                assert(backend.calls() =~= c1 + backend.calls().skip(c1.len() as int));
                lemma_tracks_append(base, c1, backend.calls().skip(c1.len() as int));
            }
            if v.fatal is None && v.submitted_vcl <= i64::MAX {
                lemma_exact_coverage_is_exact_set(v.combined, v.submitted_vcl as int);
            }
            assert(zero_tracks(v, base, backend.calls(), lost));
            assert(zero_run_split(lost, crate::loop_engine::recovered(backend.calls().skip(base.len() as int)), v));
        }
        r
    }
}

} // verus!

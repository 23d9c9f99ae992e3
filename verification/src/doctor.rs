//! Verdicts of the client doctor: the decode-sample check driven through a
//! decoder backend, the SDL probe checks, and the exit code of a run.
use vstd::prelude::*;
use vstd::string::StringExecFns;
use crate::counter::inc;
use crate::loop_engine::{BackendCall, DecoderLoopBackend, FrameOutcome, SendOutcome};
use crate::ordinals::EmissionLog;

verus! {

/// Exit code of a passing run.
pub const EXIT_PASS: i32 = 0;
/// Exit code of an environment failure.
pub const EXIT_ENVIRONMENT: i32 = 2;
/// Exit code of a native-API failure.
pub const EXIT_NATIVE: i32 = 3;

/// Access units of the sample decoded by the check.
pub const SAMPLE_AU_LIMIT: u64 = 60;
/// `Again` answers tolerated per access unit.
pub const MAX_EAGAIN_CYCLES: u32 = 64;

/// A run's exit code: the worst of its checks' contributions.
pub open spec fn worst(a: i32, b: i32) -> i32 {
    if a > b { a } else { b }
}

pub fn combine_exit(a: i32, b: i32) -> (r: i32)
    ensures
        r == worst(a, b),
{
    if a > b { a } else { b }
}

/// The environment check fails (as an environment problem) only when the
/// kernel facts could not be read.
pub fn environment_exit(kernel_ok: bool) -> (r: i32)
    ensures
        r == if kernel_ok { EXIT_PASS } else { EXIT_ENVIRONMENT },
{
    if kernel_ok { EXIT_PASS } else { EXIT_ENVIRONMENT }
}

/// Facts from one SDL probe.
#[derive(Debug, Clone)]
pub struct SdlProbe {
    pub init_ok: bool,
    pub video_ok: bool,
    pub num_displays: i32,
    pub window_ok: bool,
    pub canvas_ok: bool,
    pub iyuv_ok: bool,
    pub nv12_ok: bool,
    pub error: Option<String>,
}

/// The texture check passes when SDL, its video subsystem, a hidden window,
/// a renderer and an IYUV streaming texture all came up.
pub open spec fn sdl_ok(p: SdlProbe) -> bool {
    p.init_ok && p.video_ok && p.window_ok && p.canvas_ok && p.iyuv_ok
}

/// The texture check's verdict and exit contribution: no video subsystem
/// is an environment fact; a live display failing a native call is a
/// native-API failure.
pub fn sdl_texture_verdict(p: &SdlProbe) -> (r: (bool, i32))
    ensures
        r.0 == sdl_ok(*p),
        r.1 == if !p.video_ok { EXIT_ENVIRONMENT } else if sdl_ok(*p) { EXIT_PASS } else { EXIT_NATIVE },
{
    let ok = p.init_ok && p.video_ok && p.window_ok && p.canvas_ok && p.iyuv_ok;
    let exit = if !p.video_ok { EXIT_ENVIRONMENT } else if ok { EXIT_PASS } else { EXIT_NATIVE };
    (ok, exit)
}

/// The informational input check: its verdict mirrors the texture check;
/// it lists the initialised subsystems and whether a display is connected.
pub fn input_capability(p: &SdlProbe) -> (r: (bool, Vec<&'static str>, bool))
    ensures
        r.0 == sdl_ok(*p),
        r.1@.len() == (if p.init_ok { 1int } else { 0 }) + (if p.video_ok { 1int } else { 0 }),
        p.init_ok ==> r.1@[0]@ == "events"@,
        p.video_ok ==> r.1@[r.1@.len() - 1]@ == "video"@,
        r.2 == (p.video_ok && p.num_displays > 0),
{
    let ok = p.init_ok && p.video_ok && p.window_ok && p.canvas_ok && p.iyuv_ok;
    let mut subsystems: Vec<&'static str> = Vec::new();
    if p.init_ok {
        subsystems.push("events");
    }
    if p.video_ok {
        subsystems.push("video");
    }
    (ok, subsystems, p.video_ok && p.num_displays > 0)
}

// ---------------------------------------------------------------------------
// Decode-sample check
// ---------------------------------------------------------------------------

/// Abstract state of the decode-sample check.
pub struct SampleView {
    pub ordinal: i64,
    pub submitted: u64,
    pub eagain_retries: u64,
    pub emissions: crate::ordinals::EmissionState,
    pub fatal: Option<Seq<char>>,
}

/// A drain that recovered `ords`, then found nothing (`e` is `None`) or
/// failed with `e`.
pub open spec fn drain_calls(ords: Seq<Option<i64>>, e: Option<Seq<char>>) -> Seq<BackendCall> {
    match e {
        None => crate::loop_engine::drained(ords),
        Some(m) => crate::loop_engine::drain_failed(ords, m),
    }
}

/// Rounds of "send answered `Again`, then a complete drain".
pub open spec fn sample_rounds(ord: i64, d: Seq<u8>, ds: Seq<Seq<Option<i64>>>) -> Seq<BackendCall> {
    crate::loop_engine::again_rounds(ord, d, ds)
}

/// One access unit of the check, `v` carrying its ordinal: sent until
/// accepted, draining (and counting) after each `Again`, then drained.
/// More than 64 `Again` answers, a send error, or a drain error ends the
/// check with that reason.
pub open spec fn sample_step(
    v: SampleView,
    calls: Seq<BackendCall>,
    d: Seq<u8>,
    v2: SampleView,
    calls2: Seq<BackendCall>,
) -> bool {
    exists|ds: Seq<Seq<Option<i64>>>, last: Seq<BackendCall>, ords: Seq<Option<i64>>, e: Option<Seq<char>>|
        #[trigger] sample_outcome(v, calls, d, v2, calls2, ds, last, ords, e)
}

pub open spec fn sample_outcome(
    v: SampleView,
    calls: Seq<BackendCall>,
    d: Seq<u8>,
    v2: SampleView,
    calls2: Seq<BackendCall>,
    ds: Seq<Seq<Option<i64>>>,
    last: Seq<BackendCall>,
    ords: Seq<Option<i64>>,
    e: Option<Seq<char>>,
) -> bool {
    let ord = v.ordinal;
    let pre = calls + sample_rounds(ord, d, ds);
    let base = SampleView {
        eagain_retries: crate::counter::bump_times(v.eagain_retries, ds.len()),
        emissions: crate::ordinals::emissions_after(v.emissions, ds.flatten()),
        ..v
    };
    &&& ds.len() <= MAX_EAGAIN_CYCLES
    &&& calls2 == pre + last
    &&& {
        // accepted, then the post-accept drain
        ||| (last == seq![BackendCall::SendPacket(ord, d, Ok(SendOutcome::Accepted))] + drain_calls(ords, e)
            && v2 == SampleView {
                submitted: crate::counter::bump(v.submitted),
                emissions: crate::ordinals::emissions_after(base.emissions, ords),
                fatal: e,
                ..base
            })
        // the send failed
        ||| (e is Some && ords.len() == 0 && last == seq![BackendCall::SendPacket(ord, d, Err(e.unwrap()))]
            && v2 == SampleView { fatal: e, ..base })
        // one `Again` too many
        ||| (ds.len() == MAX_EAGAIN_CYCLES && ords.len() == 0 && e is None
            && last == seq![BackendCall::SendPacket(ord, d, Ok(SendOutcome::Again))]
            && v2 == SampleView {
                eagain_retries: crate::counter::bump(base.eagain_retries),
                fatal: Some("send_packet EAGAIN did not converge"@),
                ..base
            })
        // the drain after an `Again` failed
        ||| (ds.len() < MAX_EAGAIN_CYCLES && e is Some
            && last == seq![BackendCall::SendPacket(ord, d, Ok(SendOutcome::Again))] + drain_calls(ords, e)
            && v2 == SampleView {
                eagain_retries: crate::counter::bump(base.eagain_retries),
                emissions: crate::ordinals::emissions_after(base.emissions, ords),
                fatal: e,
                ..base
            })
    }
}

/// What the decode-sample check reports.
#[derive(Debug, Clone)]
pub struct SampleReport {
    pub ok: bool,
    pub frames_submitted: u64,
    pub frames_emitted: u64,
    pub unknown_pts: u64,
    pub duplicates: u64,
    /// Out-of-order emissions, skips included.
    pub reorders: u64,
    pub eagain_retries: u64,
    /// The failure, when the check failed on a native call.
    pub detail: Option<String>,
}

/// The decode-sample check: the sample's first access units submitted with
/// their ordinals, drained after each, then end of stream and a final
/// drain.
pub struct DecodeSampleRun {
    ordinal: i64,
    submitted: u64,
    eagain_retries: u64,
    log: EmissionLog,
    fatal: Option<String>,
}

pub open spec fn opt_text(o: Option<String>) -> Option<Seq<char>> {
    match o {
        Some(s) => Some(s@),
        None => None,
    }
}

/// The error of a result, as text.
pub open spec fn err_of(r: Result<(), String>) -> Option<Seq<char>> {
    match r {
        Ok(_) => None,
        Err(m) => Some(m@),
    }
}

/// Drain, counting every frame as it comes.
fn drain_and_count<B: DecoderLoopBackend>(backend: &mut B, log: &mut EmissionLog) -> (r: Result<(), String>)
    ensures
        exists|ords: Seq<Option<i64>>| {
            &&& final(backend).calls() == old(backend).calls() + #[trigger] drain_calls(ords, err_of(r))
            &&& final(log).state() == crate::ordinals::emissions_after(old(log).state(), ords)
        },
{
    let ghost mut ords: Seq<Option<i64>> = Seq::empty();
    loop
        invariant
            backend.calls() == old(backend).calls() + crate::loop_engine::frame_receives(ords),
            log.state() == crate::ordinals::emissions_after(old(log).state(), ords),
        decreases backend.ready_frames(),
    {
        match backend.receive_frame() {
            Ok(FrameOutcome::Frame(o)) => {
                log.record(o);
                proof {
                    let n = ords.push(o);
                    assert(n.drop_last() =~= ords);
                    assert(crate::loop_engine::frame_receives(n) =~= crate::loop_engine::frame_receives(ords).push(
                        BackendCall::ReceiveFrame(Ok(FrameOutcome::Frame(o)))));
                    ords = n;
                }
            },
            Ok(FrameOutcome::Empty) => {
                assert(backend.calls() =~= old(backend).calls() + drain_calls(ords, None));
                return Ok(());
            },
            Err(e) => {
                assert(backend.calls() =~= old(backend).calls() + drain_calls(ords, Some(e@)));
                return Err(e);
            },
        }
    }
}

impl DecodeSampleRun {
    pub closed spec fn view(&self) -> SampleView {
        SampleView {
            ordinal: self.ordinal,
            submitted: self.submitted,
            eagain_retries: self.eagain_retries,
            emissions: self.log.state(),
            fatal: opt_text(self.fatal),
        }
    }

    pub fn new() -> (r: Self)
        ensures
            r.view() == (SampleView {
                ordinal: 0,
                submitted: 0,
                eagain_retries: 0,
                emissions: crate::ordinals::initial_emission_state(),
                fatal: None,
            }),
    {
        DecodeSampleRun { ordinal: 0, submitted: 0, eagain_retries: 0, log: EmissionLog::new(), fatal: None }
    }

    /// Whether the check takes another access unit: nothing failed and
    /// fewer than 60 were submitted.
    pub fn wants_more(&self) -> (r: bool)
        ensures
            r == (self.view().fatal is None && self.view().submitted < SAMPLE_AU_LIMIT),
    {
        self.fatal.is_none() && self.submitted < SAMPLE_AU_LIMIT
    }

    /// Submit the next access unit and drain it.
    pub fn on_packet<B: DecoderLoopBackend>(&mut self, backend: &mut B, data: &[u8])
        requires
            old(self).view().fatal is None,
        ensures
            sample_step(SampleView { ordinal: crate::counter::succ_i64(old(self).view().ordinal), ..old(self).view() },
                old(backend).calls(), data@, final(self).view(), final(backend).calls()),
    {
        self.ordinal = crate::counter::next_i64(self.ordinal);
        let ord = self.ordinal;
        let ghost v = self.view();
        assert(v == SampleView { ordinal: crate::counter::succ_i64(old(self).view().ordinal), ..old(self).view() });
        let ghost c0 = backend.calls();
        assert(c0 == old(backend).calls());
        let ghost mut ds: Seq<Seq<Option<i64>>> = Seq::empty();
        let mut cycles: u32 = 0;
        loop
            invariant_except_break
                backend.calls() == c0 + sample_rounds(ord, data@, ds),
            invariant
                cycles == ds.len(),
                cycles <= MAX_EAGAIN_CYCLES,
                self.view() == (SampleView {
                    eagain_retries: crate::counter::bump_times(v.eagain_retries, ds.len()),
                    emissions: crate::ordinals::emissions_after(v.emissions, ds.flatten()),
                    ..v
                }),
                ord == v.ordinal,
                v == (SampleView { ordinal: crate::counter::succ_i64(old(self).view().ordinal), ..old(self).view() }),
                c0 == old(backend).calls(),
            ensures
                backend.calls() == (c0 + sample_rounds(ord, data@, ds)).push(
                    BackendCall::SendPacket(ord, data@, Ok(SendOutcome::Accepted))),
            decreases MAX_EAGAIN_CYCLES - cycles,
        {
            let ghost pre = backend.calls();
            let ghost base = self.view();
            match backend.send_packet(ord, data) {
                Ok(SendOutcome::Accepted) => {
                    break;
                },
                Ok(SendOutcome::Again) => {
                    self.eagain_retries = inc(self.eagain_retries);
                    if cycles >= MAX_EAGAIN_CYCLES {
                        self.fatal = Some(String::from_str("send_packet EAGAIN did not converge"));
                        assert(backend.calls() =~= c0 + sample_rounds(ord, data@, ds)
                            + seq![BackendCall::SendPacket(ord, data@, Ok(SendOutcome::Again))]);
                        assert(sample_outcome(v, c0, data@, self.view(), backend.calls(), ds,
                            seq![BackendCall::SendPacket(ord, data@, Ok(SendOutcome::Again))], Seq::empty(), None));
                        assert(sample_step(v, c0, data@, self.view(), backend.calls()));
                        return;
                    }
                    cycles = cycles + 1;
                    let ghost before_log = self.log.state();
                    let ghost mid = backend.calls();
                    let r = drain_and_count(backend, &mut self.log);
                    let ghost ords = choose|ords: Seq<Option<i64>>| {
                        &&& backend.calls() == mid + #[trigger] drain_calls(ords, err_of(r))
                        &&& self.log.state() == crate::ordinals::emissions_after(before_log, ords)
                    };
                    match r {
                        Ok(()) => {
                            proof {
                                let nds = ds.push(ords);
                                assert(nds.drop_last() =~= ds);
                                ds.lemma_flatten_push(ords);
                                crate::harness::lemma_emissions_concat(v.emissions, ds.flatten(), ords);
                                assert(backend.calls() =~= c0 + sample_rounds(ord, data@, nds));
                                ds = nds;
                            }
                        },
                        Err(e) => {
                            self.fatal = Some(e);
                            proof {
                                crate::harness::lemma_emissions_concat(v.emissions, ds.flatten(), ords);
                                let last = seq![BackendCall::SendPacket(ord, data@, Ok(SendOutcome::Again))]
                                    + drain_calls(ords, Some(e@));
                                assert(backend.calls() =~= c0 + sample_rounds(ord, data@, ds) + last);
                                assert(sample_outcome(v, c0, data@, self.view(), backend.calls(), ds, last, ords, Some(e@)));
                                assert(sample_step(v, c0, data@, self.view(), backend.calls()));
                            }
                            return;
                        },
                    }
                },
                Err(e) => {
                    self.fatal = Some(e);
                    proof {
                        let last = seq![BackendCall::SendPacket(ord, data@, Err(e@))];
                        assert(backend.calls() =~= c0 + sample_rounds(ord, data@, ds) + last);
                        assert(sample_outcome(v, c0, data@, self.view(), backend.calls(), ds, last, Seq::empty(), Some(e@)));
                        assert(sample_step(v, c0, data@, self.view(), backend.calls()));
                    }
                    return;
                },
            }
        }
        self.submitted = inc(self.submitted);
        let ghost before_log = self.log.state();
        let ghost mid = backend.calls();
        let r = drain_and_count(backend, &mut self.log);
        let ghost ords = choose|ords: Seq<Option<i64>>| {
            &&& backend.calls() == mid + #[trigger] drain_calls(ords, err_of(r))
            &&& self.log.state() == crate::ordinals::emissions_after(before_log, ords)
        };
        let ghost e = err_of(r);
        if let Err(m) = r {
            self.fatal = Some(m);
        }
        proof {
            let last = seq![BackendCall::SendPacket(ord, data@, Ok(SendOutcome::Accepted))] + drain_calls(ords, e);
            assert(backend.calls() =~= c0 + sample_rounds(ord, data@, ds) + last);
            assert(sample_outcome(v, c0, data@, self.view(), backend.calls(), ds, last, ords, e));
            assert(sample_step(v, c0, data@, self.view(), backend.calls()));
        }
    }

    /// End of stream: signal it, draining (and counting) after each
    /// `Again`, then drain what remains; and judge the check. It passes when
    /// nothing failed, every frame carried a known ordinal exactly once and
    /// in order, and at least one frame was submitted and emitted.
    pub fn finish<B: DecoderLoopBackend>(&mut self, backend: &mut B) -> (r: SampleReport)
        ensures
            sample_finish(old(self).view(), old(backend).calls(), final(self).view(), final(backend).calls()),
            sample_report_matches(r, final(self).view()),
    {
        if self.fatal.is_none() {
            let ghost v = self.view();
            let ghost c0 = backend.calls();
            let ghost mut ds: Seq<Seq<Option<i64>>> = Seq::empty();
            let mut cycles: u64 = 0;
            let mut done = false;
            while !done
                invariant
                    v.fatal is None,
                    c0 == old(backend).calls(),
                    v == old(self).view(),
                    !done ==> cycles == ds.len(),
                    !done ==> backend.calls() == c0 + crate::loop_engine::eof_again_rounds(ds),
                    !done ==> self.view() == eof_base(v, ds),
                    done ==> sample_finish(v, c0, self.view(), backend.calls()),
                decreases u64::MAX - cycles, if done { 0int } else { 1int },
            {
                match backend.send_eof() {
                    Ok(SendOutcome::Accepted) => {
                        let ghost mid = backend.calls();
                        let ghost before_log = self.log.state();
                        let r = drain_and_count(backend, &mut self.log);
                        let ghost ords = choose|ords: Seq<Option<i64>>| {
                            &&& backend.calls() == mid + #[trigger] drain_calls(ords, err_of(r))
                            &&& self.log.state() == crate::ordinals::emissions_after(before_log, ords)
                        };
                        let ghost e = err_of(r);
                        if let Err(m) = r {
                            self.fatal = Some(m);
                        }
                        proof {
                            let last = seq![BackendCall::SendEof(Ok(SendOutcome::Accepted))] + drain_calls(ords, e);
                            assert(backend.calls() =~= c0 + crate::loop_engine::eof_again_rounds(ds) + last);
                            assert(eof_outcome(v, c0, self.view(), backend.calls(), ds, last, ords, e));
                        }
                        done = true;
                    },
                    Ok(SendOutcome::Again) => {
                        self.eagain_retries = inc(self.eagain_retries);
                        if cycles == u64::MAX {
                            self.fatal = Some(String::from_str("send_eof EAGAIN did not converge"));
                            proof {
                                let last = seq![BackendCall::SendEof(Ok(SendOutcome::Again))];
                                assert(backend.calls() =~= c0 + crate::loop_engine::eof_again_rounds(ds) + last);
                                assert(eof_outcome(v, c0, self.view(), backend.calls(), ds, last, Seq::empty(), None));
                            }
                            done = true;
                        } else {
                            cycles = cycles + 1;
                            let ghost mid = backend.calls();
                            let ghost before_log = self.log.state();
                            let r = drain_and_count(backend, &mut self.log);
                            let ghost ords = choose|ords: Seq<Option<i64>>| {
                                &&& backend.calls() == mid + #[trigger] drain_calls(ords, err_of(r))
                                &&& self.log.state() == crate::ordinals::emissions_after(before_log, ords)
                            };
                            match r {
                                Ok(()) => {
                                    proof {
                                        let nds = ds.push(ords);
                                        assert(nds.drop_last() =~= ds);
                                        ds.lemma_flatten_push(ords);
                                        crate::harness::lemma_emissions_concat(v.emissions, ds.flatten(), ords);
                                        assert(backend.calls() =~= c0 + crate::loop_engine::eof_again_rounds(nds));
                                        ds = nds;
                                    }
                                },
                                Err(e) => {
                                    self.fatal = Some(e);
                                    proof {
                                        let last = seq![BackendCall::SendEof(Ok(SendOutcome::Again))]
                                            + drain_calls(ords, Some(e@));
                                        assert(backend.calls() =~= c0 + crate::loop_engine::eof_again_rounds(ds) + last);
                                        assert(eof_outcome(v, c0, self.view(), backend.calls(), ds, last, ords, Some(e@)));
                                    }
                                    done = true;
                                },
                            }
                        }
                    },
                    Err(e) => {
                        self.fatal = Some(e);
                        proof {
                            let last = seq![BackendCall::SendEof(Err(e@))];
                            assert(backend.calls() =~= c0 + crate::loop_engine::eof_again_rounds(ds) + last);
                            assert(eof_outcome(v, c0, self.view(), backend.calls(), ds, last, Seq::empty(), Some(e@)));
                        }
                        done = true;
                    },
                }
            }
        }
        let c = self.log.counts();
        let reorders = crate::experiment::add_wrapping_pub(c.reorders, c.skips);
        let ok = self.fatal.is_none() && c.unknown_pts == 0 && c.duplicates == 0 && reorders == 0 && self.submitted > 0
            && c.emitted > 0;
        let detail = match &self.fatal {
            Some(f) => Some(f.clone()),
            None => None,
        };
        SampleReport {
            ok,
            frames_submitted: self.submitted,
            frames_emitted: c.emitted,
            unknown_pts: c.unknown_pts,
            duplicates: c.duplicates,
            reorders,
            eagain_retries: self.eagain_retries,
            detail,
        }
    }
}

/// The check after end-of-stream `Again` rounds `ds`.
pub open spec fn eof_base(v: SampleView, ds: Seq<Seq<Option<i64>>>) -> SampleView {
    SampleView {
        eagain_retries: crate::counter::bump_times(v.eagain_retries, ds.len()),
        emissions: crate::ordinals::emissions_after(v.emissions, ds.flatten()),
        ..v
    }
}

/// How the end of stream of a check that had not failed went.
pub open spec fn eof_outcome(
    v: SampleView,
    calls: Seq<BackendCall>,
    v2: SampleView,
    calls2: Seq<BackendCall>,
    ds: Seq<Seq<Option<i64>>>,
    last: Seq<BackendCall>,
    ords: Seq<Option<i64>>,
    e: Option<Seq<char>>,
) -> bool {
    let base = eof_base(v, ds);
    &&& calls2 == calls + crate::loop_engine::eof_again_rounds(ds) + last
    &&& {
        ||| (last == seq![BackendCall::SendEof(Ok(SendOutcome::Accepted))] + drain_calls(ords, e)
            && v2 == SampleView { emissions: crate::ordinals::emissions_after(base.emissions, ords), fatal: e, ..base })
        ||| (e is Some && ords.len() == 0 && last == seq![BackendCall::SendEof(Err(e.unwrap()))]
            && v2 == SampleView { fatal: e, ..base })
        ||| (e is Some && last == seq![BackendCall::SendEof(Ok(SendOutcome::Again))] + drain_calls(ords, e)
            && v2 == SampleView {
                eagain_retries: crate::counter::bump(base.eagain_retries),
                emissions: crate::ordinals::emissions_after(base.emissions, ords),
                fatal: e,
                ..base
            })
        ||| (ds.len() == u64::MAX && ords.len() == 0 && e is None
            && last == seq![BackendCall::SendEof(Ok(SendOutcome::Again))]
            && v2 == SampleView {
                eagain_retries: crate::counter::bump(base.eagain_retries),
                fatal: Some("send_eof EAGAIN did not converge"@),
                ..base
            })
    }
}

/// The end-of-stream step: nothing after a failure.
pub open spec fn sample_finish(v: SampleView, calls: Seq<BackendCall>, v2: SampleView, calls2: Seq<BackendCall>) -> bool {
    if v.fatal is Some {
        v2 == v && calls2 == calls
    } else {
        exists|ds: Seq<Seq<Option<i64>>>, last: Seq<BackendCall>, ords: Seq<Option<i64>>, e: Option<Seq<char>>|
            #[trigger] eof_outcome(v, calls, v2, calls2, ds, last, ords, e)
    }
}

/// The report of a finished check in state `v`.
pub open spec fn sample_report_matches(r: SampleReport, v: SampleView) -> bool {
    let k = v.emissions.counts;
    &&& r.frames_submitted == v.submitted
    &&& r.frames_emitted == k.emitted
    &&& r.unknown_pts == k.unknown_pts
    &&& r.duplicates == k.duplicates
    &&& r.reorders == crate::experiment::wrapping_sum(k.reorders, k.skips)
    &&& r.eagain_retries == v.eagain_retries
    &&& opt_text(r.detail) == v.fatal
    &&& r.ok == (v.fatal is None && k.unknown_pts == 0 && k.duplicates == 0
        && crate::experiment::wrapping_sum(k.reorders, k.skips) == 0 && v.submitted > 0 && k.emitted > 0)
}

/// The view of a fresh check.
pub open spec fn fresh_sample() -> SampleView {
    SampleView {
        ordinal: 0,
        submitted: 0,
        eagain_retries: 0,
        emissions: crate::ordinals::initial_emission_state(),
        fatal: None,
    }
}

/// The sample's access units as plain bytes.
pub open spec fn aus_bytes(ps: Seq<Vec<u8>>) -> Seq<Seq<u8>> {
    Seq::new(ps.len(), |k: int| ps[k]@)
}

/// The check takes another access unit: nothing failed and fewer than
/// `SAMPLE_AU_LIMIT` were submitted.
pub open spec fn sample_wants(v: SampleView) -> bool {
    v.fatal is None && v.submitted < SAMPLE_AU_LIMIT
}

/// Step `k` of a recorded check: it wanted more, and access unit `ps[k]`,
/// under the next ordinal, took it from `vs[k]`, `cs[k]` to `vs[k + 1]`,
/// `cs[k + 1]`.
pub open spec fn sample_step_at(
    ps: Seq<Seq<u8>>,
    vs: Seq<SampleView>,
    cs: Seq<Seq<BackendCall>>,
    k: int,
) -> bool {
    &&& sample_wants(vs[k])
    &&& sample_step(SampleView { ordinal: crate::counter::succ_i64(vs[k].ordinal), ..vs[k] }, cs[k], ps[k],
        vs[k + 1], cs[k + 1])
}

/// A whole check over `ps` from `v0`, `calls0`: the states and backend
/// logs after each access unit taken, in order, stopping once the check no
/// longer wants more or the sample ends; then end of stream, to `vf`, `cf`.
pub open spec fn sample_run(
    ps: Seq<Seq<u8>>,
    v0: SampleView,
    calls0: Seq<BackendCall>,
    vs: Seq<SampleView>,
    cs: Seq<Seq<BackendCall>>,
    vf: SampleView,
    cf: Seq<BackendCall>,
) -> bool {
    let n = vs.len() - 1;
    &&& vs.len() == cs.len()
    &&& 1 <= vs.len() <= ps.len() + 1
    &&& vs[0] == v0
    &&& cs[0] == calls0
    &&& forall|k: int| 0 <= k < n ==> #[trigger] sample_step_at(ps, vs, cs, k)
    &&& (n == ps.len() || !sample_wants(vs[n]))
    &&& sample_finish(vs[n], cs[n], vf, cf)
}

/// A step takes the submission count up by at most one.
proof fn lemma_sample_step_submitted(v: SampleView, calls: Seq<BackendCall>, d: Seq<u8>, v2: SampleView,
    calls2: Seq<BackendCall>)
    requires
        sample_step(v, calls, d, v2, calls2),
    ensures
        v2.submitted == v.submitted || v2.submitted == crate::counter::bump(v.submitted),
{
    let (ds, last, ords, e) = choose|ds: Seq<Seq<Option<i64>>>, last: Seq<BackendCall>, ords: Seq<Option<i64>>,
        e: Option<Seq<char>>| #[trigger] sample_outcome(v, calls, d, v2, calls2, ds, last, ords, e);
}

impl DecodeSampleRun {
    /// Run a fresh check over the sample's access units `packets`: while it
    /// wants more (see [`DecodeSampleRun::wants_more`]) submit the next one,
    /// then signal end of stream and judge. At most `SAMPLE_AU_LIMIT` are
    /// submitted, with the ordinals `1, 2, ...`.
    pub fn run_all<B: DecoderLoopBackend>(&mut self, backend: &mut B, packets: &Vec<Vec<u8>>) -> (r: SampleReport)
        requires
            old(self).view() == fresh_sample(),
        ensures
            exists|vs: Seq<SampleView>, cs: Seq<Seq<BackendCall>>|
                #[trigger] sample_run(aus_bytes(packets@), fresh_sample(), old(backend).calls(), vs, cs,
                    final(self).view(), final(backend).calls()),
            sample_report_matches(r, final(self).view()),
            final(self).view().submitted <= SAMPLE_AU_LIMIT,
    {
        let ghost base = backend.calls();
        let ghost ps = aus_bytes(packets@);
        let ghost mut vs: Seq<SampleView> = seq![self.view()];
        let ghost mut cs: Seq<Seq<BackendCall>> = seq![base];
        let mut i: usize = 0;
        while i < packets.len()
            invariant_except_break
                vs.len() == i + 1,
            invariant
                i <= packets@.len(),
                ps == aus_bytes(packets@),
                vs.len() == cs.len(),
                1 <= vs.len() <= packets@.len() + 1,
                vs[0] == fresh_sample(),
                cs[0] == base,
                vs.last() == self.view(),
                cs.last() == backend.calls(),
                self.view().submitted <= SAMPLE_AU_LIMIT,
                forall|k: int| 0 <= k < vs.len() - 1 ==> #[trigger] sample_step_at(ps, vs, cs, k),
            ensures
                vs.len() == cs.len(),
                1 <= vs.len() <= packets@.len() + 1,
                vs[0] == fresh_sample(),
                cs[0] == base,
                vs.last() == self.view(),
                cs.last() == backend.calls(),
                self.view().submitted <= SAMPLE_AU_LIMIT,
                forall|k: int| 0 <= k < vs.len() - 1 ==> #[trigger] sample_step_at(ps, vs, cs, k),
                vs.len() - 1 == packets@.len() || !sample_wants(self.view()),
            decreases packets@.len() - i,
        {
            if !self.wants_more() {
                break;
            }
            let ghost v0 = self.view();
            let ghost c0 = backend.calls();
            self.on_packet(backend, packets[i].as_slice());
            proof {
                lemma_sample_step_submitted(SampleView { ordinal: crate::counter::succ_i64(v0.ordinal), ..v0 }, c0,
                    packets@[i as int]@, self.view(), backend.calls());
                let ghost vs0 = vs;
                let ghost cs0 = cs;
                vs = vs.push(self.view());
                cs = cs.push(backend.calls());
                assert(ps[i as int] == packets@[i as int]@);
                assert(sample_step_at(ps, vs, cs, i as int));
                assert forall|k: int| 0 <= k < i + 1 implies #[trigger] sample_step_at(ps, vs, cs, k) by {
                    if k < i {
                        assert(sample_step_at(ps, vs0, cs0, k));
                        assert(vs[k] == vs0[k] && vs[k + 1] == vs0[k + 1] && cs[k] == cs0[k] && cs[k + 1] == cs0[k + 1]);
                    }
                }
            }
            i += 1;
        }
        let r = self.finish(backend);
        proof {
            assert(sample_run(ps, fresh_sample(), base, vs, cs, self.view(), backend.calls()));
        }
        r
    }
}

} // verus!

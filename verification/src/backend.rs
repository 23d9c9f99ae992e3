//! The two closed decoder-backend configurations, the validation of a
//! requested backend id, and the plain-value parts of the decode path:
//! ordinal recovery from a decoded frame and the classification of a
//! receive outcome for the loop engine.
use vstd::prelude::*;
use vstd::string::StringExecFns;
use crate::loop_engine::FrameOutcome;
use crate::text::str_eq;

verus! {

/// One of the two closed decoder backend configurations; there is no third
/// option and no fallback between them.
#[derive(Debug, Clone, Copy, PartialEq, Eq, Structural)]
pub enum Backend {
    CuvidLowDelay,
    Sw1LowDelay,
}

/// The id of each backend.
pub open spec fn backend_id(b: Backend) -> Seq<char> {
    match b {
        Backend::CuvidLowDelay => "cuvid-lowdelay"@,
        Backend::Sw1LowDelay => "sw1-lowdelay"@,
    }
}

/// The error text for an unknown `--backend` value.
pub open spec fn unknown_backend_flag_message(other: Seq<char>) -> Seq<char> {
    "unknown --backend '"@ + other + "'; must be cuvid-lowdelay or sw1-lowdelay (the two closed backend IDs)"@
}

impl Backend {
    /// Parse a `--backend` value.
    pub fn parse(s: &str) -> (r: Result<Backend, String>)
        ensures
            s@ == "cuvid-lowdelay"@ ==> r == Ok::<Backend, String>(Backend::CuvidLowDelay),
            s@ == "sw1-lowdelay"@ ==> r == Ok::<Backend, String>(Backend::Sw1LowDelay),
            s@ != "cuvid-lowdelay"@ && s@ != "sw1-lowdelay"@ ==>
                (r matches Err(e) && e@ == unknown_backend_flag_message(s@)),
    {
        proof {
            reveal_strlit("cuvid-lowdelay");
            reveal_strlit("sw1-lowdelay");
            assert("cuvid-lowdelay"@.len() != "sw1-lowdelay"@.len());
        }
        if str_eq(s, "cuvid-lowdelay") {
            Ok(Backend::CuvidLowDelay)
        } else if str_eq(s, "sw1-lowdelay") {
            Ok(Backend::Sw1LowDelay)
        } else {
            let mut e = String::from_str("unknown --backend '");
            e.append(s);
            e.append("'; must be cuvid-lowdelay or sw1-lowdelay (the two closed backend IDs)");
            Err(e)
        }
    }

    /// The backend's configuration id.
    pub fn id(&self) -> (r: &'static str)
        ensures
            r@ == backend_id(*self),
    {
        match self {
            Backend::CuvidLowDelay => "cuvid-lowdelay",
            Backend::Sw1LowDelay => "sw1-lowdelay",
        }
    }
}

/// A failure to open a decoder: the native call that failed (or
/// `decoder_backend` for a rejected id) and the failure text.
#[derive(Debug, Clone)]
pub struct BackendOpenError {
    pub failing_call: String,
    pub detail: String,
}

impl BackendOpenError {
    /// `"<failing_call> failed: <detail>"`.
    pub fn message(&self) -> (m: String)
        ensures
            m@ == self.failing_call@ + " failed: "@ + self.detail@,
    {
        let mut m = self.failing_call.clone();
        m.append(" failed: ");
        m.append(self.detail.as_str());
        m
    }
}

/// Text of the rejection of the canonical-profile placeholder id.
pub open spec fn placeholder_detail() -> Seq<char> {
    "\"TBD-A00\" is the canonical-profile placeholder; it is accepted only by the placeholder canonicalization fixture and A0.0 measurement tooling. A normal handshake or final-profile doctor rejects it; the decoder doctor takes one explicit candidate from the two closed IDs (cuvid-lowdelay, sw1-lowdelay) and logs it."@
}

/// Text of the rejection of any other unknown id.
pub open spec fn unknown_backend_detail(other: Seq<char>) -> Seq<char> {
    "unknown decoder_backend '"@ + other
        + "'; must be cuvid-lowdelay or sw1-lowdelay (the two closed IDs), with no fallback between them or to any third option"@
}

/// The configuration a `decoder_backend` id selects: exactly one of the two
/// closed ids, anything else (the placeholder included) rejected under the
/// call name `decoder_backend`.
pub fn select_backend(backend_id: &str) -> (r: Result<Backend, BackendOpenError>)
    ensures
        backend_id@ == "cuvid-lowdelay"@ ==> r matches Ok(Backend::CuvidLowDelay),
        backend_id@ == "sw1-lowdelay"@ ==> r matches Ok(Backend::Sw1LowDelay),
        backend_id@ == "TBD-A00"@ ==> (r matches Err(e)
            && e.failing_call@ == "decoder_backend"@ && e.detail@ == placeholder_detail()),
        backend_id@ != "cuvid-lowdelay"@ && backend_id@ != "sw1-lowdelay"@ && backend_id@ != "TBD-A00"@
            ==> (r matches Err(e) && e.failing_call@ == "decoder_backend"@
                && e.detail@ == unknown_backend_detail(backend_id@)),
{
    proof {
        reveal_strlit("cuvid-lowdelay");
        reveal_strlit("sw1-lowdelay");
        reveal_strlit("TBD-A00");
        assert("cuvid-lowdelay"@.len() != "sw1-lowdelay"@.len());
        assert("cuvid-lowdelay"@.len() != "TBD-A00"@.len());
        assert("TBD-A00"@.len() != "sw1-lowdelay"@.len());
    }
    if str_eq(backend_id, "cuvid-lowdelay") {
        Ok(Backend::CuvidLowDelay)
    } else if str_eq(backend_id, "sw1-lowdelay") {
        Ok(Backend::Sw1LowDelay)
    } else if str_eq(backend_id, "TBD-A00") {
        Err(BackendOpenError {
            failing_call: String::from_str("decoder_backend"),
            detail: String::from_str("\"TBD-A00\" is the canonical-profile placeholder; it is accepted only by the placeholder canonicalization fixture and A0.0 measurement tooling. A normal handshake or final-profile doctor rejects it; the decoder doctor takes one explicit candidate from the two closed IDs (cuvid-lowdelay, sw1-lowdelay) and logs it."),
        })
    } else {
        let mut detail = String::from_str("unknown decoder_backend '");
        detail.append(backend_id);
        detail.append("'; must be cuvid-lowdelay or sw1-lowdelay (the two closed IDs), with no fallback between them or to any third option");
        Err(BackendOpenError { failing_call: String::from_str("decoder_backend"), detail })
    }
}

/// The failing call and detail to report for a failed decoder open: those
/// of the structured error when there is one, else `open_decoder` and the
/// error's text.
pub fn classify_open_error(structured: Option<&BackendOpenError>, text: &str) -> (r: (String, String))
    ensures
        match structured {
            Some(be) => r.0@ == be.failing_call@ && r.1@ == be.detail@,
            None => r.0@ == "open_decoder"@ && r.1@ == text@,
        },
{
    match structured {
        Some(be) => (be.failing_call.clone(), be.detail.clone()),
        None => (String::from_str("open_decoder"), String::from_str(text)),
    }
}

/// Outcome of one classified `receive_frame` call.
#[derive(Debug, Clone, Copy, PartialEq, Eq, Structural)]
pub enum ReceiveOutcome {
    /// A frame was written into the caller's frame buffer.
    Frame,
    /// The decoder needs more input before it can emit again.
    Again,
    /// Clean end of stream.
    Eof,
}

/// The ordinal a decoded frame carries: its presentation timestamp, else
/// its best-effort timestamp.
pub fn recovered_ordinal(pts: Option<i64>, best_effort_timestamp: Option<i64>) -> (r: Option<i64>)
    ensures
        r == if pts is Some { pts } else { best_effort_timestamp },
{
    match pts {
        Some(p) => Some(p),
        None => best_effort_timestamp,
    }
}

/// A receive outcome as the loop engine sees it: a frame with its ordinal,
/// or nothing ready (end of stream included).
pub fn frame_outcome(r: ReceiveOutcome, ordinal: Option<i64>) -> (f: FrameOutcome)
    ensures
        f == match r {
            ReceiveOutcome::Frame => FrameOutcome::Frame(ordinal),
            _ => FrameOutcome::Empty,
        },
{
    match r {
        ReceiveOutcome::Frame => FrameOutcome::Frame(ordinal),
        _ => FrameOutcome::Empty,
    }
}

} // verus!

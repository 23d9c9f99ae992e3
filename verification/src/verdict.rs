//! The pass verdict of a harness run: one boolean over every term the run
//! is judged by, so that flipping any single term flips the verdict.
use vstd::prelude::*;

verus! {

/// Every input term the pass predicate reads.
#[derive(Debug, Clone, Copy, PartialEq, Eq, Default)]
pub struct VerdictInputs {
    pub frames_accepted: u64,
    pub frames_acked: u64,
    pub frames_emitted: u64,
    pub frames_submitted: u64,
    pub unknown_pts: u64,
    pub duplicates: u64,
    pub reorders: u64,
    pub skips: u64,
    pub ack_order_violations: u64,
    pub protocol_errors: u64,
    pub fatal_decoder_errors: u64,
    pub clean_eof_tail_drain: bool,
    pub outstanding_at_exit: u64,
}

/// A run passes when accepted equals acked, emitted equals submitted and is
/// nonzero, every error and anomaly count is zero, and the end-of-stream
/// tail drained cleanly.
pub open spec fn passes(v: VerdictInputs) -> bool {
    &&& v.frames_accepted == v.frames_acked
    &&& v.frames_emitted == v.frames_submitted
    &&& v.unknown_pts == 0
    &&& v.frames_emitted > 0
    &&& v.duplicates == 0
    &&& v.reorders == 0
    &&& v.skips == 0
    &&& v.ack_order_violations == 0
    &&& v.protocol_errors == 0
    &&& v.fatal_decoder_errors == 0
    &&& v.clean_eof_tail_drain
    &&& v.outstanding_at_exit == 0
}

impl VerdictInputs {
    /// The pass predicate. A run that emitted no frame fails even when
    /// every other term is clean.
    pub fn evaluate(&self) -> (r: bool)
        ensures
            r == passes(*self),
            self.frames_emitted == 0 ==> !r,
    {
        self.frames_accepted == self.frames_acked
            && self.frames_emitted == self.frames_submitted
            && self.unknown_pts == 0
            && self.frames_emitted > 0
            && self.duplicates == 0
            && self.reorders == 0
            && self.skips == 0
            && self.ack_order_violations == 0
            && self.protocol_errors == 0
            && self.fatal_decoder_errors == 0
            && self.clean_eof_tail_drain
            && self.outstanding_at_exit == 0
    }
}

/// Every term matters: from a passing run, changing any one term away from
/// its passing value (a count off zero, the drain unclean, acked or
/// submitted away from accepted or emitted) makes the run fail.
pub proof fn lemma_each_term_flips_verdict(v: VerdictInputs, n: u64, m: u64)
    requires
        passes(v),
        n != 0,
    ensures
        !passes(VerdictInputs { unknown_pts: n, ..v }),
        !passes(VerdictInputs { duplicates: n, ..v }),
        !passes(VerdictInputs { reorders: n, ..v }),
        !passes(VerdictInputs { skips: n, ..v }),
        !passes(VerdictInputs { ack_order_violations: n, ..v }),
        !passes(VerdictInputs { protocol_errors: n, ..v }),
        !passes(VerdictInputs { fatal_decoder_errors: n, ..v }),
        !passes(VerdictInputs { outstanding_at_exit: n, ..v }),
        !passes(VerdictInputs { clean_eof_tail_drain: false, ..v }),
        m != v.frames_accepted ==> !passes(VerdictInputs { frames_acked: m, ..v }),
        m != v.frames_emitted ==> !passes(VerdictInputs { frames_submitted: m, ..v }),
        !passes(VerdictInputs { frames_accepted: 0, frames_acked: 0, frames_emitted: 0, frames_submitted: 0, ..v }),
{
}

} // verus!

//! The decode-side receipt ledger: each admitted frame's receive time is
//! remembered under its wire frame id until the decoded frame that carries
//! that id comes out, so every emission is paired with its own receipt.
//! A duplicate id, a full ledger, an unrecovered id or an id with no
//! receipt is an identity failure, never a silent overwrite or eviction.
use vstd::prelude::*;
use std::collections::HashMap;
use crate::counter::inc;

verus! {

broadcast use vstd::std_specs::hash::group_hash_axioms;

/// Receipts held at most.
pub const IDENTITY_LEDGER_CAP: usize = 1024;

/// What submitting a receipt did.
#[derive(Debug, Clone, Copy, PartialEq, Eq, Structural)]
pub enum SubmitOutcome {
    Recorded,
    /// The id already had a pending receipt.
    DuplicateSubmit,
    /// The ledger already held its maximum.
    CapOverflow,
}

/// What resolving an emission did.
#[derive(Debug, Clone, Copy, PartialEq, Eq)]
pub enum ResolveOutcome {
    /// The emission's receipt, now removed.
    Resolved(u64),
    /// The emission carried no id.
    UnrecoveredPts,
    /// No receipt is pending for the emission's id.
    MissingLedgerEntry,
}

/// Pending receipts and the count of identity failures.
pub struct IdentityLedger {
    entries: HashMap<u64, u64>,
    identity_failures: u64,
}

impl IdentityLedger {
    /// Pending receipts by frame id.
    pub closed spec fn receipts(&self) -> Map<u64, u64> {
        self.entries@
    }

    /// Identity failures counted so far.
    pub closed spec fn failures(&self) -> u64 {
        self.identity_failures
    }

    /// Identity failures counted so far.
    pub fn identity_failures(&self) -> (n: u64)
        ensures
            n == self.failures(),
    {
        self.identity_failures
    }

    /// Receipts still pending.
    pub fn pending(&self) -> (n: usize)
        requires
            self.wf(),
        ensures
            n == self.receipts().len(),
    {
        self.entries.len()
    }

    pub closed spec fn wf(&self) -> bool {
        self.entries@.len() <= IDENTITY_LEDGER_CAP
    }

    pub fn new() -> (l: Self)
        ensures
            l.wf(),
            l.receipts() == Map::<u64, u64>::empty(),
            l.failures() == 0,
    {
        IdentityLedger { entries: HashMap::new(), identity_failures: 0 }
    }

    /// Remember frame `frame_id`'s receive time.
    pub fn submit(&mut self, frame_id: u32, recv_ts_us: u64) -> (r: SubmitOutcome)
        requires
            old(self).wf(),
        ensures
            final(self).wf(),
            old(self).receipts().contains_key(frame_id as u64) ==> (r == SubmitOutcome::DuplicateSubmit
                && final(self).receipts() == old(self).receipts()),
            !old(self).receipts().contains_key(frame_id as u64) && old(self).receipts().len() >= IDENTITY_LEDGER_CAP
                ==> (r == SubmitOutcome::CapOverflow && final(self).receipts() == old(self).receipts()),
            !old(self).receipts().contains_key(frame_id as u64) && old(self).receipts().len() < IDENTITY_LEDGER_CAP
                ==> (r == SubmitOutcome::Recorded
                && final(self).receipts() == old(self).receipts().insert(frame_id as u64, recv_ts_us)),
            final(self).failures() == if r == SubmitOutcome::Recorded {
                old(self).failures()
            } else {
                crate::counter::bump(old(self).failures())
            },
    {
        let key = frame_id as u64;
        if self.entries.contains_key(&key) {
            self.identity_failures = inc(self.identity_failures);
            SubmitOutcome::DuplicateSubmit
        } else if self.entries.len() >= IDENTITY_LEDGER_CAP {
            self.identity_failures = inc(self.identity_failures);
            SubmitOutcome::CapOverflow
        } else {
            self.entries.insert(key, recv_ts_us);
            proof {
                assert(!old(self).receipts().contains_key(key));
                assert(self.entries@.len() == old(self).entries@.len() + 1);
            }
            SubmitOutcome::Recorded
        }
    }

    /// Pair an emitted frame with its receipt, by the frame's own recovered
    /// id, and forget the receipt.
    pub fn resolve(&mut self, recovered_frame_id: Option<u64>) -> (r: ResolveOutcome)
        requires
            old(self).wf(),
        ensures
            final(self).wf(),
            match recovered_frame_id {
                None => r == ResolveOutcome::UnrecoveredPts && final(self).receipts() == old(self).receipts(),
                Some(id) => if old(self).receipts().contains_key(id) {
                    r == ResolveOutcome::Resolved(old(self).receipts()[id])
                        && final(self).receipts() == old(self).receipts().remove(id)
                } else {
                    r == ResolveOutcome::MissingLedgerEntry && final(self).receipts() == old(self).receipts()
                },
            },
            final(self).failures() == if r is Resolved {
                old(self).failures()
            } else {
                crate::counter::bump(old(self).failures())
            },
    {
        match recovered_frame_id {
            None => {
                self.identity_failures = inc(self.identity_failures);
                ResolveOutcome::UnrecoveredPts
            },
            Some(rid) => match self.entries.remove(&rid) {
                Some(ts) => {
                    proof {
                        assert(old(self).entries@.contains_key(rid));
                        assert(self.entries@ =~= old(self).entries@.remove(rid));
                        assert(self.entries@.len() < old(self).entries@.len() + 1);
                    }
                    ResolveOutcome::Resolved(ts)
                },
                None => {
                    assert(self.entries@ =~= old(self).entries@);
                    self.identity_failures = inc(self.identity_failures);
                    ResolveOutcome::MissingLedgerEntry
                },
            },
        }
    }
}

/// A receipt submitted into a ledger that lacks it and has room is what
/// resolving that frame id gives back, after which the id is pending no
/// more.
pub proof fn lemma_resolve_returns_submitted(m: Map<u64, u64>, id: u64, ts: u64)
    requires
        !m.contains_key(id),
    ensures
        m.insert(id, ts).contains_key(id),
        m.insert(id, ts)[id] == ts,
        m.insert(id, ts).remove(id) == m,
{
    assert(m.insert(id, ts).remove(id) =~= m);
}

} // verus!

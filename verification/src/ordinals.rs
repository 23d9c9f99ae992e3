//! Ordinal-faithfulness bookkeeping: each frame a decoder emits carries the
//! ordinal it was submitted with, and the emitted ordinals are expected to
//! run 1, 2, 3, ... exactly once each.
use vstd::prelude::*;
use std::collections::HashSet;
use crate::counter::{inc, next_i64};

verus! {

broadcast use vstd::std_specs::hash::group_hash_axioms;

/// How one emitted ordinal relates to the expected sequence.
#[derive(Debug, Clone, Copy, PartialEq, Eq, Structural)]
pub enum Emission {
    /// The frame carried no ordinal.
    Unknown,
    /// Exactly the next expected ordinal.
    InOrder,
    /// An ordinal emitted before.
    Duplicate,
    /// A higher ordinal while a lower expected one is still missing.
    Skip,
    /// Any other ordinal out of place: lower than expected, not a repeat.
    Reorder,
}

/// The class of `o` when `expected` is the next expected ordinal and
/// `seen` holds every ordinal emitted so far.
pub open spec fn emission_class(expected: i64, seen: Set<i64>, o: Option<i64>) -> Emission {
    match o {
        None => Emission::Unknown,
        Some(got) => if got == expected {
            Emission::InOrder
        } else if seen.contains(got) {
            Emission::Duplicate
        } else if got > expected {
            Emission::Skip
        } else {
            Emission::Reorder
        },
    }
}

/// The next expected ordinal after `o` was emitted: one past it, unless it
/// was unknown or a duplicate.
pub open spec fn expected_after(expected: i64, seen: Set<i64>, o: Option<i64>) -> i64 {
    match emission_class(expected, seen, o) {
        Emission::Unknown | Emission::Duplicate => expected,
        _ => crate::counter::succ_i64(o.unwrap()),
    }
}

/// Tracks the next expected ordinal and every ordinal seen.
pub struct OrdinalTracker {
    expected_next: i64,
    seen: HashSet<i64>,
}

impl OrdinalTracker {
    pub closed spec fn expected(&self) -> i64 {
        self.expected_next
    }

    pub closed spec fn seen_set(&self) -> Set<i64> {
        self.seen@
    }

    /// A tracker expecting ordinal 1 with nothing seen.
    pub fn new() -> (t: Self)
        ensures
            t.expected() == 1,
            t.seen_set() == Set::<i64>::empty(),
    {
        OrdinalTracker { expected_next: 1, seen: HashSet::new() }
    }

    /// Classify one emitted ordinal and record it.
    pub fn record(&mut self, o: Option<i64>) -> (c: Emission)
        ensures
            c == emission_class(old(self).expected(), old(self).seen_set(), o),
            final(self).expected() == expected_after(old(self).expected(), old(self).seen_set(), o),
            final(self).seen_set() == match o {
                Some(got) => old(self).seen_set().insert(got),
                None => old(self).seen_set(),
            },
    {
        match o {
            None => Emission::Unknown,
            Some(got) => {
                let c = if got == self.expected_next {
                    self.expected_next = next_i64(self.expected_next);
                    Emission::InOrder
                } else if self.seen.contains(&got) {
                    Emission::Duplicate
                } else if got > self.expected_next {
                    self.expected_next = next_i64(got);
                    Emission::Skip
                } else {
                    self.expected_next = next_i64(got);
                    Emission::Reorder
                };
                self.seen.insert(got);
                c
            },
        }
    }
}

/// Counts of emitted frames by class.
#[derive(Debug, Clone, Copy, PartialEq, Eq, Structural)]
pub struct EmissionCounts {
    pub emitted: u64,
    pub unknown_pts: u64,
    pub duplicates: u64,
    pub reorders: u64,
    pub skips: u64,
}

/// Abstract state of an emission log: its counts, the next expected
/// ordinal, and every ordinal seen.
pub struct EmissionState {
    pub counts: EmissionCounts,
    pub expected: i64,
    pub seen: Set<i64>,
}

/// One emission recorded: `emitted` and the count of its class go up by one
/// (wrapping), the expected ordinal and the seen set advance.
pub open spec fn emission_step(s: EmissionState, o: Option<i64>) -> EmissionState {
    let c = emission_class(s.expected, s.seen, o);
    let k = s.counts;
    EmissionState {
        counts: EmissionCounts {
            emitted: crate::counter::bump(k.emitted),
            unknown_pts: if c == Emission::Unknown { crate::counter::bump(k.unknown_pts) } else { k.unknown_pts },
            duplicates: if c == Emission::Duplicate { crate::counter::bump(k.duplicates) } else { k.duplicates },
            reorders: if c == Emission::Reorder { crate::counter::bump(k.reorders) } else { k.reorders },
            skips: if c == Emission::Skip { crate::counter::bump(k.skips) } else { k.skips },
        },
        expected: expected_after(s.expected, s.seen, o),
        seen: match o {
            Some(got) => s.seen.insert(got),
            None => s.seen,
        },
    }
}

/// The state after recording `os` in order.
pub open spec fn emissions_after(s: EmissionState, os: Seq<Option<i64>>) -> EmissionState
    decreases os.len(),
{
    if os.len() == 0 {
        s
    } else {
        emission_step(emissions_after(s, os.drop_last()), os.last())
    }
}

/// Emitted ordinals checked against the sequence 1, 2, 3, ...
pub struct EmissionLog {
    counts: EmissionCounts,
    tracker: OrdinalTracker,
}

impl EmissionLog {
    pub closed spec fn state(&self) -> EmissionState {
        EmissionState { counts: self.counts, expected: self.tracker.expected(), seen: self.tracker.seen_set() }
    }

    /// Nothing emitted yet; ordinal 1 expected.
    pub fn new() -> (l: Self)
        ensures
            l.state() == (EmissionState {
                counts: EmissionCounts { emitted: 0, unknown_pts: 0, duplicates: 0, reorders: 0, skips: 0 },
                expected: 1,
                seen: Set::empty(),
            }),
    {
        EmissionLog {
            counts: EmissionCounts { emitted: 0, unknown_pts: 0, duplicates: 0, reorders: 0, skips: 0 },
            tracker: OrdinalTracker::new(),
        }
    }

    /// The next expected ordinal.
    pub fn expected(&self) -> (e: i64)
        ensures
            e == self.state().expected,
    {
        self.tracker.expected_next
    }

    /// The counts so far.
    pub fn counts(&self) -> (c: EmissionCounts)
        ensures
            c == self.state().counts,
    {
        self.counts
    }

    /// Record one emitted frame's ordinal; returns its class.
    pub fn record(&mut self, o: Option<i64>) -> (c: Emission)
        ensures
            c == emission_class(old(self).state().expected, old(self).state().seen, o),
            final(self).state() == emission_step(old(self).state(), o),
    {
        let c = self.tracker.record(o);
        self.counts.emitted = inc(self.counts.emitted);
        match c {
            Emission::Unknown => self.counts.unknown_pts = inc(self.counts.unknown_pts),
            Emission::Duplicate => self.counts.duplicates = inc(self.counts.duplicates),
            Emission::Reorder => self.counts.reorders = inc(self.counts.reorders),
            Emission::Skip => self.counts.skips = inc(self.counts.skips),
            Emission::InOrder => {},
        }
        c
    }

    /// Record every ordinal of `os`, in order.
    pub fn record_all(&mut self, os: &Vec<Option<i64>>)
        ensures
            final(self).state() == emissions_after(old(self).state(), os@),
    {
        let mut i: usize = 0;
        while i < os.len()
            invariant
                i <= os@.len(),
                self.state() == emissions_after(old(self).state(), os@.take(i as int)),
            decreases os@.len() - i,
        {
            self.record(os[i]);
            proof {
                assert(os@.take(i + 1).drop_last() =~= os@.take(i as int));
            }
            i += 1;
        }
        assert(os@.take(i as int) =~= os@);
    }
}

/// The state of a fresh log.
pub open spec fn initial_emission_state() -> EmissionState {
    EmissionState {
        counts: EmissionCounts { emitted: 0, unknown_pts: 0, duplicates: 0, reorders: 0, skips: 0 },
        expected: 1,
        seen: Set::empty(),
    }
}

/// No unknown, duplicate, reordered or skipped emission was counted.
pub open spec fn clean(k: EmissionCounts) -> bool {
    k.unknown_pts == 0 && k.duplicates == 0 && k.reorders == 0 && k.skips == 0
}

/// The ordinals `1..=n` in order.
pub open spec fn in_order(n: nat) -> Seq<Option<i64>> {
    Seq::new(n, |i: int| Some((i + 1) as i64))
}

/// From a fresh log, a run of emissions (shorter than `i64::MAX`) is
/// counted clean exactly when it is the ordinals `1, 2, ..., n` in order;
/// then all `n` are counted as emitted and `n + 1` is expected next.
pub proof fn lemma_clean_iff_in_order(os: Seq<Option<i64>>)
    requires
        os.len() < i64::MAX,
    ensures
        clean(emissions_after(initial_emission_state(), os).counts) <==> os == in_order(os.len()),
        os == in_order(os.len()) ==> {
            let s = emissions_after(initial_emission_state(), os);
            &&& s.counts.emitted == os.len()
            &&& s.expected == os.len() + 1
            &&& s.seen == Set::new(|x: i64| 1 <= x <= os.len())
        },
    decreases os.len(),
{
    let init = initial_emission_state();
    if os.len() == 0 {
        assert(os =~= in_order(0));
        assert(init.seen =~= Set::new(|x: i64| 1 <= x <= 0));
    } else {
        let prev = os.drop_last();
        lemma_clean_iff_in_order(prev);
        lemma_anomalies_bounded(prev);
        let ps = emissions_after(init, prev);
        let n = prev.len();
        assert(os == prev.push(os.last()));
        if prev == in_order(n) {
            if os.last() == Some((n + 1) as i64) {
                assert(os =~= in_order(n + 1));
                assert(emissions_after(init, os).seen =~= Set::new(|x: i64| 1 <= x <= n + 1));
            } else {
                assert(os != in_order(n + 1)) by {
                    assert(in_order(n + 1)[n as int] == Some((n + 1) as i64));
                }
            }
        } else {
            assert(os != in_order(n + 1)) by {
                if os == in_order(n + 1) {
                    assert(prev =~= in_order(n));
                }
            }
        }
    }
}

/// Anomaly counts never exceed the number of emissions recorded.
pub proof fn lemma_anomalies_bounded(os: Seq<Option<i64>>)
    requires
        os.len() < i64::MAX,
    ensures
        ({
            let k = emissions_after(initial_emission_state(), os).counts;
            k.unknown_pts + k.duplicates + k.reorders + k.skips <= os.len()
        }),
    decreases os.len(),
{
    if os.len() > 0 {
        lemma_anomalies_bounded(os.drop_last());
    }
}

} // verus!

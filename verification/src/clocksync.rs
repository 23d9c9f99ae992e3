//! Four-timestamp clock synchronisation.
//!
//! `offset = ((t2 - t1) + (t3 - t4)) / 2` and `delay = (t4 - t1) - (t3 - t2)`
//! are computed over 128-bit integers, so two clocks anchored at unrelated
//! zero points never underflow. Samples with a negative delay, a delay of
//! 5 ms or more, or an offset outside the `i64` range are rejected; among
//! accepted samples the one with the lowest delay (the first such one) is
//! kept as the best.
use vstd::prelude::*;

verus! {

/// One accepted clock-sync sample.
#[derive(Debug, Clone, Copy, PartialEq, Eq)]
pub struct Sample {
    pub seq: u32,
    pub offset_us: i64,
    pub delay_us: i64,
    pub uncertainty_us: u32,
}

/// Samples whose round-trip delay reaches this many microseconds are
/// rejected.
pub const MAX_ACCEPTED_DELAY_US: i128 = 5000;

/// Round-trip delay of a ping/pong exchange.
pub open spec fn delay_of(t1: u64, t2: u64, t3: u64, t4: u64) -> int {
    (t4 - t1) - (t3 - t2)
}

/// Integer division by two rounding toward zero.
pub open spec fn half_toward_zero(n: int) -> int {
    if n >= 0 { n / 2 } else { -((-n) / 2) }
}

/// Clock offset of the responder relative to the requester.
pub open spec fn offset_of(t1: u64, t2: u64, t3: u64, t4: u64) -> int {
    half_toward_zero((t2 - t1) + (t3 - t4))
}

/// The sample a pong yields, when its delay is in `0..5000` and its offset
/// fits in an `i64`; the sample's fields are exact.
pub open spec fn sample_of(t1: u64, t2: u64, t3: u64, t4: u64, seq: u32) -> Option<Sample> {
    let d = delay_of(t1, t2, t3, t4);
    let o = offset_of(t1, t2, t3, t4);
    if 0 <= d < 5000 && i64::MIN <= o <= i64::MAX {
        Some(Sample {
            seq,
            offset_us: offset_of(t1, t2, t3, t4) as i64,
            delay_us: d as i64,
            uncertainty_us: (d / 2) as u32,
        })
    } else {
        None
    }
}

/// The best sample after offering `s` to a tracker whose best was `best`:
/// `s` replaces it only with a strictly lower delay.
pub open spec fn next_best(best: Option<Sample>, s: Option<Sample>) -> Option<Sample> {
    match s {
        None => best,
        Some(n) => match best {
            None => Some(n),
            Some(b) => if n.delay_us < b.delay_us { Some(n) } else { Some(b) },
        },
    }
}

/// The best sample after offering `samples` in order to an empty tracker.
pub open spec fn best_of(samples: Seq<Sample>) -> Option<Sample>
    decreases samples.len(),
{
    if samples.len() == 0 {
        None
    } else {
        next_best(best_of(samples.drop_last()), Some(samples.last()))
    }
}

/// Accumulates samples across a session, keeping the lowest-delay one.
#[derive(Debug)]
pub struct ClockSync {
    best: Option<Sample>,
}

impl ClockSync {
    /// The best sample kept so far.
    pub closed spec fn best_sample(&self) -> Option<Sample> {
        self.best
    }

    pub fn new() -> (c: Self)
        ensures
            c.best_sample() is None,
    {
        ClockSync { best: None }
    }

    /// Feed one pong: `t1`/`t4` are the requester's send/receive times,
    /// `t2`/`t3` the responder's receive/send times, all in microseconds.
    /// Returns the sample when accepted (delay in `0..5000` and offset within
    /// `i64`), its offset exactly `((t2 - t1) + (t3 - t4)) / 2` rounded toward
    /// zero; an accepted sample becomes the best only when its delay is
    /// strictly lower.
    pub fn on_pong(&mut self, t1: u64, t2: u64, t3: u64, t4: u64, seq: u32) -> (r: Option<Sample>)
        ensures
            r == sample_of(t1, t2, t3, t4, seq),
            final(self).best_sample() == next_best(old(self).best_sample(), r),
    {
        let (a1, a2, a3, a4) = (t1 as i128, t2 as i128, t3 as i128, t4 as i128);
        let sum: i128 = (a2 - a1) + (a3 - a4);
        let offset: i128 = if sum >= 0 { sum / 2 } else { -((-sum) / 2) };
        let delay: i128 = (a4 - a1) - (a3 - a2);
        if delay < 0 || delay >= MAX_ACCEPTED_DELAY_US {
            return None;
        }
        if offset < i64::MIN as i128 || offset > i64::MAX as i128 {
            return None;
        }
        let sample = Sample {
            seq,
            offset_us: offset as i64,
            delay_us: delay as i64,
            uncertainty_us: (delay / 2) as u32,
        };
        let is_new_best = match &self.best {
            None => true,
            Some(cur) => sample.delay_us < cur.delay_us,
        };
        if is_new_best {
            self.best = Some(sample);
        }
        Some(sample)
    }

    /// The lowest-delay accepted sample seen so far, if any.
    pub fn best(&self) -> (r: Option<Sample>)
        ensures
            r == self.best_sample(),
    {
        self.best
    }
}

/// Offered any sequence of accepted samples, the tracker keeps one of them
/// whose delay is at most every other's, and no earlier sample has that
/// delay: the first lowest-delay sample.
pub proof fn lemma_best_is_first_minimum(samples: Seq<Sample>)
    requires
        samples.len() > 0,
    ensures
        best_of(samples) is Some,
        exists|i: int| 0 <= i < samples.len() && best_of(samples) == Some(#[trigger] samples[i])
            && forall|j: int| 0 <= j < i ==> samples[j].delay_us > samples[i].delay_us,
        forall|j: int| 0 <= j < samples.len() ==> best_of(samples).unwrap().delay_us <= #[trigger] samples[j].delay_us,
    decreases samples.len(),
{
    let prev = samples.drop_last();
    let n = samples.last();
    if prev.len() == 0 {
        assert(samples[0] == n);
        assert(best_of(prev) is None);
        assert(best_of(samples) == Some(samples[0]));
    } else {
        lemma_best_is_first_minimum(prev);
        let i = choose|i: int| 0 <= i < prev.len() && best_of(prev) == Some(#[trigger] prev[i])
            && forall|j: int| 0 <= j < i ==> prev[j].delay_us > prev[i].delay_us;
        let b = best_of(prev).unwrap();
        assert(forall|j: int| 0 <= j < prev.len() ==> prev[j] == samples[j]);
        if n.delay_us < b.delay_us {
            let k = samples.len() - 1;
            assert(samples[k] == n);
            assert forall|j: int| 0 <= j < k implies samples[j].delay_us > samples[k].delay_us by {
                assert(b.delay_us <= prev[j].delay_us);
            }
            assert forall|j: int| 0 <= j < samples.len() implies
                best_of(samples).unwrap().delay_us <= #[trigger] samples[j].delay_us by {
                if j < k {
                    assert(b.delay_us <= prev[j].delay_us);
                }
            }
        } else {
            assert(best_of(samples) == Some(samples[i]));
            assert forall|j: int| 0 <= j < samples.len() implies
                best_of(samples).unwrap().delay_us <= #[trigger] samples[j].delay_us by {
                if j < samples.len() - 1 {
                    assert(b.delay_us <= prev[j].delay_us);
                }
            }
        }
    }
}

/// The responder's clock can sit anywhere relative to the requester's:
/// shifting both of its timestamps by the same amount leaves the round-trip
/// delay, and so the delay check, unchanged.
pub proof fn lemma_delay_ignores_responder_clock(t1: u64, t2: u64, t3: u64, t4: u64, u2: u64, u3: u64)
    requires
        u3 - u2 == t3 - t2,
    ensures
        delay_of(t1, u2, u3, t4) == delay_of(t1, t2, t3, t4),
{
}

} // verus!

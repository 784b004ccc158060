//! The probe loop's record keeping: one result per sequence number, in
//! order, each attempted exactly once.
//!
//! The transport work — sending the datagram and waiting for a matched
//! reply — happens outside; its classified outcome is handed in here, and
//! the run state accumulates the ordered results, the successful
//! round-trip times, and the growing bar scale for the live view.

use vstd::prelude::*;
use crate::stats::MAX_RTT_HUNDREDTHS;

verus! {

/// The classified outcome of one probe: a matched reply with its
/// round-trip time in hundredths of a millisecond, a timeout, a transmit
/// failure, or a failure while waiting for the reply.  No failure aborts
/// the run; each is recorded as a lost probe.
pub enum ProbeOutcome {
    Success { rtt_hundredths: u64 },
    Timeout,
    SendFailure,
    ReceiveFailure,
}

impl ProbeOutcome {
    /// The round-trip time carried by a successful outcome.
    pub open spec fn spec_rtt(self) -> Option<u64> {
        match self {
            ProbeOutcome::Success { rtt_hundredths } => Some(rtt_hundredths),
            _ => None,
        }
    }

    /// Whether the probe received its matched reply.
    pub open spec fn spec_succeeded(self) -> bool {
        self is Success
    }
}

/// One probe's record: its sequence number, the round-trip time in
/// hundredths of a millisecond when a matched reply arrived, whether it
/// succeeded, and the wall-clock timestamp at which it was issued.
/// Immutable once appended to a run.
pub struct ProbeResult {
    pub seq: u32,
    pub rtt_hundredths: Option<u64>,
    pub success: bool,
    pub timestamp: Option<String>,
}

/// The successful round-trip times of `results`, in order.
pub open spec fn successful_rtts(results: Seq<ProbeResult>) -> Seq<u64>
    decreases results.len(),
{
    if results.len() == 0 {
        Seq::empty()
    } else {
        let rest = successful_rtts(results.drop_last());
        match results.last().rtt_hundredths {
            Some(rtt) => rest.push(rtt),
            None => rest,
        }
    }
}

/// Initial bar scale of the live view: 50 milliseconds, in hundredths.
pub const INITIAL_BAR_SCALE: u64 = 5000;

/// State of one run: the configured probe count, the results recorded so
/// far, the successful round-trip times in arrival order, and the bar
/// scale, which only ever grows.
pub struct ProbeRun {
    pub count: u32,
    pub results: Vec<ProbeResult>,
    pub times: Vec<u64>,
    pub dynamic_max: u64,
}

impl ProbeRun {
    /// Well-formedness: no more results than probes configured; result `i`
    /// carries sequence number `i`; a result succeeded exactly when it has
    /// a round-trip time, which is bounded; the collected times are the
    /// successful round-trip times in order; the bar scale never fell
    /// below its seed.
    pub open spec fn wf(self) -> bool {
        &&& 1 <= self.count
        &&& self.results@.len() <= self.count
        &&& forall|i: int|
            0 <= i < self.results@.len() ==> (#[trigger] self.results@[i]).seq == i
        &&& forall|i: int|
            0 <= i < self.results@.len() ==> ((#[trigger] self.results@[i]).success
                <==> self.results@[i].rtt_hundredths is Some)
        &&& forall|i: int|
            0 <= i < self.results@.len() ==> ((#[trigger] self.results@[i]).rtt_hundredths
                matches Some(rtt) ==> rtt <= MAX_RTT_HUNDREDTHS)
        &&& self.times@ == successful_rtts(self.results@)
        &&& INITIAL_BAR_SCALE <= self.dynamic_max <= 2 * MAX_RTT_HUNDREDTHS
    }

    /// How many probes have been attempted so far.
    pub open spec fn spec_attempted(self) -> int {
        self.results@.len() as int
    }

    /// Whether every configured probe has been attempted.
    pub open spec fn spec_complete(self) -> bool {
        self.results@.len() == self.count
    }

    /// Starts a run of `count` probes with no results yet.
    pub fn new(count: u32) -> (run: ProbeRun)
        requires
            count >= 1,
        ensures
            run.wf(),
            run.count == count,
            run.spec_attempted() == 0,
            run.dynamic_max == INITIAL_BAR_SCALE,
    {
        ProbeRun {
            count,
            results: Vec::new(),
            times: Vec::new(),
            dynamic_max: INITIAL_BAR_SCALE,
        }
    }

    /// The sequence number the next probe must carry.
    pub fn next_seq(&self) -> (seq: u32)
        requires
            self.wf(),
        ensures
            seq == self.spec_attempted(),
    {
        self.results.len() as u32
    }

    /// Records the outcome of the next probe, appending its result under
    /// the next sequence number.  On success the round-trip time joins the
    /// collected times and the bar scale grows to six fifths of the
    /// round-trip time if that is larger; a failed probe leaves the scale
    /// unchanged.  The probe is counted whatever its outcome.
    pub fn record(&mut self, outcome: ProbeOutcome, timestamp: Option<String>)
        requires
            old(self).wf(),
            !old(self).spec_complete(),
            outcome.spec_rtt() matches Some(rtt) ==> rtt <= MAX_RTT_HUNDREDTHS,
        ensures
            final(self).wf(),
            final(self).count == old(self).count,
            final(self).spec_attempted() == old(self).spec_attempted() + 1,
            final(self).results@.drop_last() == old(self).results@,
            final(self).results@.last().seq == old(self).spec_attempted(),
            final(self).results@.last().rtt_hundredths == outcome.spec_rtt(),
            final(self).results@.last().success == outcome.spec_succeeded(),
            final(self).results@.last().timestamp == timestamp,
            outcome.spec_rtt() matches Some(rtt) ==> final(self).times@ == old(
                self,
            ).times@.push(rtt),
            outcome.spec_rtt() is None ==> final(self).times@ == old(self).times@,
            final(self).dynamic_max >= old(self).dynamic_max,
            (match outcome.spec_rtt() {
                Some(rtt) => final(self).dynamic_max == if rtt * 6 / 5 > old(
                    self,
                ).dynamic_max {
                    rtt * 6 / 5
                } else {
                    old(self).dynamic_max as int
                },
                None => final(self).dynamic_max == old(self).dynamic_max,
            }),
    {
        let seq = self.results.len() as u32;
        let (rtt_hundredths, success): (Option<u64>, bool) = match outcome {
            ProbeOutcome::Success { rtt_hundredths } => (Some(rtt_hundredths), true),
            ProbeOutcome::Timeout => (None, false),
            ProbeOutcome::SendFailure => (None, false),
            ProbeOutcome::ReceiveFailure => (None, false),
        };
        if let Some(rtt) = rtt_hundredths {
            self.times.push(rtt);
            let scaled = rtt * 6 / 5;
            if scaled > self.dynamic_max {
                self.dynamic_max = scaled;
            }
        }
        self.results.push(ProbeResult { seq, rtt_hundredths, success, timestamp });
        proof {
            assert(self.results@.drop_last() =~= old(self).results@);
        }
    }

    /// Every recorded result carries its own index as sequence number:
    /// after a complete run the sequence numbers are exactly
    /// `0, 1, ..., count - 1`, in that order, each exactly once.
    pub proof fn lemma_sequences_in_order(self)
        requires
            self.wf(),
        ensures
            forall|i: int|
                0 <= i < self.results@.len() ==> (#[trigger] self.results@[i]).seq == i,
            self.spec_complete() ==> self.results@.len() == self.count,
    {
    }
}

/// The number of successful round-trip times never exceeds the number of
/// results they came from.
pub proof fn lemma_successful_rtts_len(results: Seq<ProbeResult>)
    ensures
        successful_rtts(results).len() <= results.len(),
    decreases results.len(),
{
    if results.len() > 0 {
        lemma_successful_rtts_len(results.drop_last());
    }
}

/// A bound that holds of every successful round-trip time in the results
/// holds of every collected time.
pub proof fn lemma_successful_rtts_bounded(results: Seq<ProbeResult>, bound: u64)
    requires
        forall|i: int|
            0 <= i < results.len() ==> ((#[trigger] results[i]).rtt_hundredths matches Some(rtt)
                ==> rtt <= bound),
    ensures
        forall|j: int|
            0 <= j < successful_rtts(results).len()
                ==> #[trigger] successful_rtts(results)[j] <= bound,
    decreases results.len(),
{
    if results.len() > 0 {
        let prefix = results.drop_last();
        assert(forall|i: int| 0 <= i < prefix.len() ==> prefix[i] == results[i]);
        lemma_successful_rtts_bounded(prefix, bound);
        let rest = successful_rtts(prefix);
        assert(results[results.len() - 1] == results.last());
        match results.last().rtt_hundredths {
            Some(rtt) => {
                assert(successful_rtts(results) == rest.push(rtt));
                assert forall|j: int| 0 <= j < successful_rtts(results).len() implies
                    #[trigger] successful_rtts(results)[j] <= bound by {
                    if j < rest.len() {
                        assert(rest.push(rtt)[j] == rest[j]);
                    } else {
                        assert(rest.push(rtt)[j] == rtt);
                    }
                }
            },
            None => {
                assert(successful_rtts(results) == rest);
            },
        }
    }
}

/// The round-trip time of each successful result is among the collected
/// times.
pub proof fn lemma_successful_rtt_present(results: Seq<ProbeResult>, i: int)
    requires
        0 <= i < results.len(),
        results[i].rtt_hundredths is Some,
    ensures
        successful_rtts(results).contains(results[i].rtt_hundredths->0),
    decreases results.len(),
{
    let rtt = results[i].rtt_hundredths->0;
    let rest = successful_rtts(results.drop_last());
    if i == results.len() - 1 {
        assert(results.last() == results[i]);
        assert(successful_rtts(results) == rest.push(rtt));
        assert(rest.push(rtt)[rest.len() as int] == rtt);
    } else {
        assert(results.drop_last()[i] == results[i]);
        lemma_successful_rtt_present(results.drop_last(), i);
        let k = choose|k: int| 0 <= k < rest.len() && rest[k] == rtt;
        match results.last().rtt_hundredths {
            Some(r2) => {
                assert(successful_rtts(results) == rest.push(r2));
                assert(rest.push(r2)[k] == rtt);
            },
            None => {
                assert(successful_rtts(results) == rest);
            },
        }
    }
}

} // verus!

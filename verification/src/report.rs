//! The run report: host, resolved address, the run's time span and
//! timeout, the full ordered result sequence, and one statistics
//! snapshot.  Constructed once, after the last probe; never mutated.

use vstd::prelude::*;
use crate::probe::{
    lemma_successful_rtts_bounded, lemma_successful_rtts_len, successful_rtts, ProbeResult,
    ProbeRun,
};
use crate::stats::{calculate_statistics, spec_statistics, Statistics, MAX_RTT_HUNDREDTHS};

verus! {

/// Aggregate of one completed run.
pub struct Report {
    pub host: String,
    pub ip_address: String,
    pub timestamp_start: String,
    pub timestamp_end: String,
    pub timeout_seconds: u64,
    pub results: Vec<ProbeResult>,
    pub statistics: Statistics,
}

impl Report {
    /// Well-formedness: the statistics snapshot is exactly the one derived
    /// from the results, so the packets sent equal the results recorded,
    /// the packets received equal the successful ones, and sent is
    /// received plus lost.
    pub open spec fn wf(self) -> bool {
        &&& 1 <= self.results@.len() <= u32::MAX
        &&& self.statistics == spec_statistics(
            successful_rtts(self.results@),
            self.results@.len() as u32,
        )
        &&& self.statistics.packets_sent == self.results@.len()
        &&& self.statistics.packets_received == successful_rtts(self.results@).len()
        &&& self.statistics.packets_sent == self.statistics.packets_received
            + self.statistics.packets_lost
    }

    /// Builds the report of a completed run, deriving the statistics from
    /// the run's collected times once; every consumer reuses this one
    /// snapshot.
    pub fn new(
        host: String,
        ip_address: String,
        timestamp_start: String,
        timestamp_end: String,
        timeout_seconds: u64,
        run: ProbeRun,
    ) -> (report: Report)
        requires
            run.wf(),
            run.spec_complete(),
        ensures
            report.wf(),
            report.host == host,
            report.ip_address == ip_address,
            report.timestamp_start == timestamp_start,
            report.timestamp_end == timestamp_end,
            report.timeout_seconds == timeout_seconds,
            report.results@ == run.results@,
            report.statistics == spec_statistics(run.times@, run.count),
    {
        proof {
            lemma_successful_rtts_len(run.results@);
            lemma_successful_rtts_bounded(run.results@, MAX_RTT_HUNDREDTHS);
            assert forall|i: int| 0 <= i < run.times@.len() implies run.times@[i]
                <= MAX_RTT_HUNDREDTHS by {
                assert(run.times@[i] == successful_rtts(run.results@)[i]);
            }
        }
        let statistics = calculate_statistics(&run.times, run.count);
        Report {
            host,
            ip_address,
            timestamp_start,
            timestamp_end,
            timeout_seconds,
            results: run.results,
            statistics,
        }
    }
}

} // verus!

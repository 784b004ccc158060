use pinggraph::probe::{ProbeOutcome, ProbeRun, INITIAL_BAR_SCALE};
use pinggraph::report::Report;

#[test]
fn run_records_sequences_in_order() {
    let mut run = ProbeRun::new(3);
    assert_eq!(run.next_seq(), 0);
    run.record(
        ProbeOutcome::Success { rtt_hundredths: 1000 },
        Some(String::from("t0")),
    );
    assert_eq!(run.next_seq(), 1);
    run.record(ProbeOutcome::Timeout, Some(String::from("t1")));
    assert_eq!(run.next_seq(), 2);
    run.record(ProbeOutcome::SendFailure, None);
    assert_eq!(run.results.len(), 3);
    for (i, r) in run.results.iter().enumerate() {
        assert_eq!(r.seq as usize, i);
    }
    assert_eq!(run.results[0].rtt_hundredths, Some(1000));
    assert!(run.results[0].success);
    assert_eq!(run.results[1].rtt_hundredths, None);
    assert!(!run.results[1].success);
    assert_eq!(run.results[1].timestamp, Some(String::from("t1")));
    assert_eq!(run.results[2].rtt_hundredths, None);
    assert!(!run.results[2].success);
    assert_eq!(run.times, vec![1000]);
}

#[test]
fn receive_failure_is_recorded_as_lost() {
    let mut run = ProbeRun::new(1);
    run.record(ProbeOutcome::ReceiveFailure, None);
    assert_eq!(run.results.len(), 1);
    assert!(!run.results[0].success);
    assert_eq!(run.times.len(), 0);
}

#[test]
fn bar_scale_grows_and_never_shrinks() {
    let mut run = ProbeRun::new(4);
    assert_eq!(run.dynamic_max, INITIAL_BAR_SCALE);
    // 12 ms: six fifths is 14.4 ms, below the 50 ms seed.
    run.record(ProbeOutcome::Success { rtt_hundredths: 1200 }, None);
    assert_eq!(run.dynamic_max, INITIAL_BAR_SCALE);
    // 100 ms: six fifths is 120 ms, the scale grows.
    run.record(ProbeOutcome::Success { rtt_hundredths: 10000 }, None);
    assert_eq!(run.dynamic_max, 12000);
    // A later faster probe leaves the scale where it was.
    run.record(ProbeOutcome::Success { rtt_hundredths: 2000 }, None);
    assert_eq!(run.dynamic_max, 12000);
    run.record(ProbeOutcome::Timeout, None);
    assert_eq!(run.dynamic_max, 12000);
}

#[test]
fn report_carries_consistent_statistics() {
    let mut run = ProbeRun::new(3);
    run.record(
        ProbeOutcome::Success { rtt_hundredths: 5000 },
        Some(String::from("t0")),
    );
    run.record(ProbeOutcome::Timeout, Some(String::from("t1")));
    run.record(ProbeOutcome::Timeout, Some(String::from("t2")));
    let report = Report::new(
        String::from("example.org"),
        String::from("10.0.0.1"),
        String::from("start"),
        String::from("end"),
        2,
        run,
    );
    assert_eq!(report.host, "example.org");
    assert_eq!(report.ip_address, "10.0.0.1");
    assert_eq!(report.timeout_seconds, 2);
    assert_eq!(report.results.len(), 3);
    let s = &report.statistics;
    assert_eq!(s.packets_sent, 3);
    assert_eq!(s.packets_received, 1);
    assert_eq!(s.packets_lost, 2);
    assert_eq!(s.packets_sent, s.packets_received + s.packets_lost);
    assert_eq!(s.loss_centipercent, 6667);
    assert_eq!(s.min_hundredths, Some(5000));
}

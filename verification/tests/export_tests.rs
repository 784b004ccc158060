use pinggraph::export::{csv_row, csv_stats_row, render_csv};
use pinggraph::probe::ProbeResult;
use pinggraph::stats::calculate_statistics;
use pinggraph::textfmt::{bool_to_dec, fixed2_to_dec, u64_to_dec};

#[test]
fn decimal_rendering() {
    assert_eq!(u64_to_dec(0), "0");
    assert_eq!(u64_to_dec(7), "7");
    assert_eq!(u64_to_dec(10), "10");
    assert_eq!(u64_to_dec(12345), "12345");
    assert_eq!(u64_to_dec(1_000_000_000), "1000000000");
}

#[test]
fn fixed_point_rendering() {
    assert_eq!(fixed2_to_dec(707), "7.07");
    assert_eq!(fixed2_to_dec(6667), "66.67");
    assert_eq!(fixed2_to_dec(0), "0.00");
    assert_eq!(fixed2_to_dec(5), "0.05");
    assert_eq!(fixed2_to_dec(50), "0.50");
    assert_eq!(fixed2_to_dec(10000), "100.00");
}

#[test]
fn boolean_rendering() {
    assert_eq!(bool_to_dec(true), "true");
    assert_eq!(bool_to_dec(false), "false");
}

#[test]
fn data_row_with_all_fields() {
    let r = ProbeResult {
        seq: 0,
        rtt_hundredths: Some(1234),
        success: true,
        timestamp: Some(String::from("2021-01-01 00:00:00.000")),
    };
    assert_eq!(csv_row(&r), "0,12.34,true,2021-01-01 00:00:00.000");
}

#[test]
fn data_row_keeps_columns_when_fields_are_absent() {
    // A timeout leaves the round-trip field empty; an unset timestamp
    // leaves that field empty too; the column count never changes.
    let r = ProbeResult { seq: 2, rtt_hundredths: None, success: false, timestamp: None };
    let line = csv_row(&r);
    assert_eq!(line, "2,,false,");
    assert_eq!(line.split(',').count(), 4);
    let full = ProbeResult {
        seq: 3,
        rtt_hundredths: Some(100),
        success: true,
        timestamp: Some(String::from("t")),
    };
    assert_eq!(csv_row(&full).split(',').count(), 4);
}

#[test]
fn statistics_row_with_absent_figures() {
    let times: Vec<u64> = vec![];
    let s = calculate_statistics(&times, 3);
    assert_eq!(csv_stats_row(&s), "3,0,3,100.00,,,,");
}

#[test]
fn statistics_row_with_figures() {
    let times = vec![1000u64, 2000, 3000, 1500, 2500];
    let s = calculate_statistics(&times, 5);
    assert_eq!(csv_stats_row(&s), "5,5,0,0.00,10.00,20.00,30.00,7.07");
}

#[test]
fn whole_tabular_report() {
    let results = vec![
        ProbeResult {
            seq: 0,
            rtt_hundredths: Some(5000),
            success: true,
            timestamp: Some(String::from("t0")),
        },
        ProbeResult { seq: 1, rtt_hundredths: None, success: false, timestamp: None },
    ];
    let times = vec![5000u64];
    let stats = calculate_statistics(&times, 2);
    let text = render_csv(&results, &stats, "example.org", "10.0.0.1", "2021-01-01 00:00:00");
    let expected = "# Ping Report\n\
                    # Host: example.org\n\
                    # IP: 10.0.0.1\n\
                    # Generated: 2021-01-01 00:00:00\n\
                    #\n\
                    seq,rtt_ms,success,timestamp\n\
                    0,50.00,true,t0\n\
                    1,,false,\n\
                    \n\
                    # Statistics\n\
                    # packets_sent,packets_received,packets_lost,loss_percent,min_ms,avg_ms,max_ms,std_dev_ms\n\
                    2,1,1,50.00,50.00,50.00,50.00,0.00\n";
    assert_eq!(text, expected);
    // Every data row has the same number of columns.
    for line in text.lines().skip(6).take(2) {
        assert_eq!(line.split(',').count(), 4);
    }
}

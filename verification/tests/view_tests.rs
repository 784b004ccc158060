use pinggraph::probe::ProbeResult;
use pinggraph::render::{
    bar_widths, graph_axis_label_tenths, histogram_bar_len, histogram_counts, latency_class,
    line_graph_grid, percent_tenths, x_axis_labels, LatencyClass, BAR_WIDTH, GRAPH_HEIGHT,
};

fn success(seq: u32, rtt_hundredths: u64) -> ProbeResult {
    ProbeResult { seq, rtt_hundredths: Some(rtt_hundredths), success: true, timestamp: None }
}

fn timeout(seq: u32) -> ProbeResult {
    ProbeResult { seq, rtt_hundredths: None, success: false, timestamp: None }
}

#[test]
fn latency_class_thresholds() {
    assert_eq!(latency_class(0), LatencyClass::Fast);
    assert_eq!(latency_class(1999), LatencyClass::Fast);
    assert_eq!(latency_class(2000), LatencyClass::Moderate);
    assert_eq!(latency_class(4999), LatencyClass::Moderate);
    assert_eq!(latency_class(5000), LatencyClass::Elevated);
    assert_eq!(latency_class(9999), LatencyClass::Elevated);
    assert_eq!(latency_class(10000), LatencyClass::High);
}

#[test]
fn bar_is_proportional_and_capped() {
    // Half the scale fills half the bar.
    let (fill, empty) = bar_widths(2500, 5000, BAR_WIDTH);
    assert_eq!((fill, empty), (20, 20));
    // Beyond the scale the bar is full.
    let (fill, empty) = bar_widths(10000, 5000, BAR_WIDTH);
    assert_eq!((fill, empty), (40, 0));
    // Zero stays empty.
    let (fill, empty) = bar_widths(0, 5000, BAR_WIDTH);
    assert_eq!((fill, empty), (0, 40));
}

#[test]
fn histogram_buckets_and_sum() {
    // 5, 9.99, 15, 30, 70, 200 ms: buckets [0,10), [10,20), [20,50),
    // [50,100), [100,inf) get 2, 1, 1, 1, 1.
    let times = vec![500u64, 999, 1500, 3000, 7000, 20000];
    let counts = histogram_counts(&times);
    assert_eq!(counts, vec![2, 1, 1, 1, 1]);
    let total: usize = counts.iter().sum();
    assert_eq!(total, times.len());
}

#[test]
fn histogram_bucket_boundaries() {
    // Boundary values land in the upper bucket.
    let times = vec![1000u64, 2000, 5000, 10000];
    let counts = histogram_counts(&times);
    assert_eq!(counts, vec![0, 1, 1, 1, 1]);
}

#[test]
fn histogram_of_no_successes_is_empty() {
    let times: Vec<u64> = vec![];
    let counts = histogram_counts(&times);
    assert_eq!(counts, vec![0, 0, 0, 0, 0]);
}

#[test]
fn histogram_bar_and_percentage() {
    // 2 of 6: 33.333... % gives a 16-character bar and 33.3 %.
    assert_eq!(histogram_bar_len(2, 6), 16);
    assert_eq!(percent_tenths(2, 6), 333);
    // All in one bucket: full bar, 100.0 %.
    assert_eq!(histogram_bar_len(6, 6), 50);
    assert_eq!(percent_tenths(6, 6), 1000);
}

#[test]
fn line_graph_needs_a_success() {
    let results = vec![timeout(0), timeout(1)];
    assert!(line_graph_grid(&results).is_none());
}

#[test]
fn line_graph_flat_range_uses_centre_row() {
    let results = vec![success(0, 1000)];
    let grid = line_graph_grid(&results).unwrap();
    assert_eq!(grid.len(), GRAPH_HEIGHT);
    for row in &grid {
        assert_eq!(row.len(), 1);
    }
    for (r, row) in grid.iter().enumerate() {
        if r < 4 {
            assert_eq!(row[0], ' ');
        } else if r == 4 {
            assert_eq!(row[0], '\u{25CF}');
        } else {
            assert_eq!(row[0], '\u{2502}');
        }
    }
}

#[test]
fn line_graph_marks_timeouts_at_bottom() {
    let results = vec![success(0, 1000), timeout(1)];
    let grid = line_graph_grid(&results).unwrap();
    for r in 0..GRAPH_HEIGHT - 1 {
        assert_eq!(grid[r][1], ' ');
    }
    assert_eq!(grid[GRAPH_HEIGHT - 1][1], '\u{2717}');
}

#[test]
fn line_graph_normalises_between_extremes() {
    // 10 ms sits on the bottom row, 20 ms on the top row, with the
    // vertical fill below the top marker.
    let results = vec![success(0, 1000), success(1, 2000)];
    let grid = line_graph_grid(&results).unwrap();
    assert_eq!(grid[9][0], '\u{25CF}');
    for r in 0..9 {
        assert_eq!(grid[r][0], ' ');
    }
    assert_eq!(grid[0][1], '\u{25CF}');
    for r in 1..10 {
        assert_eq!(grid[r][1], '\u{2502}');
    }
}

#[test]
fn line_graph_width_is_capped_at_sixty() {
    let mut results = Vec::new();
    for i in 0..70u32 {
        results.push(success(i, 1000 + (i as u64) * 10));
    }
    let grid = line_graph_grid(&results).unwrap();
    for row in &grid {
        assert_eq!(row.len(), 60);
    }
}

#[test]
fn sequence_axis_marks_every_fifth_column() {
    assert_eq!(x_axis_labels(12), "0    5    0 ");
    assert_eq!(x_axis_labels(0), "");
    assert_eq!(x_axis_labels(1), "0");
}

#[test]
fn axis_labels_step_from_max_to_min() {
    // 10 to 20 ms: the top row reads 20.0, the bottom row 10.0.
    assert_eq!(graph_axis_label_tenths(1000, 2000, 0), 200);
    assert_eq!(graph_axis_label_tenths(1000, 2000, 9), 100);
    // 9 * 2000 - 5 * 1000 = 13000 hundredths over 90: 144.4 rounds to 144.
    assert_eq!(graph_axis_label_tenths(1000, 2000, 5), 144);
    // A flat range shows the same label on every row.
    assert_eq!(graph_axis_label_tenths(1500, 1500, 0), 150);
    assert_eq!(graph_axis_label_tenths(1500, 1500, 9), 150);
}

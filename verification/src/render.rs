//! Read-only projections of one result sequence: the live proportional
//! bar, the post-run line graph grid, and the latency histogram.
//!
//! None of these mutates the run or triggers new probes; each is a pure
//! function of the results handed in, so repeated calls on the same input
//! yield the same view.

use vstd::prelude::*;
use crate::probe::{
    lemma_successful_rtt_present, lemma_successful_rtts_bounded, successful_rtts, ProbeResult,
};
use crate::stats::{
    lemma_min_max_element, lemma_rounded_div_bounds, rounded_div, seq_max, seq_min, vec_max,
    vec_min, MAX_RTT_HUNDREDTHS,
};

verus! {

/// Latency severity of one round-trip time, in hundredths of a
/// millisecond: below 20 ms, below 50 ms, below 100 ms, or at least
/// 100 ms.
#[derive(Clone, Copy, Debug, PartialEq, Eq, Structural)]
pub enum LatencyClass {
    Fast,
    Moderate,
    Elevated,
    High,
}

/// The severity class of `rtt_hundredths`.
pub open spec fn spec_latency_class(rtt_hundredths: u64) -> LatencyClass {
    if rtt_hundredths < 2000 {
        LatencyClass::Fast
    } else if rtt_hundredths < 5000 {
        LatencyClass::Moderate
    } else if rtt_hundredths < 10000 {
        LatencyClass::Elevated
    } else {
        LatencyClass::High
    }
}

/// Classifies a round-trip time for colouring.
pub fn latency_class(rtt_hundredths: u64) -> (c: LatencyClass)
    ensures
        c == spec_latency_class(rtt_hundredths),
{
    if rtt_hundredths < 2000 {
        LatencyClass::Fast
    } else if rtt_hundredths < 5000 {
        LatencyClass::Moderate
    } else if rtt_hundredths < 10000 {
        LatencyClass::Elevated
    } else {
        LatencyClass::High
    }
}

/// Width of the live proportional bar, in characters.
pub const BAR_WIDTH: usize = 40;

/// Filled length of a proportional bar: `rtt * width / max_rtt`, capped
/// at `width`.
pub open spec fn spec_bar_fill(rtt: int, max_rtt: int, width: int) -> int
    recommends
        max_rtt >= 1,
{
    if rtt * width / max_rtt > width {
        width
    } else {
        rtt * width / max_rtt
    }
}

/// Computes the filled and empty lengths of the proportional bar for
/// `rtt_hundredths` under the scale `max_hundredths`.
pub fn bar_widths(rtt_hundredths: u64, max_hundredths: u64, width: usize) -> (r: (usize, usize))
    requires
        max_hundredths >= 1,
        rtt_hundredths <= MAX_RTT_HUNDREDTHS,
        width <= 1000,
    ensures
        r.0 == spec_bar_fill(rtt_hundredths as int, max_hundredths as int, width as int),
        r.0 + r.1 == width,
{
    proof {
        assert((rtt_hundredths as int) * (width as int) <= (MAX_RTT_HUNDREDTHS as int) * 1000)
            by (nonlinear_arith)
            requires
                0 <= rtt_hundredths <= MAX_RTT_HUNDREDTHS,
                0 <= width as int <= 1000,
        ;
    }
    let scaled = rtt_hundredths * (width as u64);
    let fill128 = (scaled as u128) / (max_hundredths as u128);
    let fill: usize = if fill128 > width as u128 {
        width
    } else {
        fill128 as usize
    };
    (fill, width - fill)
}

/// Lower bounds of the five histogram buckets, in hundredths of a
/// millisecond: up to 10 ms, 10 to 20 ms, 20 to 50 ms, 50 to 100 ms, and
/// 100 ms or more.
pub open spec fn bucket_of(t: u64) -> int {
    if t < 1000 {
        0
    } else if t < 2000 {
        1
    } else if t < 5000 {
        2
    } else if t < 10000 {
        3
    } else {
        4
    }
}

/// How many elements of `times` fall in bucket `b`.
pub open spec fn bucket_count(times: Seq<u64>, b: int) -> int
    decreases times.len(),
{
    if times.len() == 0 {
        0
    } else {
        bucket_count(times.drop_last(), b) + if bucket_of(times.last()) == b {
            1int
        } else {
            0int
        }
    }
}

/// The five bucket counts together cover each element exactly once: they
/// sum to the number of successful probes.
pub proof fn lemma_bucket_counts_sum(times: Seq<u64>)
    ensures
        bucket_count(times, 0) + bucket_count(times, 1) + bucket_count(times, 2) + bucket_count(
            times,
            3,
        ) + bucket_count(times, 4) == times.len(),
    decreases times.len(),
{
    if times.len() > 0 {
        lemma_bucket_counts_sum(times.drop_last());
    }
}

/// Counts the successful round-trip times in each of the five latency
/// buckets.  The counts sum to the number of times handed in.
pub fn histogram_counts(times: &Vec<u64>) -> (counts: Vec<usize>)
    ensures
        counts@.len() == 5,
        forall|b: int| 0 <= b < 5 ==> #[trigger] counts@[b] == bucket_count(times@, b),
        counts@[0] + counts@[1] + counts@[2] + counts@[3] + counts@[4] == times@.len(),
{
    let mut counts: Vec<usize> = Vec::new();
    counts.push(0);
    counts.push(0);
    counts.push(0);
    counts.push(0);
    counts.push(0);
    let mut i: usize = 0;
    proof {
        assert(times@.take(0) =~= Seq::<u64>::empty());
    }
    while i < times.len()
        invariant
            0 <= i <= times@.len(),
            counts@.len() == 5,
            forall|b: int|
                0 <= b < 5 ==> #[trigger] counts@[b] == bucket_count(times@.take(i as int), b),
            forall|b: int| 0 <= b < 5 ==> #[trigger] counts@[b] <= i,
        decreases times@.len() - i,
    {
        proof {
            assert(times@.take(i + 1).drop_last() =~= times@.take(i as int));
            assert(times@.take(i + 1).last() == times@[i as int]);
        }
        let t = times[i];
        let b: usize = if t < 1000 {
            0
        } else if t < 2000 {
            1
        } else if t < 5000 {
            2
        } else if t < 10000 {
            3
        } else {
            4
        };
        let c = counts[b];
        counts[b] = c + 1;
        i = i + 1;
    }
    proof {
        assert(times@.take(times@.len() as int) =~= times@);
        lemma_bucket_counts_sum(times@);
    }
    counts
}

/// Length of a histogram bar: half the bucket's percentage of the total,
/// truncated, so a full-width bar stands for 100 %.
pub fn histogram_bar_len(count: usize, total: usize) -> (len: usize)
    requires
        total >= 1,
        count <= total,
    ensures
        len == count * 50 / (total as int),
        len <= 50,
{
    let len128 = (count as u128) * 50 / (total as u128);
    proof {
        assert(count * 50 / (total as int) <= 50) by (nonlinear_arith)
            requires
                1 <= total as int,
                0 <= count <= total as int,
        ;
    }
    len128 as usize
}

/// A bucket's share of the total in tenths of a percent, rounded half up.
pub fn percent_tenths(count: usize, total: usize) -> (p: usize)
    requires
        total >= 1,
        count <= total,
        total <= 0xFFFF_FFFF,
    ensures
        p == rounded_div(count * 1000, total as int),
        p <= 1000,
{
    let a = (count as u64) * 1000;
    let t = total as u64;
    proof {
        assert(count * 1000 <= 1000 * (total as int)) by (nonlinear_arith)
            requires
                0 <= count <= total as int,
        ;
        lemma_rounded_div_bounds(count as int * 1000, total as int, 1000);
    }
    ((2 * a + t) / (2 * t)) as usize
}

/// Number of rows of the post-run line graph.
pub const GRAPH_HEIGHT: usize = 10;

/// Largest number of result columns the post-run line graph shows.
pub const GRAPH_MAX_WIDTH: usize = 60;

/// The row a successful round-trip time is plotted on: 0 is the top.
/// With a flat range every point sits on the centre row; otherwise the
/// value is normalised linearly between the observed extremes.
pub open spec fn spec_graph_row(rtt: int, min_rtt: int, max_rtt: int) -> int
    recommends
        min_rtt <= rtt <= max_rtt,
{
    if max_rtt > min_rtt {
        let normalized = (rtt - min_rtt) * 9 / (max_rtt - min_rtt);
        if normalized > 9 {
            0
        } else {
            9 - normalized
        }
    } else {
        GRAPH_HEIGHT as int - 1 - GRAPH_HEIGHT as int / 2
    }
}

/// The character of one line-graph cell: a marker on the plotted row, a
/// vertical fill below it, a timeout mark on the bottom row, blank
/// elsewhere.
pub open spec fn spec_graph_cell(r: ProbeResult, min_rtt: int, max_rtt: int, row: int) -> char {
    match r.rtt_hundredths {
        Some(rtt) => {
            let plotted = spec_graph_row(rtt as int, min_rtt, max_rtt);
            if row == plotted {
                '\u{25CF}'
            } else if row > plotted {
                '\u{2502}'
            } else {
                ' '
            }
        },
        None => if row == GRAPH_HEIGHT as int - 1 {
            '\u{2717}'
        } else {
            ' '
        },
    }
}

/// Computes one cell of the line graph.
fn graph_cell(r: &ProbeResult, min_rtt: u64, max_rtt: u64, row: usize) -> (c: char)
    requires
        r.rtt_hundredths matches Some(rtt) ==> min_rtt <= rtt && rtt <= max_rtt,
        max_rtt <= MAX_RTT_HUNDREDTHS,
    ensures
        c == spec_graph_cell(*r, min_rtt as int, max_rtt as int, row as int),
{
    match r.rtt_hundredths {
        Some(rtt) => {
            let plotted: usize = if max_rtt > min_rtt {
                let normalized = (rtt - min_rtt) * 9 / (max_rtt - min_rtt);
                if normalized > 9 {
                    0
                } else {
                    9 - (normalized as usize)
                }
            } else {
                GRAPH_HEIGHT - 1 - GRAPH_HEIGHT / 2
            };
            if row == plotted {
                '\u{25CF}'
            } else if row > plotted {
                '\u{2502}'
            } else {
                ' '
            }
        },
        None => {
            if row == GRAPH_HEIGHT - 1 {
                '\u{2717}'
            } else {
                ' '
            }
        },
    }
}

/// Renders the post-run line graph as a grid of characters, ten rows
/// high and one column per result, at most sixty.  Succeeded results are
/// plotted between the observed extremes with a fill down to the axis;
/// timeouts are marked on the bottom row.  Yields nothing when no probe
/// succeeded.
pub fn line_graph_grid(results: &Vec<ProbeResult>) -> (grid: Option<Vec<Vec<char>>>)
    requires
        forall|i: int|
            0 <= i < results@.len() ==> ((#[trigger] results@[i]).rtt_hundredths matches Some(rtt)
                ==> rtt <= MAX_RTT_HUNDREDTHS),
    ensures
        grid is Some <==> successful_rtts(results@).len() > 0,
        grid matches Some(g) ==> {
            let width = if results@.len() > 60 {
                60int
            } else {
                results@.len() as int
            };
            let min_rtt = seq_min(successful_rtts(results@));
            let max_rtt = seq_max(successful_rtts(results@));
            &&& g@.len() == GRAPH_HEIGHT
            &&& forall|r: int| 0 <= r < GRAPH_HEIGHT ==> (#[trigger] g@[r])@.len() == width
            &&& forall|r: int, c: int|
                0 <= r < GRAPH_HEIGHT && 0 <= c < width ==> (#[trigger] g@[r]@[c])
                    == spec_graph_cell(results@[c], min_rtt as int, max_rtt as int, r)
        },
{
    let mut times: Vec<u64> = Vec::new();
    let mut i: usize = 0;
    proof {
        assert(results@.take(0) =~= Seq::<ProbeResult>::empty());
    }
    while i < results.len()
        invariant
            0 <= i <= results@.len(),
            times@ == successful_rtts(results@.take(i as int)),
        decreases results@.len() - i,
    {
        proof {
            assert(results@.take(i + 1).drop_last() =~= results@.take(i as int));
            assert(results@.take(i + 1).last() == results@[i as int]);
        }
        match results[i].rtt_hundredths {
            Some(rtt) => times.push(rtt),
            None => (),
        }
        i = i + 1;
    }
    proof {
        assert(results@.take(results@.len() as int) =~= results@);
    }
    if times.len() == 0 {
        return None;
    }
    let min_rtt = vec_min(&times);
    let max_rtt = vec_max(&times);
    proof {
        lemma_successful_rtts_bounded(results@, MAX_RTT_HUNDREDTHS);
        crate::stats::lemma_extremes_present(times@);
        let kmax = choose|k: int| 0 <= k < times@.len() && times@[k] == seq_max(times@);
        assert(successful_rtts(results@)[kmax] <= MAX_RTT_HUNDREDTHS);
    }
    let width = if results.len() > GRAPH_MAX_WIDTH {
        GRAPH_MAX_WIDTH
    } else {
        results.len()
    };
    let mut grid: Vec<Vec<char>> = Vec::new();
    let mut row: usize = 0;
    while row < GRAPH_HEIGHT
        invariant
            0 <= row <= GRAPH_HEIGHT,
            grid@.len() == row,
            width == if results@.len() > 60 {
                60int
            } else {
                results@.len() as int
            },
            min_rtt == seq_min(successful_rtts(results@)),
            max_rtt == seq_max(successful_rtts(results@)),
            max_rtt <= MAX_RTT_HUNDREDTHS,
            times@ == successful_rtts(results@),
            forall|i2: int|
                0 <= i2 < results@.len() ==> ((#[trigger] results@[i2]).rtt_hundredths matches Some(
                    rtt,
                ) ==> rtt <= MAX_RTT_HUNDREDTHS),
            forall|r: int| 0 <= r < row ==> (#[trigger] grid@[r])@.len() == width,
            forall|r: int, c: int|
                0 <= r < row && 0 <= c < width ==> (#[trigger] grid@[r]@[c]) == spec_graph_cell(
                    results@[c],
                    min_rtt as int,
                    max_rtt as int,
                    r,
                ),
        decreases GRAPH_HEIGHT - row,
    {
        let mut line: Vec<char> = Vec::new();
        let mut col: usize = 0;
        while col < width
            invariant
                0 <= col <= width < results@.len() + 1,
                line@.len() == col,
                min_rtt == seq_min(successful_rtts(results@)),
                max_rtt == seq_max(successful_rtts(results@)),
                max_rtt <= MAX_RTT_HUNDREDTHS,
                times@ == successful_rtts(results@),
                forall|i2: int|
                    0 <= i2 < results@.len() ==> ((#[trigger] results@[i2]).rtt_hundredths
                        matches Some(rtt) ==> rtt <= MAX_RTT_HUNDREDTHS),
                forall|c: int|
                    0 <= c < col ==> (#[trigger] line@[c]) == spec_graph_cell(
                        results@[c],
                        min_rtt as int,
                        max_rtt as int,
                        row as int,
                    ),
            decreases width - col,
        {
            proof {
                if results@[col as int].rtt_hundredths is Some {
                    lemma_successful_rtt_present(results@, col as int);
                    let rtt = results@[col as int].rtt_hundredths->0;
                    let j = choose|j: int|
                        0 <= j < times@.len() && times@[j] == rtt;
                    lemma_min_max_element(times@, j);
                }
            }
            let cell = graph_cell(&results[col], min_rtt, max_rtt, row);
            line.push(cell);
            col = col + 1;
        }
        grid.push(line);
        row = row + 1;
    }
    Some(grid)
}

/// The sequence-axis legend under the line graph: every fifth column
/// shows its index's last digit, the rest stay blank.
pub fn x_axis_labels(width: usize) -> (s: String)
    ensures
        s@.len() == width,
        forall|i: int|
            0 <= i < width ==> s@[i] == (if i % 5 == 0 {
                crate::textfmt::digit_char(i % 10)
            } else {
                ' '
            }),
{
    let mut s = String::new();
    let mut i: usize = 0;
    proof {
        reveal_strlit(" ");
    }
    while i < width
        invariant
            0 <= i <= width,
            s@.len() == i,
            forall|j: int|
                0 <= j < i ==> s@[j] == (if j % 5 == 0 {
                    crate::textfmt::digit_char(j % 10)
                } else {
                    ' '
                }),
        decreases width - i,
    {
        if i % 5 == 0 {
            s.append(crate::textfmt::digit_str((i % 10) as u64));
        } else {
            s.append(" ");
            proof {
                reveal_strlit(" ");
                assert(" "@ =~= seq![' ']);
            }
        }
        i = i + 1;
    }
    s
}

/// The label of graph row `i`, in tenths of a millisecond: the observed
/// maximum at the top row, stepping linearly down to the minimum, each
/// rounded half up.
pub fn graph_axis_label_tenths(min_rtt: u64, max_rtt: u64, i: usize) -> (label: u64)
    requires
        min_rtt <= max_rtt <= MAX_RTT_HUNDREDTHS,
        i < GRAPH_HEIGHT,
    ensures
        label == rounded_div(9 * (max_rtt as int) - (i as int) * ((max_rtt - min_rtt) as int), 90),
{
    let span = max_rtt - min_rtt;
    proof {
        assert((i as int) * (span as int) <= 9 * (span as int)) by (nonlinear_arith)
            requires
                0 <= i as int <= 9,
                span >= 0,
        ;
        assert(9 * (max_rtt as int) - (i as int) * (span as int) >= 0);
    }
    let a = 9 * max_rtt - (i as u64) * span;
    (2 * a + 90) / 180
}

} // verus!

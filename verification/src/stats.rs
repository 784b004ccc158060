//! Statistics derived from the successful round-trip times of one run.
//!
//! Round-trip times are integers counting hundredths of a millisecond, so
//! every value reported at two decimal places is exact.  The mean rounds
//! half up; the standard deviation is the rounded quotient of the integer
//! square root of the population-variance numerator
//! `n * sum_of_squares - sum * sum` by `n`; the loss percentage is carried
//! in hundredths of a percent.

use vstd::prelude::*;
use vstd::arithmetic::div_mod::{lemma_basic_div, lemma_fundamental_div_mod};

verus! {

/// Largest round-trip time the statistics accept, in hundredths of a
/// millisecond (ten million milliseconds): keeps every intermediate
/// product inside 128 bits.
pub const MAX_RTT_HUNDREDTHS: u64 = 1_000_000_000;

/// Sum of the elements of `s`.
pub open spec fn sum(s: Seq<u64>) -> int
    decreases s.len(),
{
    if s.len() == 0 {
        0
    } else {
        sum(s.drop_last()) + s.last()
    }
}

/// Sum of the squared elements of `s`.
pub open spec fn sum_sq(s: Seq<u64>) -> int
    decreases s.len(),
{
    if s.len() == 0 {
        0
    } else {
        sum_sq(s.drop_last()) + s.last() * s.last()
    }
}

/// Smallest element of a non-empty sequence.
pub open spec fn seq_min(s: Seq<u64>) -> u64
    recommends
        s.len() > 0,
    decreases s.len(),
{
    if s.len() <= 1 {
        s[0]
    } else if s.last() < seq_min(s.drop_last()) {
        s.last()
    } else {
        seq_min(s.drop_last())
    }
}

/// Largest element of a non-empty sequence.
pub open spec fn seq_max(s: Seq<u64>) -> u64
    recommends
        s.len() > 0,
    decreases s.len(),
{
    if s.len() <= 1 {
        s[0]
    } else if s.last() > seq_max(s.drop_last()) {
        s.last()
    } else {
        seq_max(s.drop_last())
    }
}

/// Quotient of `a` by `b`, rounded half up.
pub open spec fn rounded_div(a: int, b: int) -> int
    recommends
        b >= 1,
{
    (2 * a + b) / (2 * b)
}

/// Largest integer whose square does not exceed `x`.
pub open spec fn spec_isqrt(x: nat) -> nat
    decreases x,
{
    if x == 0 {
        0
    } else {
        let r = spec_isqrt((x - 1) as nat);
        if (r + 1) * (r + 1) <= x {
            (r + 1) as nat
        } else {
            r
        }
    }
}

/// Numerator of the population variance scaled by `n * n`:
/// `n * sum_of_squares - sum * sum`.
pub open spec fn variance_numerator(s: Seq<u64>) -> int {
    s.len() * sum_sq(s) - sum(s) * sum(s)
}

/// Mean of `s` in hundredths of a millisecond, rounded half up.
pub open spec fn spec_mean(s: Seq<u64>) -> int
    recommends
        s.len() > 0,
{
    rounded_div(sum(s), s.len() as int)
}

/// Population standard deviation of `s` in hundredths of a millisecond:
/// `isqrt(n * sum_sq - sum^2)` divided by `n`, rounded half up.
pub open spec fn spec_std_dev(s: Seq<u64>) -> int
    recommends
        s.len() > 0,
{
    rounded_div(spec_isqrt(variance_numerator(s) as nat) as int, s.len() as int)
}

/// Loss percentage in hundredths of a percent, rounded half up.
pub open spec fn spec_loss_centipercent(successes: int, total: int) -> int
    recommends
        total >= 1,
        0 <= successes <= total,
{
    rounded_div((total - successes) * 10000, total)
}

/// Statistics of one run: round-trip figures in hundredths of a
/// millisecond (absent when no probe succeeded), packet counts, and the
/// loss percentage in hundredths of a percent.
#[derive(Clone, Copy, Debug, PartialEq, Eq)]
pub struct Statistics {
    pub min_hundredths: Option<u64>,
    pub max_hundredths: Option<u64>,
    pub mean_hundredths: Option<u64>,
    pub std_dev_hundredths: Option<u64>,
    pub packets_sent: u32,
    pub packets_received: u32,
    pub packets_lost: u32,
    pub loss_centipercent: u32,
}

/// The statistics owed for `times` successful round-trip times out of
/// `total` attempted probes.
pub open spec fn spec_statistics(times: Seq<u64>, total: u32) -> Statistics
    recommends
        total >= 1,
        times.len() <= total,
{
    Statistics {
        min_hundredths: if times.len() == 0 {
            None
        } else {
            Some(seq_min(times))
        },
        max_hundredths: if times.len() == 0 {
            None
        } else {
            Some(seq_max(times))
        },
        mean_hundredths: if times.len() == 0 {
            None
        } else {
            Some(spec_mean(times) as u64)
        },
        std_dev_hundredths: if times.len() == 0 {
            None
        } else {
            Some(spec_std_dev(times) as u64)
        },
        packets_sent: total,
        packets_received: times.len() as u32,
        packets_lost: (total - times.len()) as u32,
        loss_centipercent: spec_loss_centipercent(times.len() as int, total as int) as u32,
    }
}

/// A sum of squares is never negative.
proof fn lemma_sum_sq_nonneg(s: Seq<u64>)
    ensures
        sum_sq(s) >= 0,
    decreases s.len(),
{
    if s.len() > 0 {
        lemma_sum_sq_nonneg(s.drop_last());
        let t = s.last() as int;
        assert(t * t >= 0) by (nonlinear_arith)
            requires
                t >= 0,
        ;
    }
}

/// A sum of elements is bounded by the extremes: `n * min <= sum <= n * max`.
proof fn lemma_sum_bounds(s: Seq<u64>)
    requires
        s.len() > 0,
    ensures
        s.len() * seq_min(s) <= sum(s) <= s.len() * seq_max(s),
    decreases s.len(),
{
    if s.len() == 1 {
        assert(sum(s) == sum(s.drop_last()) + s.last());
        assert(s.drop_last().len() == 0);
    } else {
        let s0 = s.drop_last();
        let t = s.last();
        lemma_sum_bounds(s0);
        let n0 = s0.len() as int;
        assert(n0 * seq_min(s0) <= sum(s0) <= n0 * seq_max(s0));
        assert((n0 + 1) * seq_min(s) <= sum(s0) + t && sum(s0) + t <= (n0 + 1) * seq_max(s))
            by (nonlinear_arith)
            requires
                n0 >= 1,
                n0 * seq_min(s0) <= sum(s0) <= n0 * seq_max(s0),
                seq_min(s) <= seq_min(s0),
                seq_min(s) <= t,
                seq_max(s) >= seq_max(s0),
                seq_max(s) >= t,
                (seq_min(s) == seq_min(s0) || seq_min(s) == t),
                (seq_max(s) == seq_max(s0) || seq_max(s) == t),
        ;
    }
}

/// The variance numerator `n * sum_sq - sum^2` is never negative.
proof fn lemma_variance_numerator_nonneg(s: Seq<u64>)
    ensures
        variance_numerator(s) >= 0,
    decreases s.len(),
{
    if s.len() == 0 {
    } else {
        let s0 = s.drop_last();
        let t = s.last() as int;
        lemma_variance_numerator_nonneg(s0);
        let n = s0.len() as int;
        let sm = sum(s0);
        let q = sum_sq(s0);
        if n == 0 {
            assert(sum(s) == t && sum_sq(s) == t * t);
        } else {
            assert(sm >= 0) by {
                lemma_sum_bounds(s0);
                assert(n * seq_min(s0) >= 0) by (nonlinear_arith)
                    requires
                        n >= 0,
                        seq_min(s0) >= 0,
                ;
            };
            // (sm - n*t)^2 >= 0 gives sm^2 + n^2 t^2 >= 2 sm n t; together
            // with n*q >= sm^2 this yields q + n t^2 >= 2 sm t, and the
            // claim follows by expanding (n+1)(q + t^2) - (sm + t)^2.
            assert((n + 1) * (q + t * t) - (sm + t) * (sm + t) >= 0) by (nonlinear_arith)
                requires
                    n >= 1,
                    t >= 0,
                    sm >= 0,
                    n * q >= sm * sm,
            ;
            assert(sum(s) == sm + t);
            assert(sum_sq(s) == q + t * t);
        }
    }
}

/// `spec_isqrt` is the integer square root: its square is the largest
/// square not exceeding the argument.
proof fn lemma_isqrt_props(x: nat)
    ensures
        spec_isqrt(x) * spec_isqrt(x) <= x,
        (spec_isqrt(x) + 1) * (spec_isqrt(x) + 1) > x,
    decreases x,
{
    if x == 0 {
        assert(spec_isqrt(x) == 0);
        assert(spec_isqrt(x) * spec_isqrt(x) <= x
            && (spec_isqrt(x) + 1) * (spec_isqrt(x) + 1) > x) by (nonlinear_arith)
            requires
                spec_isqrt(x) == 0,
                x == 0,
        ;
    } else {
        lemma_isqrt_props((x - 1) as nat);
        let r0 = spec_isqrt((x - 1) as nat);
        if (r0 + 1) * (r0 + 1) <= x {
            assert(spec_isqrt(x) == r0 + 1);
            assert(spec_isqrt(x) * spec_isqrt(x) <= x
                && (spec_isqrt(x) + 1) * (spec_isqrt(x) + 1) > x) by (nonlinear_arith)
                requires
                    spec_isqrt(x) == r0 + 1,
                    r0 >= 0,
                    x - 1 < (r0 + 1) * (r0 + 1),
                    (r0 + 1) * (r0 + 1) <= x,
            ;
        } else {
            assert(spec_isqrt(x) == r0);
            assert(spec_isqrt(x) * spec_isqrt(x) <= x
                && (spec_isqrt(x) + 1) * (spec_isqrt(x) + 1) > x) by (nonlinear_arith)
                requires
                    spec_isqrt(x) == r0,
                    r0 * r0 <= x - 1,
                    x < (r0 + 1) * (r0 + 1),
            ;
        }
    }
}

/// The rounded quotient of `a` by `b` lies between 0 and `c` whenever
/// `0 <= a <= c * b`.
pub proof fn lemma_rounded_div_bounds(a: int, b: int, c: int)
    requires
        b >= 1,
        c >= 0,
        0 <= a <= c * b,
    ensures
        0 <= rounded_div(a, b) <= c,
{
    let q = rounded_div(a, b);
    lemma_fundamental_div_mod(2 * a + b, 2 * b);
    assert(q >= 0 && q <= c) by (nonlinear_arith)
        requires
            b >= 1,
            c >= 0,
            0 <= a <= c * b,
            2 * a + b == (2 * b) * q + (2 * a + b) % (2 * b),
            0 <= (2 * a + b) % (2 * b) < 2 * b,
    ;
}

/// Rounded division, computed on 128-bit integers.
fn rounded_div_u128(a: u128, b: u128) -> (r: u128)
    requires
        b >= 1,
        2 * a + b <= u128::MAX,
        2 * b <= u128::MAX,
    ensures
        r == rounded_div(a as int, b as int),
{
    (2 * a + b) / (2 * b)
}

/// Integer square root on 128 bits, by bisection.
fn isqrt_u128(x: u128) -> (r: u128)
    ensures
        r == spec_isqrt(x as nat),
        r * r <= x,
        (r + 1) * (r + 1) > x,
{
    let mut lo: u128 = 0;
    let mut hi: u128 = 1u128 << 64;
    proof {
        assert((1u128 << 64) == 0x10000000000000000) by (bit_vector);
    }
    while lo + 1 < hi
        invariant
            lo < hi <= 0x10000000000000000,
            lo * lo <= x,
            hi * hi > x,
        decreases hi - lo,
    {
        let mid = lo + (hi - lo) / 2;
        assert(lo < mid < hi);
        assert(mid * mid <= u128::MAX) by (nonlinear_arith)
            requires
                mid < 0x10000000000000000,
        ;
        if mid * mid <= x {
            lo = mid;
        } else {
            hi = mid;
        }
    }
    proof {
        lemma_isqrt_props(x as nat);
        let s = spec_isqrt(x as nat);
        assert(lo == s) by (nonlinear_arith)
            requires
                lo >= 0,
                s >= 0,
                lo * lo <= x,
                (lo + 1) * (lo + 1) > x,
                s * s <= x,
                (s + 1) * (s + 1) > x,
        ;
    }
    lo
}

/// Computes the statistics for `times` successful round-trip times out of
/// `total` attempted probes.
///
/// The result is exactly `spec_statistics(times@, total)`; in particular
/// the packet counts always satisfy `sent == received + lost`, the loss
/// percentage is 0 when every probe succeeded and 100 when none did, and
/// every round-trip figure is absent exactly when no probe succeeded.
pub fn calculate_statistics(times: &Vec<u64>, total: u32) -> (s: Statistics)
    requires
        total >= 1,
        times@.len() <= total,
        forall|i: int| 0 <= i < times@.len() ==> times@[i] <= MAX_RTT_HUNDREDTHS,
    ensures
        s == spec_statistics(times@, total),
        s.packets_sent == total,
        s.packets_received == times@.len(),
        s.packets_lost == total - times@.len(),
        s.packets_sent == s.packets_received + s.packets_lost,
        times@.len() == total ==> s.loss_centipercent == 0,
        times@.len() == 0 ==> s.loss_centipercent == 10000,
        times@.len() == 0 <==> s.min_hundredths is None,
        times@.len() == 0 <==> s.max_hundredths is None,
        times@.len() == 0 <==> s.mean_hundredths is None,
        times@.len() == 0 <==> s.std_dev_hundredths is None,
{
    let n = times.len();
    let received = n as u32;
    let lost = total - received;
    let loss128 = rounded_div_u128((lost as u128) * 10000, total as u128);
    proof {
        lemma_rounded_div_bounds(lost as int * 10000, total as int, 10000);
        assert(lost as int * 10000 <= 10000 * total as int);
        if n == total {
            assert(rounded_div(0, total as int) == 0) by {
                lemma_basic_div(total as int, 2 * total as int);
            };
        }
        if n == 0 {
            assert(rounded_div(total as int * 10000, total as int) == 10000) by {
                let t = total as int;
                lemma_fundamental_div_mod(2 * (t * 10000) + t, 2 * t);
                assert((2 * (t * 10000) + t) / (2 * t) == 10000) by (nonlinear_arith)
                    requires
                        t >= 1,
                        2 * (t * 10000) + t == (2 * t) * ((2 * (t * 10000) + t) / (2 * t))
                            + (2 * (t * 10000) + t) % (2 * t),
                        0 <= (2 * (t * 10000) + t) % (2 * t) < 2 * t,
                ;
            };
        }
    }
    let loss = loss128 as u32;
    if n == 0 {
        return Statistics {
            min_hundredths: None,
            max_hundredths: None,
            mean_hundredths: None,
            std_dev_hundredths: None,
            packets_sent: total,
            packets_received: received,
            packets_lost: lost,
            loss_centipercent: loss,
        };
    }
    let t0 = times[0];
    proof {
        assert((t0 as int) * (t0 as int) <= (MAX_RTT_HUNDREDTHS as int)
            * (MAX_RTT_HUNDREDTHS as int)) by (nonlinear_arith)
            requires
                0 <= t0 <= MAX_RTT_HUNDREDTHS,
        ;
    }
    let mut mn: u64 = t0;
    let mut mx: u64 = t0;
    let mut sm: u64 = t0;
    let mut sq: u128 = (t0 as u128) * (t0 as u128);
    let mut i: usize = 1;
    proof {
        let s1 = times@.take(1);
        assert(s1.len() == 1);
        assert(s1.drop_last() =~= Seq::<u64>::empty());
        assert(s1[0] == times@[0] && s1.last() == times@[0]);
        assert(sum(s1.drop_last()) == 0);
        assert(sum_sq(s1.drop_last()) == 0);
        assert(sum(s1) == t0);
        assert(sum_sq(s1) == (t0 as int) * (t0 as int));
        assert(seq_min(s1) == t0);
        assert(seq_max(s1) == t0);
    }
    while i < n
        invariant
            1 <= i <= n == times@.len() <= u32::MAX,
            forall|j: int| 0 <= j < times@.len() ==> times@[j] <= MAX_RTT_HUNDREDTHS,
            mn == seq_min(times@.take(i as int)),
            mx == seq_max(times@.take(i as int)),
            sm == sum(times@.take(i as int)),
            sq == sum_sq(times@.take(i as int)),
            sm <= i * (MAX_RTT_HUNDREDTHS as int),
            sq <= i * (MAX_RTT_HUNDREDTHS as int) * (MAX_RTT_HUNDREDTHS as int),
        decreases n - i,
    {
        let t = times[i];
        proof {
            assert(times@.take(i + 1).drop_last() =~= times@.take(i as int));
            assert(times@.take(i + 1).last() == times@[i as int]);
            assert((i + 1) * (MAX_RTT_HUNDREDTHS as int) == i * (MAX_RTT_HUNDREDTHS as int)
                + MAX_RTT_HUNDREDTHS) by (nonlinear_arith);
            assert((i + 1) * (MAX_RTT_HUNDREDTHS as int) * (MAX_RTT_HUNDREDTHS as int)
                == i * (MAX_RTT_HUNDREDTHS as int) * (MAX_RTT_HUNDREDTHS as int)
                + (MAX_RTT_HUNDREDTHS as int) * (MAX_RTT_HUNDREDTHS as int)) by (nonlinear_arith);
            assert((t as int) * (t as int) <= (MAX_RTT_HUNDREDTHS as int)
                * (MAX_RTT_HUNDREDTHS as int)) by (nonlinear_arith)
                requires
                    0 <= t <= MAX_RTT_HUNDREDTHS,
            ;
            assert(i * (MAX_RTT_HUNDREDTHS as int) <= 0xFFFFFFFFu64
                * (MAX_RTT_HUNDREDTHS as int)) by (nonlinear_arith)
                requires
                    i <= 0xFFFFFFFFu64,
            ;
            assert(i * (MAX_RTT_HUNDREDTHS as int) * (MAX_RTT_HUNDREDTHS as int)
                <= 0xFFFFFFFFu64 * (MAX_RTT_HUNDREDTHS as int) * (MAX_RTT_HUNDREDTHS as int))
                by (nonlinear_arith)
                requires
                    i <= 0xFFFFFFFFu64,
            ;
        }
        if t < mn {
            mn = t;
        }
        if t > mx {
            mx = t;
        }
        sm = sm + t;
        sq = sq + (t as u128) * (t as u128);
        i = i + 1;
    }
    proof {
        assert(times@.take(n as int) =~= times@);
        lemma_sum_bounds(times@);
        lemma_variance_numerator_nonneg(times@);
        assert((n as int) * sq <= 0xFFFFFFFFu64 * (0xFFFFFFFFu64
            * (MAX_RTT_HUNDREDTHS as int) * (MAX_RTT_HUNDREDTHS as int))) by (nonlinear_arith)
            requires
                0 <= n as int <= 0xFFFFFFFFu64,
                0 <= sq <= 0xFFFFFFFFu64 * (MAX_RTT_HUNDREDTHS as int)
                    * (MAX_RTT_HUNDREDTHS as int),
        ;
    }
    let d = (n as u128) * sq - (sm as u128) * (sm as u128);
    let root = isqrt_u128(d);
    proof {
        // The root is at most the scaled sum, so the rounded quotients fit.
        assert(root * root <= (n as int) * sq);
        assert(root <= (n as int) * (MAX_RTT_HUNDREDTHS as int)) by (nonlinear_arith)
            requires
                root >= 0,
                n >= 1,
                root * root <= (n as int) * sq,
                sq <= (n as int) * (MAX_RTT_HUNDREDTHS as int) * (MAX_RTT_HUNDREDTHS as int),
                n as int <= 0xFFFFFFFFu64,
        ;
        lemma_rounded_div_bounds(root as int, n as int, MAX_RTT_HUNDREDTHS as int);
        assert(sm as int <= seq_max(times@) as int * (n as int)) by (nonlinear_arith)
            requires
                sm as int <= (n as int) * (seq_max(times@) as int),
        ;
        lemma_rounded_div_bounds(sm as int, n as int, seq_max(times@) as int);
    }
    let mean = rounded_div_u128(sm as u128, n as u128) as u64;
    let std_dev = rounded_div_u128(root, n as u128) as u64;
    Statistics {
        min_hundredths: Some(mn),
        max_hundredths: Some(mx),
        mean_hundredths: Some(mean),
        std_dev_hundredths: Some(std_dev),
        packets_sent: total,
        packets_received: received,
        packets_lost: lost,
        loss_centipercent: loss,
    }
}

/// Every element of a non-empty sequence lies between its minimum and its
/// maximum.
pub proof fn lemma_min_max_element(s: Seq<u64>, j: int)
    requires
        0 <= j < s.len(),
    ensures
        seq_min(s) <= s[j] <= seq_max(s),
    decreases s.len(),
{
    if s.len() == 1 {
    } else if j == s.len() - 1 {
        assert(s[j] == s.last());
    } else {
        lemma_min_max_element(s.drop_last(), j);
        assert(s.drop_last()[j] == s[j]);
    }
}

/// The extremes of a non-empty sequence are among its elements.
pub proof fn lemma_extremes_present(s: Seq<u64>)
    requires
        s.len() > 0,
    ensures
        s.contains(seq_min(s)),
        s.contains(seq_max(s)),
    decreases s.len(),
{
    if s.len() == 1 {
        assert(s.contains(s[0])) by {
            assert(s[0] == s[0]);
        };
    } else {
        let prefix = s.drop_last();
        lemma_extremes_present(prefix);
        assert(forall|i: int| 0 <= i < prefix.len() ==> prefix[i] == s[i]);
        let pmin = seq_min(prefix);
        let pmax = seq_max(prefix);
        let kmin = choose|k: int| 0 <= k < prefix.len() && prefix[k] == pmin;
        let kmax = choose|k: int| 0 <= k < prefix.len() && prefix[k] == pmax;
        assert(s[kmin] == pmin && s[kmax] == pmax);
        assert(s[s.len() - 1] == s.last());
        if s.last() < pmin {
            assert(seq_min(s) == s.last());
        } else {
            assert(seq_min(s) == pmin);
        }
        if s.last() > pmax {
            assert(seq_max(s) == s.last());
        } else {
            assert(seq_max(s) == pmax);
        }
    }
}

/// Smallest element of a non-empty vector.
pub fn vec_min(times: &Vec<u64>) -> (m: u64)
    requires
        times@.len() > 0,
    ensures
        m == seq_min(times@),
{
    let mut m: u64 = times[0];
    let mut i: usize = 1;
    proof {
        assert(times@.take(1).len() == 1);
        assert(times@.take(1)[0] == times@[0]);
    }
    while i < times.len()
        invariant
            1 <= i <= times@.len(),
            m == seq_min(times@.take(i as int)),
        decreases times@.len() - i,
    {
        proof {
            assert(times@.take(i + 1).drop_last() =~= times@.take(i as int));
            assert(times@.take(i + 1).last() == times@[i as int]);
        }
        let t = times[i];
        if t < m {
            m = t;
        }
        i = i + 1;
    }
    proof {
        assert(times@.take(times@.len() as int) =~= times@);
    }
    m
}

/// Largest element of a non-empty vector.
pub fn vec_max(times: &Vec<u64>) -> (m: u64)
    requires
        times@.len() > 0,
    ensures
        m == seq_max(times@),
{
    let mut m: u64 = times[0];
    let mut i: usize = 1;
    proof {
        assert(times@.take(1).len() == 1);
        assert(times@.take(1)[0] == times@[0]);
    }
    while i < times.len()
        invariant
            1 <= i <= times@.len(),
            m == seq_max(times@.take(i as int)),
        decreases times@.len() - i,
    {
        proof {
            assert(times@.take(i + 1).drop_last() =~= times@.take(i as int));
            assert(times@.take(i + 1).last() == times@[i as int]);
        }
        let t = times[i];
        if t > m {
            m = t;
        }
        i = i + 1;
    }
    proof {
        assert(times@.take(times@.len() as int) =~= times@);
    }
    m
}

/// Determinism of the statistics: equal inputs yield equal statistics, so
/// two runs of the engine over the same result set agree exactly.
pub proof fn lemma_statistics_deterministic(
    times_a: Seq<u64>,
    times_b: Seq<u64>,
    total_a: u32,
    total_b: u32,
)
    requires
        times_a == times_b,
        total_a == total_b,
    ensures
        spec_statistics(times_a, total_a) == spec_statistics(times_b, total_b),
{
}

} // verus!

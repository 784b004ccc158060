//! The tabular export: a header comment block, one comma-separated row
//! per result with empty fields for absent values, and a statistics
//! section, rendered as one text exactly pinned by its specification.

use vstd::prelude::*;
use crate::probe::ProbeResult;
use crate::stats::Statistics;
use crate::textfmt::{
    bool_to_dec, fixed2_to_dec, spec_bool_str, spec_dec, spec_fixed2, u64_to_dec,
};

verus! {

/// How often `c` occurs in `s`.
pub open spec fn count_char(s: Seq<char>, c: char) -> int
    decreases s.len(),
{
    if s.len() == 0 {
        0
    } else {
        count_char(s.drop_last(), c) + if s.last() == c {
            1int
        } else {
            0int
        }
    }
}

/// Occurrences in a concatenation are the occurrences in the parts.
pub proof fn lemma_count_char_add(a: Seq<char>, b: Seq<char>, c: char)
    ensures
        count_char(a + b, c) == count_char(a, c) + count_char(b, c),
    decreases b.len(),
{
    if b.len() == 0 {
        assert(a + b =~= a);
    } else {
        lemma_count_char_add(a, b.drop_last(), c);
        assert((a + b).drop_last() =~= a + b.drop_last());
        assert((a + b).last() == b.last());
    }
}

/// Pushing one character adds its own occurrences.
pub proof fn lemma_count_char_push(s: Seq<char>, x: char, c: char)
    ensures
        count_char(s.push(x), c) == count_char(s, c) + if x == c {
            1int
        } else {
            0int
        },
{
    assert(s.push(x).drop_last() =~= s);
    assert(s.push(x).last() == x);
}

/// A sequence without the character holds zero occurrences of it.
pub proof fn lemma_count_char_absent(s: Seq<char>, c: char)
    requires
        forall|i: int| 0 <= i < s.len() ==> s[i] != c,
    ensures
        count_char(s, c) == 0,
    decreases s.len(),
{
    if s.len() > 0 {
        assert(forall|i: int| 0 <= i < s.drop_last().len() ==> s.drop_last()[i] == s[i]);
        lemma_count_char_absent(s.drop_last(), c);
        assert(s.last() == s[s.len() - 1]);
    }
}

/// A rendered decimal number holds no comma.
pub proof fn lemma_dec_no_comma(n: int)
    requires
        n >= 0,
    ensures
        count_char(spec_dec(n), ',') == 0,
    decreases n,
{
    if n < 10 {
        assert(spec_dec(n).drop_last() =~= Seq::<char>::empty());
        assert(count_char(spec_dec(n).drop_last(), ',') == 0);
        assert(spec_dec(n).last() == crate::textfmt::digit_char(n));
    } else {
        lemma_dec_no_comma(n / 10);
        lemma_count_char_push(spec_dec(n / 10), crate::textfmt::digit_char(n % 10), ',');
    }
}

/// A rendered two-decimal value holds no comma.
pub proof fn lemma_fixed2_no_comma(h: int)
    requires
        h >= 0,
    ensures
        count_char(spec_fixed2(h), ',') == 0,
{
    lemma_dec_no_comma(h / 100);
    let tail = seq!['.', crate::textfmt::digit_char((h % 100) / 10), crate::textfmt::digit_char(
        h % 10,
    )];
    lemma_count_char_absent(tail, ',');
    lemma_count_char_add(spec_dec(h / 100), tail, ',');
}

/// A rendered boolean holds no comma.
pub proof fn lemma_bool_no_comma(b: bool)
    ensures
        count_char(spec_bool_str(b), ',') == 0,
{
    lemma_count_char_absent(spec_bool_str(b), ',');
}

/// The rendering of an optional two-decimal value: empty when absent.
pub open spec fn spec_opt_fixed2(v: Option<u64>) -> Seq<char> {
    match v {
        Some(h) => spec_fixed2(h as int),
        None => Seq::empty(),
    }
}

/// One data row: sequence number, round-trip time or empty, success
/// flag, timestamp or empty, comma separated.
pub open spec fn spec_csv_row(r: ProbeResult) -> Seq<char> {
    spec_dec(r.seq as int) + seq![','] + (match r.rtt_hundredths {
        Some(h) => spec_fixed2(h as int),
        None => Seq::<char>::empty(),
    }) + seq![','] + spec_bool_str(r.success) + seq![','] + (match r.timestamp {
        Some(t) => t@,
        None => Seq::<char>::empty(),
    })
}

/// Every data row has the same shape: exactly three separators — four
/// columns — whether or not the round-trip time or the timestamp is
/// absent, provided the timestamp itself holds no comma.
pub proof fn lemma_csv_row_columns(r: ProbeResult)
    requires
        r.timestamp matches Some(t) ==> count_char(t@, ',') == 0,
    ensures
        count_char(spec_csv_row(r), ',') == 3,
{
    let comma = seq![','];
    assert(count_char(comma, ',') == 1) by {
        assert(comma.drop_last() =~= Seq::<char>::empty());
        assert(count_char(comma.drop_last(), ',') == 0);
        assert(comma.last() == ',');
    };
    lemma_dec_no_comma(r.seq as int);
    let rtt_part: Seq<char> = match r.rtt_hundredths {
        Some(h) => spec_fixed2(h as int),
        None => Seq::<char>::empty(),
    };
    let ts_part: Seq<char> = match r.timestamp {
        Some(t) => t@,
        None => Seq::<char>::empty(),
    };
    if r.rtt_hundredths is Some {
        lemma_fixed2_no_comma(r.rtt_hundredths->0 as int);
    }
    assert(count_char(rtt_part, ',') == 0);
    lemma_bool_no_comma(r.success);
    assert(count_char(ts_part, ',') == 0);
    let p1 = spec_dec(r.seq as int);
    let p2 = p1 + comma;
    let p3 = p2 + rtt_part;
    let p4 = p3 + comma;
    let p5 = p4 + spec_bool_str(r.success);
    let p6 = p5 + comma;
    lemma_count_char_add(p1, comma, ',');
    lemma_count_char_add(p2, rtt_part, ',');
    lemma_count_char_add(p3, comma, ',');
    lemma_count_char_add(p4, spec_bool_str(r.success), ',');
    lemma_count_char_add(p5, comma, ',');
    lemma_count_char_add(p6, ts_part, ',');
    assert(spec_csv_row(r) == p6 + ts_part);
}

/// The statistics row: packet counts, the loss percentage with two
/// decimals, and the four round-trip figures, each empty when absent.
pub open spec fn spec_csv_stats_row(st: Statistics) -> Seq<char> {
    spec_dec(st.packets_sent as int) + seq![','] + spec_dec(st.packets_received as int)
        + seq![','] + spec_dec(st.packets_lost as int) + seq![','] + spec_fixed2(
        st.loss_centipercent as int,
    ) + seq![','] + spec_opt_fixed2(st.min_hundredths) + seq![','] + spec_opt_fixed2(
        st.mean_hundredths,
    ) + seq![','] + spec_opt_fixed2(st.max_hundredths) + seq![','] + spec_opt_fixed2(
        st.std_dev_hundredths,
    )
}

/// The data rows of the report, each followed by a line break.
pub open spec fn spec_csv_rows(results: Seq<ProbeResult>) -> Seq<char>
    decreases results.len(),
{
    if results.len() == 0 {
        Seq::empty()
    } else {
        spec_csv_rows(results.drop_last()) + spec_csv_row(results.last()) + seq!['\n']
    }
}

/// The whole tabular report: the comment header naming host, address and
/// generation time, the column header, one row per result, a blank
/// separator, and the statistics header and row.
pub open spec fn spec_csv_report(
    results: Seq<ProbeResult>,
    st: Statistics,
    host: Seq<char>,
    ip: Seq<char>,
    generated: Seq<char>,
) -> Seq<char> {
    "# Ping Report"@ + seq!['\n'] + "# Host: "@ + host + seq!['\n'] + "# IP: "@ + ip
        + seq!['\n'] + "# Generated: "@ + generated + seq!['\n'] + "#"@ + seq!['\n']
        + "seq,rtt_ms,success,timestamp"@ + seq!['\n'] + spec_csv_rows(results) + seq!['\n']
        + "# Statistics"@ + seq!['\n']
        + "# packets_sent,packets_received,packets_lost,loss_percent,min_ms,avg_ms,max_ms,std_dev_ms"@
        + seq!['\n'] + spec_csv_stats_row(st) + seq!['\n']
}

/// Renders an optional two-decimal value, empty when absent.
fn opt_fixed2_to_dec(v: &Option<u64>) -> (r: String)
    ensures
        r@ == spec_opt_fixed2(*v),
{
    match v {
        Some(h) => fixed2_to_dec(*h),
        None => {
            let r = String::new();
            proof {
                assert(r@ =~= spec_opt_fixed2(None::<u64>));
            }
            r
        },
    }
}

/// Renders one data row of the tabular report.
pub fn csv_row(r: &ProbeResult) -> (line: String)
    ensures
        line@ == spec_csv_row(*r),
{
    let mut s = u64_to_dec(r.seq as u64);
    s.append(",");
    match &r.rtt_hundredths {
        Some(h) => {
            let f = fixed2_to_dec(*h);
            s.append(f.as_str());
        },
        None => {},
    }
    s.append(",");
    s.append(bool_to_dec(r.success));
    s.append(",");
    match &r.timestamp {
        Some(t) => {
            s.append(t.as_str());
        },
        None => {},
    }
    proof {
        reveal_strlit(",");
        assert(","@ =~= seq![',']);
        assert(s@ =~= spec_csv_row(*r));
    }
    s
}

/// Renders the statistics row of the tabular report.
pub fn csv_stats_row(st: &Statistics) -> (line: String)
    ensures
        line@ == spec_csv_stats_row(*st),
{
    let mut s = u64_to_dec(st.packets_sent as u64);
    s.append(",");
    let part = u64_to_dec(st.packets_received as u64);
    s.append(part.as_str());
    s.append(",");
    let part = u64_to_dec(st.packets_lost as u64);
    s.append(part.as_str());
    s.append(",");
    let part = fixed2_to_dec(st.loss_centipercent as u64);
    s.append(part.as_str());
    s.append(",");
    let part = opt_fixed2_to_dec(&st.min_hundredths);
    s.append(part.as_str());
    s.append(",");
    let part = opt_fixed2_to_dec(&st.mean_hundredths);
    s.append(part.as_str());
    s.append(",");
    let part = opt_fixed2_to_dec(&st.max_hundredths);
    s.append(part.as_str());
    s.append(",");
    let part = opt_fixed2_to_dec(&st.std_dev_hundredths);
    s.append(part.as_str());
    proof {
        reveal_strlit(",");
        assert(","@ =~= seq![',']);
        assert(s@ =~= spec_csv_stats_row(*st));
    }
    s
}

/// Renders the whole tabular report.
pub fn render_csv(
    results: &Vec<ProbeResult>,
    st: &Statistics,
    host: &str,
    ip: &str,
    generated: &str,
) -> (text: String)
    ensures
        text@ == spec_csv_report(results@, *st, host@, ip@, generated@),
{
    proof {
        reveal_strlit("\n");
        assert("\n"@ =~= seq!['\n']);
    }
    let mut s = String::new();
    s.append("# Ping Report");
    s.append("\n");
    s.append("# Host: ");
    s.append(host);
    s.append("\n");
    s.append("# IP: ");
    s.append(ip);
    s.append("\n");
    s.append("# Generated: ");
    s.append(generated);
    s.append("\n");
    s.append("#");
    s.append("\n");
    s.append("seq,rtt_ms,success,timestamp");
    s.append("\n");
    let ghost head = s@;
    let mut i: usize = 0;
    proof {
        assert(spec_csv_rows(results@.take(0)) =~= Seq::<char>::empty());
        assert(s@ =~= head + spec_csv_rows(results@.take(0)));
    }
    while i < results.len()
        invariant
            0 <= i <= results@.len(),
            s@ == head + spec_csv_rows(results@.take(i as int)),
        decreases results@.len() - i,
    {
        proof {
            assert(results@.take(i + 1).drop_last() =~= results@.take(i as int));
            assert(results@.take(i + 1).last() == results@[i as int]);
            reveal_strlit("\n");
            assert("\n"@ =~= seq!['\n']);
        }
        let row = csv_row(&results[i]);
        s.append(row.as_str());
        s.append("\n");
        proof {
            assert(s@ =~= head + spec_csv_rows(results@.take(i + 1)));
        }
        i = i + 1;
    }
    proof {
        assert(results@.take(results@.len() as int) =~= results@);
    }
    s.append("\n");
    s.append("# Statistics");
    s.append("\n");
    s.append("# packets_sent,packets_received,packets_lost,loss_percent,min_ms,avg_ms,max_ms,std_dev_ms");
    s.append("\n");
    let row = csv_stats_row(st);
    s.append(row.as_str());
    s.append("\n");
    proof {
        assert(s@ =~= spec_csv_report(results@, *st, host@, ip@, generated@));
    }
    s
}

} // verus!

//! Counting search hits per time bin, for the bar chart above the results.

use vstd::prelude::*;
use crate::interpreter::records_view;
use crate::numeric::{parse_u64, parse_u64_spec};
use crate::indexing::{document_hit, shown, FieldValue};
use crate::record::{law_insert_then_lookup, lookup, Field, Record};

verus! {

/// The time of a hit: its `_time` field read as milliseconds, if it has one
/// that reads as a number.
pub open spec fn hit_time(r: Seq<Field>) -> Option<u64> {
    match lookup(r, "_time"@) {
        Some(t) => parse_u64_spec(t),
        None => None,
    }
}

/// The bins of the hits that have a time, in order: each time divided by
/// the bin size.
pub open spec fn time_bins(rs: Seq<Seq<Field>>, size: u64) -> Seq<u64>
    decreases rs.len(),
{
    if rs.len() == 0 {
        Seq::empty()
    } else {
        match hit_time(rs.last()) {
            Some(t) => time_bins(rs.drop_last(), size).push((t / size) as u64),
            None => time_bins(rs.drop_last(), size),
        }
    }
}

/// Some hit has a readable time.
pub open spec fn any_timed(rs: Seq<Seq<Field>>) -> bool {
    exists|i: int| 0 <= i < rs.len() && #[trigger] hit_time(rs[i]) is Some
}

/// How often `b` occurs in `s`.
pub open spec fn occurrences(s: Seq<u64>, b: u64) -> nat
    decreases s.len(),
{
    if s.len() == 0 {
        0
    } else {
        occurrences(s.drop_last(), b) + if s.last() == b {
            1nat
        } else {
            0nat
        }
    }
}

/// `out` counts the bins of `bs`: bins ascending, each with its number of
/// occurrences, every occurring bin listed.
pub open spec fn counts_bins(out: Seq<(u64, u64)>, bs: Seq<u64>) -> bool {
    &&& forall|i: int, j: int| 0 <= i < j < out.len() ==> out[i].0 < out[j].0
    &&& forall|i: int| 0 <= i < out.len() ==> out[i].1 == occurrences(bs, out[i].0)
    &&& forall|i: int| 0 <= i < out.len() ==> out[i].1 > 0
    &&& forall|b: u64| occurrences(bs, b) > 0 ==> exists|i: int| 0 <= i < out.len() && out[i].0 == b
}

proof fn lemma_bins_len(rs: Seq<Seq<Field>>, size: u64)
    ensures
        time_bins(rs, size).len() <= rs.len(),
    decreases rs.len(),
{
    if rs.len() > 0 {
        lemma_bins_len(rs.drop_last(), size);
    }
}

/// Counts the hits per time bin of `bin_size_ms` milliseconds: the bins in
/// ascending order, each with the number of hits whose time falls in it.
/// Hits without a readable time are left out. A bin size of zero is only
/// taken when no hit has a readable time, which gives no bins.
pub fn count_by_bin(data: &Vec<Record>, bin_size_ms: u64) -> (out: Vec<(u64, u64)>)
    requires
        bin_size_ms > 0 || !any_timed(records_view(data@)),
    ensures
        counts_bins(out@, time_bins(records_view(data@), bin_size_ms)),
{
    let ghost rv = records_view(data@);
    let mut out: Vec<(u64, u64)> = Vec::new();
    let n = data.len();
    for i in 0..n
        invariant
            n == data@.len(),
            rv == records_view(data@),
            bin_size_ms > 0 || !any_timed(rv),
            counts_bins(out@, time_bins(rv.take(i as int), bin_size_ms)),
            forall|k: int| 0 <= k < out@.len() ==> out@[k].1 <= i,
    {
        let ghost bs = time_bins(rv.take(i as int), bin_size_ms);
        assert(rv.take(i + 1).drop_last() == rv.take(i as int));
        assert(rv.take(i + 1).last() == data@[i as int]@);
        proof {
            lemma_bins_len(rv.take(i as int), bin_size_ms);
        }
        let t = match data[i].get("_time") {
            Some(text) => parse_u64(text.as_str()),
            None => None,
        };
        match t {
            Some(t) => {
                assert(hit_time(rv[i as int]) is Some);
                let b = t / bin_size_ms;
                let ghost bs2 = bs.push(b);
                assert(time_bins(rv.take(i + 1), bin_size_ms) == bs2);
                let m = out.len();
                let mut p: usize = 0;
                while p < m && out[p].0 < b
                    invariant
                        p <= m,
                        m == out@.len(),
                        forall|k: int| 0 <= k < p ==> out@[k].0 < b,
                    decreases m - p,
                {
                    p = p + 1;
                }
                let ghost prev = out@;
                if p < m && out[p].0 == b {
                    let c = out[p].1;
                    out.set(p, (b, c + 1));
                    assert forall|x: u64| occurrences(bs2, x) == occurrences(bs, x) + if x == b {
                        1nat
                    } else {
                        0nat
                    } by {
                        assert(bs2.drop_last() == bs);
                    }
                    assert forall|x: u64| occurrences(bs2, x) > 0 implies exists|k: int|
                        0 <= k < out@.len() && out@[k].0 == x by {
                        if x == b {
                            assert(out@[p as int].0 == x);
                        } else {
                            let k = choose|k: int| 0 <= k < prev.len() && prev[k].0 == x;
                            assert(out@[k].0 == x);
                        }
                    }
                } else {
                    assert forall|x: u64| occurrences(bs2, x) == occurrences(bs, x) + if x == b {
                        1nat
                    } else {
                        0nat
                    } by {
                        assert(bs2.drop_last() == bs);
                    }
                    assert(occurrences(bs, b) == 0) by {
                        if occurrences(bs, b) > 0 {
                            let k = choose|k: int| 0 <= k < prev.len() && prev[k].0 == b;
                            if k < p {
                            } else {
                                assert(prev[p as int].0 <= prev[k].0);
                            }
                        }
                    }
                    out.insert(p, (b, 1));
                    assert forall|x: u64| occurrences(bs2, x) > 0 implies exists|k: int|
                        0 <= k < out@.len() && out@[k].0 == x by {
                        if x == b {
                            assert(out@[p as int].0 == x);
                        } else {
                            let k = choose|k: int| 0 <= k < prev.len() && prev[k].0 == x;
                            if k < p {
                                assert(out@[k].0 == x);
                            } else {
                                assert(out@[k + 1].0 == x);
                            }
                        }
                    }
                    assert forall|k1: int, k2: int| 0 <= k1 < k2 < out@.len() implies out@[k1].0
                        < out@[k2].0 by {
                        if k2 < p {
                        } else if k2 == p {
                        } else if k1 < p {
                            assert(out@[k2] == prev[k2 - 1]);
                            if p < m {
                                assert(prev[p as int].0 > b);
                            }
                        } else if k1 == p {
                            assert(out@[k2] == prev[k2 - 1]);
                            assert(prev[p as int].0 > b);
                            assert(prev[p as int].0 <= prev[k2 - 1].0);
                        } else {
                            assert(out@[k1] == prev[k1 - 1]);
                            assert(out@[k2] == prev[k2 - 1]);
                        }
                    }
                }
            },
            None => {
                assert(time_bins(rv.take(i + 1), bin_size_ms) == bs);
            },
        }
    }
    assert(rv.take(n as int) == rv);
    out
}


/// Every hit with a readable time is counted once in its bin: the number of
/// times bin `b` occurs is the number of hits whose time `t` has
/// `t / size == b` (so hits with equal times are each counted), and there
/// are as many bins as hits with a readable time.
pub proof fn law_each_timed_hit_counted_once(rs: Seq<Seq<Field>>, size: u64, b: u64)
    requires
        size > 0,
    ensures
        occurrences(time_bins(rs, size), b) == rs.filter(
            |r: Seq<Field>| hit_time(r) is Some && hit_time(r)->Some_0 / size == b,
        ).len(),
        time_bins(rs, size).len() == rs.filter(|r: Seq<Field>| hit_time(r) is Some).len(),
    decreases rs.len(),
{
    let in_bin = |r: Seq<Field>| hit_time(r) is Some && hit_time(r)->Some_0 / size == b;
    let timed = |r: Seq<Field>| hit_time(r) is Some;
    reveal(Seq::filter);
    if rs.len() > 0 {
        law_each_timed_hit_counted_once(rs.drop_last(), size, b);
        assert(rs.filter(in_bin) == if in_bin(rs.last()) {
            rs.drop_last().filter(in_bin).push(rs.last())
        } else {
            rs.drop_last().filter(in_bin)
        });
        assert(rs.filter(timed) == if timed(rs.last()) {
            rs.drop_last().filter(timed).push(rs.last())
        } else {
            rs.drop_last().filter(timed)
        });
        match hit_time(rs.last()) {
            Some(t) => {
                let p = time_bins(rs.drop_last(), size);
                assert(time_bins(rs, size) == p.push((t / size) as u64));
                assert(p.push((t / size) as u64).drop_last() == p);
            },
            None => {},
        }
    }
}

/// The last value stored under `name` in a document, if any.
pub open spec fn last_value(fs: Seq<(String, FieldValue)>, name: Seq<char>) -> Option<FieldValue>
    decreases fs.len(),
{
    if fs.len() == 0 {
        None
    } else if fs.last().0@ == name {
        Some(fs.last().1)
    } else {
        last_value(fs.drop_last(), name)
    }
}

/// A hit shows, under each name, the last value the document stored under it.
pub proof fn law_hit_shows_last_value(fs: Seq<(String, FieldValue)>, name: Seq<char>)
    ensures
        lookup(document_hit(fs), name) == match last_value(fs, name) {
            Some(v) => Some(shown(v)),
            None => None::<Seq<char>>,
        },
    decreases fs.len(),
{
    if fs.len() > 0 {
        law_hit_shows_last_value(fs.drop_last(), name);
        let prev = document_hit(fs.drop_last());
        if fs.last().0@ == name {
            assert(name.push(' ').len() != name.len());
            law_insert_then_lookup(prev, name, shown(fs.last().1), name.push(' '));
        } else {
            law_insert_then_lookup(prev, fs.last().0@, shown(fs.last().1), name);
        }
    }
}

/// The time a document was indexed with lands in the histogram: the hit
/// made from the document reads back the same milliseconds.
pub proof fn law_indexed_time_reads_back(fs: Seq<(String, FieldValue)>, ms: i64)
    requires
        last_value(fs, "_time"@) == Some(FieldValue::Date(ms)),
        ms >= 0,
    ensures
        hit_time(document_hit(fs)) == Some(ms as u64),
{
    law_hit_shows_last_value(fs, "_time"@);
    crate::numeric::law_written_time_reads_back(ms);
}


/// What `count_by_bin` reports, read against the hits: each listed bin
/// carries the number of hits whose time falls in it.
pub proof fn law_counts_are_hits_per_bin(out: Seq<(u64, u64)>, rs: Seq<Seq<Field>>, size: u64)
    requires
        size > 0,
        counts_bins(out, time_bins(rs, size)),
    ensures
        forall|i: int|
            0 <= i < out.len() ==> #[trigger] out[i].1 == rs.filter(
                |r: Seq<Field>| hit_time(r) is Some && hit_time(r)->Some_0 / size == out[i].0,
            ).len(),
{
    assert forall|i: int| 0 <= i < out.len() implies #[trigger] out[i].1 == rs.filter(
        |r: Seq<Field>| hit_time(r) is Some && hit_time(r)->Some_0 / size == out[i].0,
    ).len() by {
        law_each_timed_hit_counted_once(rs, size, out[i].0);
    }
}

/// A stored text shows in the hit exactly as stored: when the last value a
/// document stored under `name` is the text `s`, the hit's `name` is `s`.
pub proof fn law_text_shown_as_stored(fs: Seq<(String, FieldValue)>, name: Seq<char>, s: String)
    requires
        last_value(fs, name) == Some(FieldValue::Text(s)),
    ensures
        lookup(document_hit(fs), name) == Some(s@),
{
    law_hit_shows_last_value(fs, name);
}

} // verus!

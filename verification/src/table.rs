//! The columns of the results table: the field names of the first hit,
//! in ascending order.

use vstd::prelude::*;
use crate::interpreter::records_view;
use crate::record::{names_of, Record};
use crate::text::{chars_of, views};

verus! {

/// Lexicographic order of texts by characters, the order in which `String`s
/// compare (UTF-8 keeps the order of code points).
pub open spec fn text_le(a: Seq<char>, b: Seq<char>) -> bool
    decreases a.len(),
{
    if a.len() == 0 {
        true
    } else if b.len() == 0 {
        false
    } else if a[0] < b[0] {
        true
    } else if a[0] > b[0] {
        false
    } else {
        text_le(a.drop_first(), b.drop_first())
    }
}

/// `s` is in ascending order.
pub open spec fn ascending(s: Seq<Seq<char>>) -> bool {
    forall|i: int, j: int| 0 <= i < j < s.len() ==> text_le(s[i], s[j])
}

/// Any two texts are ordered one way or the other.
pub proof fn lemma_text_le_total(a: Seq<char>, b: Seq<char>)
    ensures
        text_le(a, b) || text_le(b, a),
    decreases a.len(),
{
    if a.len() > 0 && b.len() > 0 && a[0] == b[0] {
        lemma_text_le_total(a.drop_first(), b.drop_first());
    }
}

/// The order is transitive.
pub proof fn lemma_text_le_trans(a: Seq<char>, b: Seq<char>, c: Seq<char>)
    requires
        text_le(a, b),
        text_le(b, c),
    ensures
        text_le(a, c),
    decreases a.len(),
{
    if a.len() > 0 && b.len() > 0 && c.len() > 0 {
        if a[0] == b[0] && b[0] == c[0] {
            lemma_text_le_trans(a.drop_first(), b.drop_first(), c.drop_first());
        }
    }
}

/// Compares two texts in `text_le` order.
pub fn less_or_equal(a: &String, b: &String) -> (r: bool)
    ensures
        r == text_le(a@, b@),
{
    let x = chars_of(a.as_str());
    let y = chars_of(b.as_str());
    let mut i: usize = 0;
    assert(x@.skip(0) == x@ && y@.skip(0) == y@);
    while i < x.len() && i < y.len()
        invariant
            i <= x@.len(),
            i <= y@.len(),
            text_le(a@, b@) == text_le(x@.skip(i as int), y@.skip(i as int)),
            x@ == a@,
            y@ == b@,
        decreases x@.len() - i,
    {
        let ghost xs = x@.skip(i as int);
        let ghost ys = y@.skip(i as int);
        assert(xs[0] == x@[i as int] && ys[0] == y@[i as int]);
        if x[i] < y[i] {
            return true;
        }
        if x[i] > y[i] {
            return false;
        }
        assert(xs.drop_first() == x@.skip(i + 1));
        assert(ys.drop_first() == y@.skip(i + 1));
        i = i + 1;
    }
    i == x.len()
}

/// The column names for a list of hits: the field names of the first hit in
/// ascending order, or none when there are no hits.
pub open spec fn columns_of(rs: Seq<Record>) -> Seq<Seq<char>> {
    if rs.len() == 0 {
        Seq::empty()
    } else {
        names_of(rs[0]@)
    }
}

/// The column names of the results table: the field names of the first hit,
/// sorted.
pub fn table_columns(results: &Vec<Record>) -> (out: Vec<String>)
    ensures
        ascending(views(out@)),
        views(out@).to_multiset() == columns_of(results@).to_multiset(),
{
    let mut out: Vec<String> = Vec::new();
    if results.len() == 0 {
        assert(views(out@) =~= Seq::<Seq<char>>::empty());
        return out;
    }
    let first = &results[0];
    let ghost names = names_of(first@);
    let n = first.len();
    assert(views(out@) =~= Seq::<Seq<char>>::empty());
    assert(names.take(0) =~= Seq::<Seq<char>>::empty());
    for i in 0..n
        invariant
            n == first@.len(),
            names == names_of(first@),
            columns_of(results@) == names,
            ascending(views(out@)),
            views(out@).to_multiset() == names.take(i as int).to_multiset(),
    {
        let (name, _) = first.field_at(i);
        assert(names[i as int] == name@);
        let m = out.len();
        let mut p: usize = 0;
        while p < m && less_or_equal(&out[p], &name)
            invariant
                p <= m,
                m == out@.len(),
                forall|k: int| 0 <= k < p ==> text_le(out@[k]@, name@),
            decreases m - p,
        {
            p = p + 1;
        }
        let ghost prev = views(out@);
        out.insert(p, name.clone());
        let ghost now = views(out@);
        assert(now =~= prev.insert(p as int, name@));
        proof {
            prev.insert_ensures(p as int, name@);
            assert(now.remove(p as int) =~= prev);
            assert(names.take(i + 1) == names.take(i as int).push(name@));
            assert(now.to_multiset() =~= prev.to_multiset().insert(name@)) by {
                vstd::seq_lib::to_multiset_remove(now, p as int);
                vstd::seq_lib::to_multiset_build(names.take(i as int), name@);
                now.to_multiset_ensures();
                assert(now.contains(name@)) by {
                    assert(now[p as int] == name@);
                }
            }
            vstd::seq_lib::to_multiset_build(names.take(i as int), name@);
            assert(names.take(i as int).push(name@).to_multiset() =~= names.take(i as int).to_multiset().insert(name@));
            assert(now.to_multiset() == names.take(i + 1).to_multiset());
            assert forall|a: int, b: int| 0 <= a < b < now.len() implies text_le(now[a], now[b]) by {
                if b < p {
                    assert(now[a] == prev[a] && now[b] == prev[b]);
                } else if b == p {
                    assert(now[a] == prev[a]);
                } else if a < p {
                    assert(now[a] == prev[a] && now[b] == prev[b - 1]);
                    if a < b - 1 {
                    }
                    assert(text_le(prev[a], name@));
                    if p < m {
                        lemma_text_le_total(prev[p as int], name@);
                        assert(!text_le(prev[p as int], name@));
                        assert(text_le(name@, prev[p as int]));
                        if p < b - 1 {
                            assert(text_le(prev[p as int], prev[b - 1]));
                            lemma_text_le_trans(name@, prev[p as int], prev[b - 1]);
                        }
                        lemma_text_le_trans(prev[a], name@, prev[b - 1]);
                    }
                } else if a == p {
                    assert(now[b] == prev[b - 1]);
                    lemma_text_le_total(prev[p as int], name@);
                    if p < b - 1 {
                        assert(text_le(prev[p as int], prev[b - 1]));
                        lemma_text_le_trans(name@, prev[p as int], prev[b - 1]);
                    }
                } else {
                    assert(now[a] == prev[a - 1] && now[b] == prev[b - 1]);
                }
            }
        }
    }
    assert(names.take(n as int) == names);
    out
}

} // verus!

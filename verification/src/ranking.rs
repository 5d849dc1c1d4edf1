//! Query shaping shared by the store's read paths: filtering a pool of
//! scored rows, ordering it by descending score, and cutting it to a
//! result limit.

use vstd::prelude::*;

verus! {

/// A row id paired with the score a query ranks it by.
#[derive(Clone, Copy, Debug, PartialEq, Eq, Structural)]
pub struct ScoredId {
    pub id: u64,
    pub score: u32,
}

/// Scores are monotonically non-increasing in result order.
pub open spec fn sorted_desc(s: Seq<ScoredId>) -> bool {
    forall|a: int, b: int| 0 <= a <= b < s.len() ==> s[a].score >= s[b].score
}

/// The smaller of two quantities.
pub open spec fn min_int(a: int, b: int) -> int {
    if a <= b {
        a
    } else {
        b
    }
}

/// The subsequence of `s` whose elements satisfy `pred`, in order.
pub open spec fn seq_filter<T>(s: Seq<T>, pred: spec_fn(T) -> bool) -> Seq<T>
    decreases s.len(),
{
    if s.len() == 0 {
        Seq::empty()
    } else {
        let rest = seq_filter(s.drop_last(), pred);
        if pred(s.last()) {
            rest.push(s.last())
        } else {
            rest
        }
    }
}

/// Filtering one more element keeps the filtered prefix and appends the
/// element exactly when it qualifies.
pub proof fn lemma_seq_filter_push<T>(s: Seq<T>, pred: spec_fn(T) -> bool, x: T)
    ensures
        seq_filter(s.push(x), pred) == if pred(x) {
            seq_filter(s, pred).push(x)
        } else {
            seq_filter(s, pred)
        },
{
    assert(s.push(x).drop_last() =~= s);
    assert(s.push(x).last() == x);
}

/// Every filtered element qualifies and comes from the input.
pub proof fn lemma_seq_filter_elems<T>(s: Seq<T>, pred: spec_fn(T) -> bool)
    ensures
        forall|i: int|
            0 <= i < seq_filter(s, pred).len() ==> pred(#[trigger] seq_filter(s, pred)[i])
                && s.contains(seq_filter(s, pred)[i]),
    decreases s.len(),
{
    if s.len() > 0 {
        lemma_seq_filter_elems(s.drop_last(), pred);
        assert(forall|i: int|
            0 <= i < s.drop_last().len() ==> s.drop_last()[i] == #[trigger] s[i]);
        assert forall|i: int|
            0 <= i < seq_filter(s, pred).len() implies pred(#[trigger] seq_filter(s, pred)[i])
            && s.contains(seq_filter(s, pred)[i]) by {
            let f = seq_filter(s, pred);
            let fr = seq_filter(s.drop_last(), pred);
            if i < fr.len() {
                assert(s.drop_last().contains(fr[i]));
                let w = choose|k: int| 0 <= k < s.drop_last().len() && s.drop_last()[k] == fr[i];
                assert(s[w] == fr[i]);
            } else {
                assert(f[i] == s.last());
                assert(s[s.len() - 1] == s.last());
            }
        }
    }
}

/// Inserting an element anywhere adds exactly it to the multiset of the
/// rows.
pub proof fn lemma_insert_multiset<T>(s: Seq<T>, j: int, x: T)
    requires
        0 <= j <= s.len(),
    ensures
        s.insert(j, x).to_multiset() =~= s.to_multiset().insert(x),
{
    broadcast use vstd::seq_lib::group_to_multiset_ensures;
    broadcast use vstd::multiset::group_multiset_axioms;

    let t = s.insert(j, x);
    s.insert_ensures(j, x);
    t.remove_ensures(j);
    assert(t.remove(j) =~= s);
    assert(t[j] == x);
    assert(s.to_multiset() =~= t.to_multiset().remove(x));
    assert(t.contains(x));
    assert(t.to_multiset().count(x) > 0);
    assert forall|y: T| t.to_multiset().count(y) == s.to_multiset().insert(x).count(y) by {
        if y == x {
            assert(s.to_multiset().count(x) == t.to_multiset().count(x) - 1);
        } else {
            assert(s.to_multiset().count(y) == t.to_multiset().count(y));
        }
    }
}

/// A row id paired with the timestamp a listing orders it by.
#[derive(Clone, Copy, Debug, PartialEq, Eq, Structural)]
pub struct StampedId {
    pub id: u64,
    pub stamp: u64,
}

/// Timestamps are monotonically non-increasing in listing order.
pub open spec fn stamps_desc(s: Seq<StampedId>) -> bool {
    forall|a: int, b: int| 0 <= a <= b < s.len() ==> s[a].stamp >= s[b].stamp
}

/// Order a pool of stamped rows by descending timestamp, keeping all of
/// them.
pub fn rank_by_stamp(items: Vec<StampedId>) -> (r: Vec<StampedId>)
    ensures
        stamps_desc(r@),
        r@.to_multiset() == items@.to_multiset(),
        r@.len() == items@.len(),
{
    broadcast use vstd::seq_lib::group_to_multiset_ensures;

    let n = items.len();
    let mut out: Vec<StampedId> = Vec::new();
    let mut idx: usize = 0;
    while idx < n
        invariant
            idx <= n,
            n == items@.len(),
            out@.len() == idx,
            stamps_desc(out@),
            out@.to_multiset() == items@.take(idx as int).to_multiset(),
        decreases n - idx,
    {
        broadcast use vstd::seq_lib::group_to_multiset_ensures;

        let x = items[idx];
        let mut j: usize = 0;
        while j < out.len() && out[j].stamp >= x.stamp
            invariant
                j <= out@.len(),
                forall|t: int| 0 <= t < j ==> out@[t].stamp >= x.stamp,
            decreases out@.len() - j,
        {
            j += 1;
        }
        proof {
            out@.insert_ensures(j as int, x);
            lemma_insert_multiset(out@, j as int, x);
            assert(items@.take(idx as int + 1) =~= items@.take(idx as int).push(
                items@[idx as int],
            ));
        }
        let ghost prev = out@;
        out.insert(j, x);
        proof {
            assert forall|a: int, b: int|
                0 <= a <= b < out@.len() implies out@[a].stamp >= out@[b].stamp by {
                if a < j && b < j {
                    assert(out@[a] == prev[a] && out@[b] == prev[b]);
                } else if a < j && b == j {
                    assert(out@[a] == prev[a]);
                } else if a < j && b > j {
                    assert(out@[a] == prev[a] && out@[b] == prev[b - 1]);
                } else if a == j && b > j {
                    assert(out@[b] == prev[b - 1]);
                    assert(j < prev.len() ==> prev[j as int].stamp < x.stamp);
                } else if a > j && b > j {
                    assert(out@[a] == prev[a - 1] && out@[b] == prev[b - 1]);
                }
            }
        }
        idx += 1;
    }
    proof {
        assert(items@.take(n as int) =~= items@);
    }
    out
}

/// The result is a prefix of some descending ordering of the whole
/// pool: what the limit cuts away scores no better than what is kept.
pub open spec fn is_top_of(r: Seq<ScoredId>, pool: Seq<ScoredId>) -> bool {
    exists|full: Seq<ScoredId>|
        #![trigger full.to_multiset()]
        sorted_desc(full) && full.to_multiset() == pool.to_multiset() && r == full.take(
            r.len() as int,
        )
}

/// Order a pool of scored rows by descending score and keep the best
/// `limit` of them.  The result is sorted, its rows come from the pool,
/// its length is the pool size cut to the limit, it is the top of some
/// descending ordering of the pool, and a limit at least the pool size
/// keeps the whole pool.
pub fn rank_top(items: Vec<ScoredId>, limit: usize) -> (r: Vec<ScoredId>)
    ensures
        sorted_desc(r@),
        r@.len() == min_int(limit as int, items@.len() as int),
        forall|i: int| 0 <= i < r@.len() ==> items@.contains(#[trigger] r@[i]),
        is_top_of(r@, items@),
        limit >= items@.len() ==> r@.to_multiset() == items@.to_multiset(),
{
    broadcast use vstd::seq_lib::group_to_multiset_ensures;

    let n = items.len();
    let mut out: Vec<ScoredId> = Vec::new();
    let mut idx: usize = 0;
    while idx < n
        invariant
            idx <= n,
            n == items@.len(),
            out@.len() == idx,
            sorted_desc(out@),
            out@.to_multiset() == items@.take(idx as int).to_multiset(),
        decreases n - idx,
    {
        broadcast use vstd::seq_lib::group_to_multiset_ensures;

        let x = items[idx];
        let mut j: usize = 0;
        while j < out.len() && out[j].score >= x.score
            invariant
                j <= out@.len(),
                forall|t: int| 0 <= t < j ==> out@[t].score >= x.score,
            decreases out@.len() - j,
        {
            j += 1;
        }
        proof {
            out@.insert_ensures(j as int, x);
            lemma_insert_multiset(out@, j as int, x);
            assert(items@.take(idx as int + 1) =~= items@.take(idx as int).push(
                items@[idx as int],
            ));
        }
        let ghost prev = out@;
        out.insert(j, x);
        proof {
            assert forall|a: int, b: int|
                0 <= a <= b < out@.len() implies out@[a].score >= out@[b].score by {
                if a < j && b < j {
                    assert(out@[a] == prev[a] && out@[b] == prev[b]);
                } else if a < j && b == j {
                    assert(out@[a] == prev[a]);
                } else if a < j && b > j {
                    assert(out@[a] == prev[a] && out@[b] == prev[b - 1]);
                } else if a == j && b > j {
                    assert(out@[b] == prev[b - 1]);
                    assert(j < prev.len() ==> prev[j as int].score < x.score);
                } else if a > j && b > j {
                    assert(out@[a] == prev[a - 1] && out@[b] == prev[b - 1]);
                }
            }
        }
        idx += 1;
    }
    proof {
        assert(items@.take(n as int) =~= items@);
    }
    let ghost full = out@;
    out.truncate(limit);
    proof {
        if limit < n {
            assert(out@ == full.subrange(0, limit as int));
        } else {
            assert(out@ == full);
            assert(full.subrange(0, full.len() as int) =~= full);
        }
        assert forall|i: int| 0 <= i < out@.len() implies items@.contains(#[trigger] out@[i]) by {
            assert(out@[i] == full[i]);
            assert(full.contains(full[i]));
            assert(full.to_multiset().count(full[i]) > 0);
            assert(items@.to_multiset().count(full[i]) > 0);
        }
        assert(out@ =~= full.take(out@.len() as int));
        assert(is_top_of(out@, items@)) by {
            assert(sorted_desc(full) && full.to_multiset() == items@.to_multiset() && out@
                == full.take(out@.len() as int));
        }
    }
    out
}

} // verus!

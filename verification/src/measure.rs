//! Samples and their median.
use vstd::prelude::*;

verus! {

/// One measurement of a tool: wall-clock time and peak resident memory.
#[derive(Clone, Copy, Debug, PartialEq, Eq, Structural)]
pub struct Sample {
    pub time_ms: u64,
    pub peak_kb: u64,
}

/// An ascending sequence with `x` put in its place.
pub open spec fn placed(t: Seq<u64>, x: u64) -> Seq<u64>
    decreases t.len(),
{
    if t.len() == 0 || t.last() <= x {
        t.push(x)
    } else {
        placed(t.drop_last(), x).push(t.last())
    }
}

/// The values in ascending order.
pub open spec fn ascending(s: Seq<u64>) -> Seq<u64>
    decreases s.len(),
{
    if s.len() == 0 {
        s
    } else {
        placed(ascending(s.drop_last()), s.last())
    }
}

/// The middle value in ascending order; of two middle values, their mean, rounded down.
pub open spec fn middle(s: Seq<u64>) -> u64 {
    let t = ascending(s);
    let h = s.len() as int / 2;
    if s.len() % 2 == 1 {
        t[h]
    } else {
        ((t[h - 1] + t[h]) / 2) as u64
    }
}

/// How many values lie between `lo` and `hi`.
pub open spec fn count_within(s: Seq<u64>, lo: u64, hi: u64) -> nat
    decreases s.len(),
{
    if s.len() == 0 {
        0
    } else {
        count_within(s.drop_last(), lo, hi) + if lo <= s.last() <= hi {
            1nat
        } else {
            0
        }
    }
}

/// Whether values ascend.
pub open spec fn ascends(t: Seq<u64>) -> bool {
    forall|i: int, j: int| 0 <= i <= j < t.len() ==> t[i] <= t[j]
}

/// The median of at least one value.
pub fn median(values: &[u64]) -> (m: u64)
    requires
        values@.len() > 0,
    ensures
        m == middle(values@),
{
    let mut t: Vec<u64> = Vec::new();
    let mut n: usize = 0;
    assert(values@.take(0) == Seq::<u64>::empty());
    while n < values.len()
        invariant
            n <= values.len(),
            t.len() == n,
            t@ == ascending(values@.take(n as int)),
        decreases values.len() - n,
    {
        let x = values[n];
        let ghost start = t@;
        let mut p: usize = t.len();
        assert(t@.take(p as int) + t@.skip(p as int) == t@);
        assert(placed(start, x) == placed(start.take(p as int), x) + start.skip(p as int));
        while p > 0 && t[p - 1] > x
            invariant
                p <= t.len(),
                t@ == start,
                placed(start, x) == placed(start.take(p as int), x) + start.skip(p as int),
            decreases p,
        {
            assert(start.take(p as int).drop_last() == start.take(p - 1));
            assert(placed(start.take(p as int), x) + start.skip(p as int) =~= placed(
                start.take(p - 1),
                x,
            ) + start.skip(p - 1));
            p = p - 1;
        }
        t.insert(p, x);
        assert(values@.take(n + 1).drop_last() == values@.take(n as int));
        assert(t@ =~= placed(start, x));
        n = n + 1;
    }
    assert(values@.take(n as int) == values@);
    let h = n / 2;
    proof {
        lemma_ascending(values@);
    }
    if n % 2 == 1 {
        t[h]
    } else {
        let a = t[h - 1];
        let b = t[h];
        a + (b - a) / 2
    }
}

proof fn lemma_placed(t: Seq<u64>, x: u64)
    requires
        ascends(t),
    ensures
        ascends(placed(t, x)),
        placed(t, x).len() == t.len() + 1,
        placed(t, x).to_multiset() == t.to_multiset().insert(x),
        placed(t, x).last() == if t.len() == 0 || t.last() <= x { x } else { t.last() },
    decreases t.len(),
{
    broadcast use vstd::seq_lib::group_to_multiset_ensures;

    if t.len() > 0 && t.last() > x {
        lemma_placed(t.drop_last(), x);
        assert(t.drop_last().push(t.last()) == t);
        assert(placed(t, x).to_multiset() =~= t.to_multiset().insert(x));
        let p = placed(t.drop_last(), x);
        assert forall|i: int, j: int| 0 <= i <= j < placed(t, x).len() implies placed(t, x)[i] <= placed(
            t,
            x,
        )[j] by {
            if j == p.len() && i < j {
                assert(p[i] <= p[p.len() - 1]);
            }
        }
    }
}

/// `ascending` sorts: it lists the same values, in order.
pub proof fn lemma_ascending(s: Seq<u64>)
    ensures
        ascends(ascending(s)),
        ascending(s).len() == s.len(),
        ascending(s).to_multiset() == s.to_multiset(),
    decreases s.len(),
{
    broadcast use vstd::seq_lib::group_to_multiset_ensures;

    if s.len() > 0 {
        lemma_ascending(s.drop_last());
        lemma_placed(ascending(s.drop_last()), s.last());
        assert(s.drop_last().push(s.last()) == s);
    }
}

/// The order of the samples does not matter: values that agree up to order have one median.
pub proof fn law_median_ignores_order(r: Seq<u64>, s: Seq<u64>)
    requires
        r.to_multiset() == s.to_multiset(),
    ensures
        middle(r) == middle(s),
{
    broadcast use vstd::seq_lib::group_to_multiset_ensures;

    let leq = |a: u64, b: u64| a <= b;
    lemma_ascending(r);
    lemma_ascending(s);
    assert(r.len() == r.to_multiset().len());
    assert(s.len() == s.to_multiset().len());
    assert(vstd::relations::sorted_by(ascending(r), leq));
    assert(vstd::relations::sorted_by(ascending(s), leq));
    vstd::seq_lib::lemma_sorted_unique(ascending(r), ascending(s), leq);
}

proof fn lemma_count_placed(t: Seq<u64>, x: u64, lo: u64, hi: u64)
    ensures
        count_within(placed(t, x), lo, hi) == count_within(t.push(x), lo, hi),
    decreases t.len(),
{
    reveal_with_fuel(count_within, 3);
    assert(t.push(x).drop_last() == t);
    if t.len() > 0 && t.last() > x {
        lemma_count_placed(t.drop_last(), x, lo, hi);
        assert(placed(t, x).drop_last() == placed(t.drop_last(), x));
        assert(t.drop_last().push(x).drop_last() == t.drop_last());
    }
}

proof fn lemma_count_ascending(s: Seq<u64>, lo: u64, hi: u64)
    ensures
        count_within(ascending(s), lo, hi) == count_within(s, lo, hi),
    decreases s.len(),
{
    if s.len() > 0 {
        let t = ascending(s.drop_last());
        lemma_count_ascending(s.drop_last(), lo, hi);
        lemma_count_placed(t, s.last(), lo, hi);
        assert(t.push(s.last()).drop_last() == t);
    }
}

proof fn lemma_count_at_most(t: Seq<u64>, lo: u64, hi: u64)
    ensures
        count_within(t, lo, hi) <= t.len(),
    decreases t.len(),
{
    if t.len() > 0 {
        lemma_count_at_most(t.drop_last(), lo, hi);
    }
}

/// In an ascending sequence, a value below `lo` leaves only later places for those within.
proof fn lemma_value_below(t: Seq<u64>, lo: u64, hi: u64, k: int)
    requires
        ascends(t),
        0 <= k < t.len(),
        t[k] < lo,
    ensures
        count_within(t, lo, hi) <= t.len() - k - 1,
    decreases t.len(),
{
    reveal_with_fuel(count_within, 2);
    if t.len() > k + 1 {
        lemma_value_below(t.drop_last(), lo, hi, k);
    } else if k > 0 {
        assert(t[k - 1] <= t[k]);
        lemma_value_below(t.drop_last(), lo, hi, k - 1);
    }
}

/// In an ascending sequence, a value above `hi` leaves only earlier places for those within.
proof fn lemma_value_above(t: Seq<u64>, lo: u64, hi: u64, k: int)
    requires
        ascends(t),
        0 <= k < t.len(),
        t[k] > hi,
    ensures
        count_within(t, lo, hi) <= k,
    decreases t.len(),
{
    assert(t[k] <= t[t.len() - 1]);
    if t.len() > k + 1 {
        lemma_value_above(t.drop_last(), lo, hi, k);
    } else {
        lemma_count_at_most(t.drop_last(), lo, hi);
    }
}

/// Noise cannot skew the result: as long as more than half of the values lie between `lo` and
/// `hi`, so does the median, whatever the others are.
pub proof fn law_median_resists_outliers(s: Seq<u64>, lo: u64, hi: u64)
    requires
        2 * count_within(s, lo, hi) > s.len(),
    ensures
        lo <= middle(s) <= hi,
{
    let t = ascending(s);
    let h = s.len() as int / 2;
    lemma_ascending(s);
    lemma_count_ascending(s, lo, hi);
    lemma_count_at_most(s, lo, hi);
    if t[h] < lo {
        lemma_value_below(t, lo, hi, h);
    }
    if t[h] > hi {
        lemma_value_above(t, lo, hi, h);
    }
    if s.len() % 2 == 0 {
        if t[h - 1] < lo {
            lemma_value_below(t, lo, hi, h - 1);
        }
        if t[h - 1] > hi {
            lemma_value_above(t, lo, hi, h - 1);
        }
    }
}

} // verus!

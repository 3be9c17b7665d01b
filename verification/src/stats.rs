//! Aggregation of per-request metrics.
//!
//! Durations are integer samples (the probe loop records elapsed time in
//! microseconds). The summary gives the sample count, the exact sum, the
//! upper median (the element at index `len / 2` of the sorted samples,
//! with no interpolation for even lengths), and the minimum and maximum.
//! An empty sample list yields sentinel values: median 0, minimum
//! `u64::MAX`, maximum 0. Response byte sizes are tracked as a running
//! minimum and maximum with the same worst-case sentinels.

use vstd::prelude::*;
use vstd::relations::sorted_by;
use vstd::relations::total_ordering;
use vstd::seq_lib::lemma_sorted_unique;
use vstd::seq_lib::group_to_multiset_ensures;
use vstd::seq_lib::to_multiset_update;

verus! {

/// The ordering the duration samples are sorted by.
pub open spec fn duration_leq() -> spec_fn(u64, u64) -> bool {
    |a: u64, b: u64| a <= b
}

/// The ascending sorted rearrangement of a sample list.
pub open spec fn sorted_of(s: Seq<u64>) -> Seq<u64> {
    s.sort_by(duration_leq())
}

/// The exact sum of a sample list.
pub open spec fn sum_of(s: Seq<u64>) -> int
    decreases s.len(),
{
    if s.len() == 0 {
        0
    } else {
        sum_of(s.drop_last()) + s.last()
    }
}

/// `duration_leq` is a total ordering, so the sorted rearrangement is
/// unique.
pub proof fn lemma_duration_leq_total_ordering()
    ensures
        total_ordering(duration_leq()),
{
    let r = duration_leq();
    assert forall|x: u64, y: u64, z: u64| #[trigger] r(x, y) && #[trigger] r(y, z) implies r(x, z) by {}
}

/// The sum of a sample list is bounded by its length times `u64::MAX`.
pub proof fn lemma_sum_of_bounds(s: Seq<u64>)
    ensures
        0 <= sum_of(s) <= s.len() * (u64::MAX as int),
    decreases s.len(),
{
    if s.len() > 0 {
        lemma_sum_of_bounds(s.drop_last());
    }
}

/// Sort a sample list ascending, in place.
pub fn sort_durations(v: &mut Vec<u64>)
    ensures
        final(v)@ == sorted_of(old(v)@),
        final(v)@.to_multiset() == old(v)@.to_multiset(),
        sorted_by(final(v)@, duration_leq()),
{
    let n = v.len();
    let mut i: usize = 0;
    while i < n
        invariant
            n == v.len(),
            0 <= i <= n,
            v@.to_multiset() == old(v)@.to_multiset(),
            forall|a: int, b: int| 0 <= a < b < i ==> v@[a] <= v@[b],
            forall|a: int, b: int| 0 <= a < i <= b < n ==> v@[a] <= v@[b],
        decreases n - i,
    {
        let mut m: usize = i;
        let mut k: usize = i + 1;
        while k < n
            invariant
                i <= m < k <= n,
                n == v.len(),
                forall|t: int| i <= t < k ==> v@[m as int] <= v@[t],
            decreases n - k,
        {
            if v[k] < v[m] {
                m = k;
            }
            k += 1;
        }
        let ghost s = v@;
        let a = v[i];
        let b = v[m];
        v.set(i, b);
        v.set(m, a);
        proof {
            broadcast use vstd::multiset::group_multiset_axioms;
            broadcast use group_to_multiset_ensures;
            broadcast use to_multiset_update;

            assert(s[i as int] == a);
            assert(s.contains(a));
            assert(s.to_multiset().count(a) > 0);
            let s1 = s.update(i as int, b);
            assert(s1[m as int] == b);
            assert(v@ == s1.update(m as int, a));
            assert(s1.to_multiset() == s.to_multiset().insert(b).remove(a));
            assert(v@.to_multiset() == s1.to_multiset().insert(a).remove(b));
            assert(v@.to_multiset() =~= s.to_multiset());
        }
        i += 1;
    }
    proof {
        lemma_duration_leq_total_ordering();
        old(v)@.lemma_sort_by_ensures(duration_leq());
        lemma_sorted_unique(v@, sorted_of(old(v)@), duration_leq());
        assert(v@ =~= sorted_of(old(v)@));
    }
}

/// The summary the probe prints after its loop: count, exact sum, upper
/// median, minimum and maximum of the duration samples.
pub struct DurationStats {
    /// How many samples were recorded.
    pub sample_count: usize,
    /// The exact sum of all samples.
    pub total: u128,
    /// The sample at index `len / 2` of the sorted list; 0 when empty.
    pub median: u64,
    /// The smallest sample; `u64::MAX` when empty.
    pub min: u64,
    /// The largest sample; 0 when empty.
    pub max: u64,
}

/// Reduce the recorded duration samples to their summary.
pub fn aggregate_durations(durations: Vec<u64>) -> (s: DurationStats)
    ensures
        s.sample_count == durations@.len(),
        s.total as int == sum_of(durations@),
        durations@.len() == 0 ==> s.median == 0 && s.min == u64::MAX && s.max == 0,
        durations@.len() > 0 ==> {
            &&& s.median == sorted_of(durations@)[durations@.len() as int / 2]
            &&& s.min == sorted_of(durations@)[0]
            &&& s.max == sorted_of(durations@)[durations@.len() - 1]
            &&& durations@.contains(s.min)
            &&& durations@.contains(s.max)
            &&& forall|t: int| 0 <= t < durations@.len() ==> s.min <= #[trigger] durations@[t] <= s.max
        },
{
    let mut v = durations;
    let ghost orig = v@;
    let mut total: u128 = 0;
    let mut idx: usize = 0;
    while idx < v.len()
        invariant
            0 <= idx <= v.len(),
            v@ == orig,
            total as int == sum_of(orig.subrange(0, idx as int)),
            total as int <= idx * (u64::MAX as int),
        decreases v.len() - idx,
    {
        proof {
            assert(orig.subrange(0, idx + 1).drop_last() =~= orig.subrange(0, idx as int));
            assert(orig.subrange(0, idx + 1).last() == orig[idx as int]);
        }
        total = total + v[idx] as u128;
        idx += 1;
    }
    proof {
        assert(orig.subrange(0, orig.len() as int) =~= orig);
    }
    if v.len() == 0 {
        return DurationStats {
            sample_count: 0,
            total,
            median: 0,
            min: u64::MAX,
            max: 0,
        };
    }
    sort_durations(&mut v);
    proof {
        broadcast use group_to_multiset_ensures;

        assert(v@.to_multiset().len() == orig.to_multiset().len());
        assert(v@.len() == orig.len());
    }
    let n = v.len();
    let median = v[n / 2];
    let min = v[0];
    let max = v[n - 1];
    proof {
        broadcast use group_to_multiset_ensures;

        assert(v@.contains(min));
        assert(v@.contains(max));
        assert(orig.to_multiset().count(min) > 0);
        assert(orig.to_multiset().count(max) > 0);
        assert forall|t: int| 0 <= t < orig.len() implies min <= #[trigger] orig[t] <= max by {
            assert(orig.contains(orig[t]));
            assert(v@.to_multiset().count(orig[t]) > 0);
            assert(v@.contains(orig[t]));
            let j = choose|j: int| 0 <= j < v@.len() && v@[j] == orig[t];
            if j > 0 {
                assert(duration_leq()(v@[0], v@[j]));
            }
            if j < v@.len() - 1 {
                assert(duration_leq()(v@[j], v@[v@.len() - 1]));
            }
        }
    }
    DurationStats {
        sample_count: n,
        total,
        median,
        min,
        max,
    }
}

/// Running minimum and maximum of response byte sizes. Starts from the
/// worst-case sentinels, so a run during which nothing was read reports
/// minimum `usize::MAX` and maximum 0.
pub struct ByteSizeRange {
    /// The smallest byte count recorded so far; `usize::MAX` initially.
    pub min_size: usize,
    /// The largest byte count recorded so far; 0 initially.
    pub max_size: usize,
}

impl ByteSizeRange {
    /// A tracker that has seen no response yet.
    pub fn new() -> (r: ByteSizeRange)
        ensures
            r.min_size == usize::MAX,
            r.max_size == 0,
    {
        ByteSizeRange { min_size: usize::MAX, max_size: 0 }
    }

    /// Fold one response's byte count into the running range.
    pub fn record(&mut self, n: usize)
        ensures
            final(self).min_size == (if n < old(self).min_size { n } else { old(self).min_size }),
            final(self).max_size == (if n > old(self).max_size { n } else { old(self).max_size }),
    {
        if n < self.min_size {
            self.min_size = n;
        }
        if n > self.max_size {
            self.max_size = n;
        }
    }
}

} // verus!

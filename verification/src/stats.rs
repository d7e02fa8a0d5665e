//! Aggregation of per-run durations: a running list of samples together
//! with the highest and lowest duration seen so far, each attributed to
//! the first run that reached it, and the derived total and average.

use vstd::prelude::*;

verus! {

/// One extreme duration (in milliseconds) together with the zero-based
/// index of the run that produced it.
#[derive(Clone, Copy, Debug)]
pub struct SingleResult {
    pub value: u128,
    pub index: u32,
}

/// Sum of the first `k` elements of `s`.
pub open spec fn sum_prefix(s: Seq<u128>, k: int) -> int
    decreases k,
{
    if k <= 0 {
        0
    } else {
        sum_prefix(s, k - 1) + s[k - 1]
    }
}

/// Sum of all elements of `s`.
pub open spec fn sum(s: Seq<u128>) -> int {
    sum_prefix(s, s.len() as int)
}

pub proof fn lemma_sum_prefix_nonneg(s: Seq<u128>, k: int)
    requires
        0 <= k <= s.len(),
    ensures
        0 <= sum_prefix(s, k),
    decreases k,
{
    if k > 0 {
        lemma_sum_prefix_nonneg(s, k - 1);
    }
}

pub proof fn lemma_sum_prefix_mono(s: Seq<u128>, j: int, k: int)
    requires
        0 <= j <= k <= s.len(),
    ensures
        sum_prefix(s, j) <= sum_prefix(s, k),
    decreases k,
{
    if j < k {
        lemma_sum_prefix_mono(s, j, k - 1);
    }
}

/// The recorded durations of a benchmarking session, with the running
/// extremes. Seeded with `highest = {0, 0}` and `lowest = {u128::MAX, 0}`,
/// so that the first recorded sample takes over whichever extreme it
/// reaches; strict comparisons on updates keep the earliest run index
/// when several runs tie at an extreme value.
pub struct Results {
    pub times: Vec<u128>,
    pub highest: SingleResult,
    pub lowest: SingleResult,
}

/// The statistics derived from a non-empty set of samples: total and
/// floor-average duration, and both attributed extremes.
#[derive(Clone, Copy, Debug)]
pub struct AggregateResult {
    pub total: u128,
    pub average: u128,
    pub highest: SingleResult,
    pub lowest: SingleResult,
}

impl Results {
    /// Every recorded duration lies between `lowest.value` and
    /// `highest.value`, each extreme is one of the recorded durations,
    /// and each is attributed to the first run that reached it. With no
    /// samples recorded yet, both extremes hold their seed values.
    pub open spec fn wf(self) -> bool {
        &&& self.times@.len() <= u32::MAX
        &&& if self.times@.len() == 0 {
            &&& self.highest.value == 0
            &&& self.highest.index == 0
            &&& self.lowest.value == u128::MAX
            &&& self.lowest.index == 0
        } else {
            &&& self.highest.index < self.times@.len()
            &&& self.times@[self.highest.index as int] == self.highest.value
            &&& (forall|i: int| 0 <= i < self.times@.len() ==> self.times@[i] <= self.highest.value)
            &&& (forall|i: int| 0 <= i < self.highest.index ==> self.times@[i] < self.highest.value)
            &&& self.lowest.index < self.times@.len()
            &&& self.times@[self.lowest.index as int] == self.lowest.value
            &&& (forall|i: int| 0 <= i < self.times@.len() ==> self.times@[i] >= self.lowest.value)
            &&& (forall|i: int| 0 <= i < self.lowest.index ==> self.times@[i] > self.lowest.value)
        }
    }

    /// A fresh accumulator with no samples and the seed extremes.
    pub fn new() -> (r: Results)
        ensures
            r.wf(),
            r.times@.len() == 0,
            r.highest.value == 0 && r.highest.index == 0,
            r.lowest.value == u128::MAX && r.lowest.index == 0,
    {
        Results {
            times: Vec::new(),
            highest: SingleResult { value: 0, index: 0 },
            lowest: SingleResult { value: u128::MAX, index: 0 },
        }
    }

    /// Record the duration of run `index`. The duration is appended to
    /// the sample list; an extreme is replaced exactly when the new
    /// duration strictly exceeds (respectively undercuts) it, so ties
    /// keep the earlier run index.
    pub fn record(&mut self, index: u32, duration: u128)
        requires
            old(self).wf(),
            old(self).times@.len() == index as int,
            index < u32::MAX,
        ensures
            final(self).wf(),
            final(self).times@ == old(self).times@.push(duration),
            (if duration > old(self).highest.value {
                final(self).highest.value == duration && final(self).highest.index == index
            } else {
                final(self).highest.value == old(self).highest.value
                    && final(self).highest.index == old(self).highest.index
            }),
            (if duration < old(self).lowest.value {
                final(self).lowest.value == duration && final(self).lowest.index == index
            } else {
                final(self).lowest.value == old(self).lowest.value
                    && final(self).lowest.index == old(self).lowest.index
            }),
    {
        self.times.push(duration);
        if duration < self.lowest.value {
            self.lowest = SingleResult { value: duration, index };
        }
        if duration > self.highest.value {
            self.highest = SingleResult { value: duration, index };
        }
        proof {
            let t0 = old(self).times@;
            let t1 = self.times@;
            assert(t1 == t0.push(duration));
            assert(t1[index as int] == duration);
            if t0.len() > 0 {
                assert(t1[old(self).highest.index as int] == t0[old(self).highest.index as int]);
                assert(t1[old(self).lowest.index as int] == t0[old(self).lowest.index as int]);
            }
            assert forall|i: int| 0 <= i < t1.len() implies t1[i] <= self.highest.value by {
                if i < t0.len() {
                    assert(t1[i] == t0[i]);
                } else {
                    assert(t1[i] == duration);
                }
            }
            assert forall|i: int| 0 <= i < t1.len() implies t1[i] >= self.lowest.value by {
                if i < t0.len() {
                    assert(t1[i] == t0[i]);
                } else {
                    assert(t1[i] == duration);
                }
            }
            assert forall|i: int| 0 <= i < self.highest.index implies t1[i]
                < self.highest.value by {
                assert(t1[i] == t0[i]);
            }
            assert forall|i: int| 0 <= i < self.lowest.index implies t1[i]
                > self.lowest.value by {
                assert(t1[i] == t0[i]);
            }
        }
    }

    /// Total of all recorded durations.
    pub fn total(&self) -> (r: u128)
        requires
            sum(self.times@) <= u128::MAX,
        ensures
            r == sum(self.times@),
    {
        let mut s: u128 = 0;
        let mut i: usize = 0;
        while i < self.times.len()
            invariant
                i <= self.times@.len(),
                s == sum_prefix(self.times@, i as int),
                sum(self.times@) <= u128::MAX,
            decreases self.times@.len() - i,
        {
            proof {
                lemma_sum_prefix_mono(self.times@, i + 1, self.times@.len() as int);
                lemma_sum_prefix_nonneg(self.times@, i as int);
            }
            s = s + self.times[i];
            i = i + 1;
        }
        s
    }

    /// The derived statistics, or `None` when no sample was recorded
    /// (so that the average is never computed for zero runs).
    pub fn aggregate(&self) -> (r: Option<AggregateResult>)
        requires
            self.wf(),
            sum(self.times@) <= u128::MAX,
        ensures
            (r is None) <==> self.times@.len() == 0,
            (r matches Some(a) ==> {
                &&& a.total == sum(self.times@)
                &&& a.average == sum(self.times@) / self.times@.len() as int
                &&& a.highest.value == self.highest.value
                &&& a.highest.index == self.highest.index
                &&& a.lowest.value == self.lowest.value
                &&& a.lowest.index == self.lowest.index
            }),
    {
        if self.times.len() == 0 {
            None
        } else {
            let t = self.total();
            Some(AggregateResult {
                total: t,
                average: t / (self.times.len() as u128),
                highest: self.highest,
                lowest: self.lowest,
            })
        }
    }
}

/// After any number of recorded samples, the tracked extremes bound
/// every recorded duration, and when several runs tie at an extreme
/// value its attributed index is the smallest such run index.
pub proof fn lemma_extremes_bound_samples(r: Results)
    requires
        r.wf(),
        r.times@.len() > 0,
    ensures
        r.highest.index < r.times@.len() && r.times@[r.highest.index as int]
            == r.highest.value,
        r.lowest.index < r.times@.len() && r.times@[r.lowest.index as int] == r.lowest.value,
        forall|i: int| 0 <= i < r.times@.len() ==> r.times@[i] <= r.highest.value,
        forall|i: int| 0 <= i < r.times@.len() ==> r.times@[i] >= r.lowest.value,
        forall|i: int|
            0 <= i < r.times@.len() && r.times@[i] == r.highest.value ==> r.highest.index <= i,
        forall|i: int|
            0 <= i < r.times@.len() && r.times@[i] == r.lowest.value ==> r.lowest.index <= i,
{
}

/// Floor average of a non-empty list of durations, computed at the
/// end of a session over every recorded sample.
pub fn vec_average(values: Vec<u128>) -> (r: u128)
    requires
        values@.len() > 0,
        sum(values@) <= u128::MAX,
    ensures
        r == sum(values@) / values@.len() as int,
{
    let mut s: u128 = 0;
    let mut i: usize = 0;
    while i < values.len()
        invariant
            i <= values@.len(),
            s == sum_prefix(values@, i as int),
            sum(values@) <= u128::MAX,
        decreases values@.len() - i,
    {
        proof {
            lemma_sum_prefix_mono(values@, i + 1, values@.len() as int);
            lemma_sum_prefix_nonneg(values@, i as int);
        }
        s = s + values[i];
        i = i + 1;
    }
    s / (values.len() as u128)
}

} // verus!

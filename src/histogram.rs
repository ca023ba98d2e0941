//! Histogram of escape counts.
//!
//! Each pixel contributes the whole part of its escape value, its bucket. A
//! bucket below the iteration cap counts as an escape; the cap itself marks a
//! point that never escaped and is left out.

use vstd::prelude::*;

verus! {

/// Number of entries of `s` that lie in `[lo, hi)`.
pub open spec fn count_in(s: Seq<u16>, lo: int, hi: int) -> nat
    decreases s.len(),
{
    if s.len() == 0 {
        0
    } else {
        count_in(s.drop_last(), lo, hi) + if lo <= s.last() < hi {
            1nat
        } else {
            0nat
        }
    }
}

/// Sum of the first `k` entries of `c`.
pub open spec fn sum_prefix(c: Seq<nat>, k: int) -> nat
    decreases k,
{
    if k <= 0 || c.len() < k {
        0
    } else {
        sum_prefix(c, k - 1) + c[k - 1]
    }
}

/// The histogram of a sequence of buckets under iteration cap `cap`: one count
/// per bucket below `cap`, and the number of escapes.
pub open spec fn histogram_of(s: Seq<u16>, cap: nat) -> (Seq<nat>, nat) {
    (Seq::new(cap, |i: int| count_in(s, i, i + 1)), count_in(s, 0, cap as int))
}

/// Splitting a range of values splits the count.
pub proof fn lemma_count_split(s: Seq<u16>, a: int, b: int, c: int)
    requires
        a <= b <= c,
    ensures
        count_in(s, a, c) == count_in(s, a, b) + count_in(s, b, c),
    decreases s.len(),
{
    if s.len() > 0 {
        lemma_count_split(s.drop_last(), a, b, c);
    }
}

/// Appending one bucket adds it to the count of each range that holds it.
pub proof fn lemma_count_push(s: Seq<u16>, v: u16, lo: int, hi: int)
    ensures
        count_in(s.push(v), lo, hi) == count_in(s, lo, hi) + if lo <= v < hi {
            1nat
        } else {
            0nat
        },
{
    assert(s.push(v).drop_last() =~= s);
}

/// A prefix sum of non-negative entries grows with its length.
pub proof fn lemma_sum_prefix_mono(c: Seq<nat>, i: int, j: int)
    requires
        0 <= i <= j <= c.len(),
    ensures
        sum_prefix(c, i) <= sum_prefix(c, j),
    decreases j - i,
{
    if i < j {
        lemma_sum_prefix_mono(c, i, j - 1);
    }
}

/// Adding one to an entry adds one to every prefix sum that covers it.
pub proof fn lemma_sum_prefix_bump(c: Seq<nat>, i: int, k: int)
    requires
        0 <= i < c.len(),
        0 <= k <= c.len(),
    ensures
        sum_prefix(c.update(i, c[i] + 1), k) == sum_prefix(c, k) + if i < k {
            1nat
        } else {
            0nat
        },
    decreases k,
{
    if k > 0 {
        lemma_sum_prefix_bump(c, i, k - 1);
    }
}

/// The counts of the first `k` buckets add up to the number of entries below `k`;
/// with `k` the cap, the counts add up to the number of escapes.
pub proof fn lemma_histogram_prefix(s: Seq<u16>, cap: nat, k: int)
    requires
        0 <= k <= cap,
    ensures
        sum_prefix(histogram_of(s, cap).0, k) == count_in(s, 0, k),
    decreases k,
{
    if k > 0 {
        lemma_histogram_prefix(s, cap, k - 1);
        lemma_count_split(s, 0, k - 1, k);
    } else {
        lemma_count_empty(s, 0);
    }
}

/// The cumulative distribution of a histogram never decreases: the number of
/// escapes in buckets `0..=i` is at most the number in buckets `0..=j` for
/// `i <= j`, and over all buckets it is the number of escapes. Divided by that
/// number, these are the entries of the hue table below the cap.
pub proof fn lemma_cumulative_monotone(s: Seq<u16>, cap: nat, i: int, j: int)
    requires
        0 <= i <= j < cap,
    ensures
        sum_prefix(histogram_of(s, cap).0, i + 1) <= sum_prefix(histogram_of(s, cap).0, j + 1),
        sum_prefix(histogram_of(s, cap).0, cap as int) == histogram_of(s, cap).1,
{
    lemma_histogram_prefix(s, cap, i + 1);
    lemma_histogram_prefix(s, cap, j + 1);
    lemma_histogram_prefix(s, cap, cap as int);
    lemma_count_split(s, 0, i + 1, j + 1);
}

/// An empty range holds no entry.
pub proof fn lemma_count_empty(s: Seq<u16>, a: int)
    ensures
        count_in(s, a, a) == 0,
    decreases s.len(),
{
    if s.len() > 0 {
        lemma_count_empty(s.drop_last(), a);
    }
}

/// A range that holds some entry of `s` has a positive count.
pub proof fn lemma_count_member(s: Seq<u16>, q: int, lo: int, hi: int)
    requires
        0 <= q < s.len(),
        lo <= s[q] < hi,
    ensures
        count_in(s, lo, hi) >= 1,
    decreases s.len(),
{
    if q < s.len() - 1 {
        lemma_count_member(s.drop_last(), q, lo, hi);
    }
}

/// Escape counts gathered over one render.
pub struct Histogram {
    counts: Vec<usize>,
    escaped: usize,
}

impl View for Histogram {
    /// The count of each bucket, and the number of escapes.
    type V = (Seq<nat>, nat);

    closed spec fn view(&self) -> (Seq<nat>, nat) {
        (self.counts@.map_values(|c: usize| c as nat), self.escaped as nat)
    }
}

impl Histogram {
    /// The number of escapes is the sum of the bucket counts.
    pub closed spec fn wf(&self) -> bool {
        self@.1 == sum_prefix(self@.0, self@.0.len() as int)
    }

    /// A histogram with `cap` empty buckets: the histogram of no pixel.
    pub fn new(cap: u16) -> (h: Histogram)
        ensures
            h.wf(),
            h@ == histogram_of(Seq::empty(), cap as nat),
    {
        let mut counts: Vec<usize> = Vec::new();
        let mut i: u16 = 0;
        while i < cap
            invariant
                i <= cap,
                counts@.len() == i,
                forall|j: int| 0 <= j < i ==> counts@[j] == 0,
            decreases cap - i,
        {
            counts.push(0);
            i += 1;
        }
        let h = Histogram { counts, escaped: 0 };
        assert(h@.0 =~= histogram_of(Seq::empty(), cap as nat).0);
        assert(h.wf()) by {
            let c = h@.0;
            assert forall|k: int| 0 <= k <= c.len() implies sum_prefix(c, k) == 0 by {
                lemma_sum_prefix_zero(c, k);
            }
        }
        h
    }

    /// Records one pixel whose escape value has whole part `bucket`. A bucket at
    /// or above the cap is a point that never escaped and changes nothing.
    pub fn record(&mut self, bucket: u16)
        requires
            old(self).wf(),
            old(self)@.1 < usize::MAX,
        ensures
            final(self).wf(),
            (bucket as int) < old(self)@.0.len() ==> final(self)@ == (
                old(self)@.0.update(bucket as int, old(self)@.0[bucket as int] + 1),
                old(self)@.1 + 1,
            ),
            (bucket as int) >= old(self)@.0.len() ==> final(self)@ == old(self)@,
    {
        let b = bucket as usize;
        if b < self.counts.len() {
            proof {
                let c = old(self)@.0;
                lemma_sum_prefix_mono(c, b as int + 1, c.len() as int);
                assert(sum_prefix(c, b as int + 1) == sum_prefix(c, b as int) + c[b as int]);
                lemma_sum_prefix_bump(c, b as int, c.len() as int);
            }
            self.counts.set(b, self.counts[b] + 1);
            self.escaped = self.escaped + 1;
            assert(self@.0 =~= old(self)@.0.update(bucket as int, old(self)@.0[bucket as int] + 1));
        }
    }

    /// The number of pixels that escaped.
    pub fn escaped(&self) -> (r: usize)
        ensures
            r == self@.1,
    {
        self.escaped
    }

    /// The number of buckets: the iteration cap.
    pub fn buckets(&self) -> (r: usize)
        ensures
            r == self@.0.len(),
    {
        self.counts.len()
    }

    /// The number of pixels that escaped at bucket `bucket`.
    pub fn count(&self, bucket: usize) -> (r: usize)
        requires
            bucket < self@.0.len(),
        ensures
            r == self@.0[bucket as int],
    {
        self.counts[bucket]
    }
}

/// A sequence of zeros sums to zero.
proof fn lemma_sum_prefix_zero(c: Seq<nat>, k: int)
    requires
        0 <= k <= c.len(),
        forall|j: int| 0 <= j < c.len() ==> c[j] == 0,
    ensures
        sum_prefix(c, k) == 0,
    decreases k,
{
    if k > 0 {
        lemma_sum_prefix_zero(c, k - 1);
    }
}

/// Recording a bucket turns the histogram of a sequence into the histogram of
/// that sequence with the bucket appended.
pub proof fn lemma_histogram_push(s: Seq<u16>, cap: nat, v: u16)
    ensures
        (v as int) < cap ==> histogram_of(s.push(v), cap) == (
            histogram_of(s, cap).0.update(v as int, histogram_of(s, cap).0[v as int] + 1),
            histogram_of(s, cap).1 + 1,
        ),
        (v as int) >= cap ==> histogram_of(s.push(v), cap) == histogram_of(s, cap),
{
    let h0 = histogram_of(s, cap);
    let h1 = histogram_of(s.push(v), cap);
    lemma_count_push(s, v, 0, cap as int);
    assert forall|i: int| 0 <= i < cap implies h1.0[i] == count_in(s, i, i + 1) + if i == v {
        1nat
    } else {
        0nat
    } by {
        lemma_count_push(s, v, i, i + 1);
    }
    if (v as int) < cap {
        assert(h1.0 =~= h0.0.update(v as int, h0.0[v as int] + 1));
    } else {
        assert(h1.0 =~= h0.0);
    }
}

} // verus!

//! The latency histogram: a frequency structure over microsecond samples
//! offering percentile lookup, the maximum, and bucketed enumeration along a
//! logarithmic (doubling) and a linear scale.
//!
//! Samples are kept sorted, so every query is exact: `percentile(p)` returns
//! the sample at or below which `p` percent of the samples fall, and the
//! bucket enumerations report exact per-bucket counts.

use vstd::arithmetic::div_mod::lemma_div_is_ordered;
use vstd::arithmetic::mul::lemma_mul_inequality;
use vstd::arithmetic::power2::lemma2_to64;
use vstd::arithmetic::power2::lemma2_to64_rest;
use vstd::arithmetic::power2::lemma_pow2_strictly_increases;
use vstd::arithmetic::power2::pow2;
use vstd::multiset::Multiset;
use vstd::prelude::*;
use vstd::seq_lib::group_to_multiset_ensures;

verus! {

/// A sequence is sorted in nondecreasing order.
pub open spec fn sorted(s: Seq<u64>) -> bool {
    forall|i: int, j: int| 0 <= i <= j < s.len() ==> s[i] <= s[j]
}

/// The one-based rank of the sample reported for percentile `p` among `n`
/// samples: the smallest rank `k` with `k * 100 >= p * n`, but at least 1,
/// so that `percentile(0)` reports the smallest sample.
pub open spec fn rank_of(p: int, n: int) -> int {
    let k = (p * n + 99) / 100;
    if k < 1 {
        1
    } else {
        k
    }
}

/// The sample value at or below which `p` percent of the samples of the
/// sorted sequence `s` fall; `0` when there is no sample.
pub open spec fn value_at_percentile(s: Seq<u64>, p: int) -> u64 {
    if s.len() == 0 {
        0
    } else {
        s[rank_of(p, s.len() as int) - 1]
    }
}

/// The largest sample of the sorted sequence `s`; `0` when there is none.
pub open spec fn max_of(s: Seq<u64>) -> u64 {
    if s.len() == 0 {
        0
    } else {
        s[s.len() - 1]
    }
}

/// The inclusive upper bound of logarithmic bucket `k`: the bounds double
/// from a base of 1, and the last bucket is capped at the largest `u64`.
pub open spec fn log_upper(k: nat) -> u64 {
    if k <= 63 {
        pow2(k) as u64
    } else {
        u64::MAX
    }
}

/// Whether sample `v` falls in logarithmic bucket `k`: bucket 0 holds the
/// values up to 1, and bucket `k` spans from just above `2^(k-1)` up to
/// `2^k` inclusive; the last bucket holds everything above `2^63`.
pub open spec fn in_log_bucket(v: u64, k: nat) -> bool {
    if k == 0 {
        v <= 1
    } else if k <= 63 {
        pow2((k - 1) as nat) < v <= pow2(k)
    } else {
        pow2(63) < v
    }
}

/// How many samples of `s` fall in logarithmic bucket `k`.
pub open spec fn log_count(s: Seq<u64>, k: nat) -> nat
    decreases s.len(),
{
    if s.len() == 0 {
        0
    } else {
        log_count(s.drop_last(), k) + if in_log_bucket(s.last(), k) {
            1nat
        } else {
            0nat
        }
    }
}

/// The `(upper bound, count)` pairs of the non-empty logarithmic buckets
/// among the buckets below `k`, in ascending bucket order.
pub open spec fn log_buckets_upto(s: Seq<u64>, k: nat) -> Seq<(u64, u64)>
    decreases k,
{
    if k == 0 {
        Seq::empty()
    } else {
        log_buckets_upto(s, (k - 1) as nat) + if log_count(s, (k - 1) as nat) > 0 {
            seq![(log_upper((k - 1) as nat), log_count(s, (k - 1) as nat) as u64)]
        } else {
            Seq::empty()
        }
    }
}

/// The full logarithmic bucket enumeration: one `(upper bound, count)` pair
/// per non-empty bucket, in ascending order of upper bound.
pub open spec fn spec_log_buckets(s: Seq<u64>) -> Seq<(u64, u64)> {
    log_buckets_upto(s, 65)
}

/// The inclusive upper bound of linear bucket `j` of width `step`, capped
/// at the largest `u64`.
pub open spec fn lin_upper(j: nat, step: nat) -> u64 {
    if j * step + step - 1 > u64::MAX {
        u64::MAX
    } else {
        (j * step + step - 1) as u64
    }
}

/// Whether sample `v` falls in linear bucket `j` of width `step`: the bucket
/// holding the values from `j * step` up to but excluding `(j + 1) * step`.
pub open spec fn in_lin_bucket(v: u64, j: nat, step: nat) -> bool {
    v as nat / step == j
}

/// How many samples of `s` fall in linear bucket `j` of width `step`.
pub open spec fn lin_count(s: Seq<u64>, j: nat, step: nat) -> nat
    decreases s.len(),
{
    if s.len() == 0 {
        0
    } else {
        lin_count(s.drop_last(), j, step) + if in_lin_bucket(s.last(), j, step) {
            1nat
        } else {
            0nat
        }
    }
}

/// The `(upper bound, count)` pairs of the linear buckets below `j`, in
/// ascending bucket order; empty buckets are included with a zero count.
pub open spec fn lin_buckets_upto(s: Seq<u64>, j: nat, step: nat) -> Seq<(u64, u64)>
    decreases j,
{
    if j == 0 {
        Seq::empty()
    } else {
        lin_buckets_upto(s, (j - 1) as nat, step) + seq![
            (lin_upper((j - 1) as nat, step), lin_count(s, (j - 1) as nat, step) as u64),
        ]
    }
}

/// The full linear bucket enumeration of width `step`: one pair per bucket
/// from the first up to the bucket holding the largest sample.
pub open spec fn spec_linear_buckets(s: Seq<u64>, step: nat) -> Seq<(u64, u64)> {
    if s.len() == 0 {
        Seq::empty()
    } else {
        lin_buckets_upto(s, max_of(s) as nat / step + 1, step)
    }
}

/// The largest count among the buckets of an enumeration; `1` when there is
/// no bucket, so a bar scaled by it never divides by zero.
pub open spec fn spec_max_count(b: Seq<(u64, u64)>) -> u64
    decreases b.len(),
{
    if b.len() == 0 {
        1
    } else if b.last().1 >= spec_max_count(b.drop_last()) {
        b.last().1
    } else {
        spec_max_count(b.drop_last())
    }
}

/// The largest per-bucket count of a bucket enumeration, used to scale the
/// report's distribution bars; `1` when there is no bucket.
pub fn max_bucket_count(buckets: &Vec<(u64, u64)>) -> (m: u64)
    ensures
        m == spec_max_count(buckets@),
{
    let n: usize = buckets.len();
    let mut m: u64 = 1;
    let mut i: usize = 0;
    proof {
        assert(buckets@.take(0) =~= Seq::<(u64, u64)>::empty());
    }
    while i < n
        invariant
            i <= n,
            n == buckets@.len(),
            m == spec_max_count(buckets@.take(i as int)),
        decreases n - i,
    {
        let c: u64 = buckets[i].1;
        proof {
            assert(buckets@.take(i + 1).drop_last() =~= buckets@.take(i as int));
        }
        if c > m {
            m = c;
        }
        i = i + 1;
    }
    proof {
        assert(buckets@.take(n as int) =~= buckets@);
    }
    m
}

/// No bucket holds more samples than the sequence has.
proof fn lemma_log_count_le(s: Seq<u64>, k: nat)
    ensures
        log_count(s, k) <= s.len(),
    decreases s.len(),
{
    if s.len() > 0 {
        lemma_log_count_le(s.drop_last(), k);
    }
}

/// No linear bucket holds more samples than the sequence has.
proof fn lemma_lin_count_le(s: Seq<u64>, j: nat, step: nat)
    ensures
        lin_count(s, j, step) <= s.len(),
    decreases s.len(),
{
    if s.len() > 0 {
        lemma_lin_count_le(s.drop_last(), j, step);
    }
}

/// The percentile rank is always a valid one-based index: between 1 and the
/// sample count.
pub proof fn lemma_rank_bounds(p: int, n: int)
    requires
        0 <= p <= 100,
        1 <= n,
    ensures
        1 <= rank_of(p, n) <= n,
{
    lemma_mul_inequality(p, 100, n);
    lemma_div_is_ordered(p * n + 99, 100 * n + 99, 100);
    assert((100 * n + 99) / 100 == n);
}

/// The percentile rank never decreases as the requested percentile grows.
pub proof fn lemma_rank_monotone(p1: int, p2: int, n: int)
    requires
        0 <= p1 <= p2 <= 100,
        1 <= n,
    ensures
        rank_of(p1, n) <= rank_of(p2, n),
{
    lemma_mul_inequality(p1, p2, n);
    lemma_div_is_ordered(p1 * n + 99, p2 * n + 99, 100);
}

/// The histogram over the run's latency samples. The samples are held in
/// nondecreasing order, which [`LatencyHistogram::wf`] states and every
/// operation preserves; the queries are exact over that sorted view.
pub struct LatencyHistogram {
    /// The recorded samples, in nondecreasing order.
    pub samples: Vec<u64>,
}

impl LatencyHistogram {
    /// The histogram's invariant: its samples are sorted.
    pub open spec fn wf(self) -> bool {
        sorted(self.samples@)
    }

    /// What the histogram holds, regardless of order: the multiset of its
    /// recorded samples.
    pub open spec fn contents(self) -> Multiset<u64> {
        self.samples@.to_multiset()
    }

    /// An empty histogram.
    pub fn new() -> (h: LatencyHistogram)
        ensures
            h.wf(),
            h.samples@ == Seq::<u64>::empty(),
    {
        LatencyHistogram { samples: Vec::new() }
    }

    /// How many samples have been recorded.
    pub fn len(&self) -> (n: usize)
        ensures
            n == self.samples@.len(),
    {
        self.samples.len()
    }

    /// Records one latency sample, keeping the samples sorted: afterwards
    /// the histogram holds exactly the old samples plus the new one.
    pub fn record(&mut self, v: u64)
        requires
            old(self).wf(),
        ensures
            final(self).wf(),
            final(self).contents() == old(self).contents().insert(v),
            final(self).samples@.len() == old(self).samples@.len() + 1,
    {
        let n: usize = self.samples.len();
        let mut i: usize = 0;
        while i < n && self.samples[i] <= v
            invariant
                *self == *old(self),
                i <= n,
                n == self.samples@.len(),
                forall|j: int| 0 <= j < i ==> self.samples@[j] <= v,
            decreases n - i,
        {
            i = i + 1;
        }
        self.samples.insert(i, v);
        proof {
            let s = old(self).samples@;
            let t = self.samples@;
            assert forall|a: int, b: int| 0 <= a <= b < t.len() implies t[a] <= t[b] by {
                if b < i {
                    assert(t[a] == s[a] && t[b] == s[b]);
                } else if a > i {
                    assert(t[a] == s[a - 1] && t[b] == s[b - 1]);
                } else if a == i && b == i {
                    assert(t[a] == v);
                } else if a < i && b == i {
                    assert(t[a] == s[a] && t[b] == v);
                } else if a == i && b > i {
                    assert(t[a] == v && t[b] == s[b - 1] && i < s.len() && v < s[i as int]);
                } else {
                    assert(a < i && b > i);
                    assert(t[a] == s[a] && t[b] == s[b - 1]);
                }
            }
            broadcast use group_to_multiset_ensures;

            assert(t.remove(i as int) =~= s);
            assert(t[i as int] == v);
            assert(t.to_multiset().contains(v));
            assert(t.to_multiset() =~= s.to_multiset().insert(v));
        }
    }

    /// Builds the histogram holding exactly the given samples: the
    /// aggregation step that drains the run's latency samples.
    pub fn aggregate(samples: &Vec<u64>) -> (h: LatencyHistogram)
        ensures
            h.wf(),
            h.contents() == samples@.to_multiset(),
            h.samples@.len() == samples@.len(),
    {
        let mut h = LatencyHistogram::new();
        let n: usize = samples.len();
        let mut i: usize = 0;
        proof {
            broadcast use group_to_multiset_ensures;

            assert(samples@.take(0) =~= Seq::<u64>::empty());
        }
        while i < n
            invariant
                h.wf(),
                i <= n,
                n == samples@.len(),
                h.samples@.len() == i,
                h.contents() == samples@.take(i as int).to_multiset(),
            decreases n - i,
        {
            h.record(samples[i]);
            proof {
                broadcast use group_to_multiset_ensures;

                assert(samples@.take(i + 1) =~= samples@.take(i as int).push(samples@[i as int]));
            }
            i = i + 1;
        }
        proof {
            assert(samples@.take(n as int) =~= samples@);
        }
        h
    }

    /// The sample value at or below which `p` percent of the samples fall;
    /// `0` when the histogram is empty.
    pub fn percentile(&self, p: u64) -> (r: u64)
        requires
            self.wf(),
            p <= 100,
        ensures
            r == value_at_percentile(self.samples@, p as int),
    {
        let n: usize = self.samples.len();
        if n == 0 {
            return 0;
        }
        proof {
            lemma_rank_bounds(p as int, n as int);
            lemma_mul_inequality(p as int, 100, n as int);
        }
        let num: u128 = (p as u128) * (n as u128) + 99;
        let q: u128 = num / 100;
        let k: usize = if q < 1 {
            1
        } else {
            q as usize
        };
        self.samples[k - 1]
    }

    /// The largest recorded sample; `0` when the histogram is empty.
    pub fn max_value(&self) -> (r: u64)
        requires
            self.wf(),
        ensures
            r == max_of(self.samples@),
    {
        let n: usize = self.samples.len();
        if n == 0 {
            0
        } else {
            self.samples[n - 1]
        }
    }

    /// How many samples fall in logarithmic bucket `k`.
    fn log_bucket_count(&self, k: u64) -> (c: u64)
        requires
            k <= 64,
        ensures
            c == log_count(self.samples@, k as nat),
    {
        let s = &self.samples;
        let n: usize = s.len();
        let mut c: u64 = 0;
        let mut i: usize = 0;
        proof {
            assert(self.samples@.take(0) =~= Seq::<u64>::empty());
        }
        while i < n
            invariant
                i <= n,
                n == self.samples@.len(),
                s == &self.samples,
                c == log_count(self.samples@.take(i as int), k as nat),
            decreases n - i,
        {
            let x: u64 = s[i];
            let hit: bool = if k == 0 {
                x <= 1
            } else if k <= 63 {
                let lo: u64 = pow2_u64(k - 1);
                let hi: u64 = pow2_u64(k);
                lo < x && x <= hi
            } else {
                let lo: u64 = pow2_u64(63);
                x > lo
            };
            proof {
                lemma_log_count_le(self.samples@.take(i as int), k as nat);
                assert(self.samples@.take(i + 1).drop_last() =~= self.samples@.take(i as int));
                assert(hit == in_log_bucket(self.samples@[i as int], k as nat));
            }
            if hit {
                c = c + 1;
            }
            i = i + 1;
        }
        proof {
            assert(self.samples@.take(n as int) =~= self.samples@);
        }
        c
    }

    /// Enumerates the non-empty logarithmic buckets: for each, its inclusive
    /// upper bound (the bounds double from a base of 1) and the exact number
    /// of samples falling in it, in ascending order of upper bound.
    pub fn log_buckets(&self) -> (out: Vec<(u64, u64)>)
        ensures
            out@ == spec_log_buckets(self.samples@),
    {
        let mut out: Vec<(u64, u64)> = Vec::new();
        let mut k: u64 = 0;
        proof {
            assert(out@ =~= log_buckets_upto(self.samples@, 0));
        }
        while k < 65
            invariant
                k <= 65,
                out@ == log_buckets_upto(self.samples@, k as nat),
            decreases 65 - k,
        {
            let c: u64 = self.log_bucket_count(k);
            let ghost prev = out@;
            if c > 0 {
                let upper: u64 = if k <= 63 {
                    pow2_u64(k)
                } else {
                    u64::MAX
                };
                out.push((upper, c));
                proof {
                    assert(upper == log_upper(k as nat));
                    assert(out@ =~= prev + seq![(log_upper(k as nat), c)]);
                }
            } else {
                proof {
                    assert(out@ =~= prev + Seq::<(u64, u64)>::empty());
                }
            }
            k = k + 1;
        }
        out
    }

    /// How many samples fall in linear bucket `j` of width `step`.
    fn lin_bucket_count(&self, j: u64, step: u64) -> (c: u64)
        requires
            step >= 1,
        ensures
            c == lin_count(self.samples@, j as nat, step as nat),
    {
        let s = &self.samples;
        let n: usize = s.len();
        let mut c: u64 = 0;
        let mut i: usize = 0;
        proof {
            assert(self.samples@.take(0) =~= Seq::<u64>::empty());
        }
        while i < n
            invariant
                step >= 1,
                i <= n,
                n == self.samples@.len(),
                s == &self.samples,
                c == lin_count(self.samples@.take(i as int), j as nat, step as nat),
            decreases n - i,
        {
            let x: u64 = s[i];
            let hit: bool = x / step == j;
            proof {
                lemma_lin_count_le(self.samples@.take(i as int), j as nat, step as nat);
                assert(self.samples@.take(i + 1).drop_last() =~= self.samples@.take(i as int));
                assert(hit == in_lin_bucket(self.samples@[i as int], j as nat, step as nat));
            }
            if hit {
                c = c + 1;
            }
            i = i + 1;
        }
        proof {
            assert(self.samples@.take(n as int) =~= self.samples@);
        }
        c
    }

    /// Enumerates the linear buckets of width `step`, from the first up to
    /// the bucket holding the largest sample: for each, its inclusive upper
    /// bound and the exact number of samples falling in it; empty buckets
    /// appear with a zero count, and an empty histogram yields no buckets.
    pub fn linear_buckets(&self, step: u64) -> (out: Vec<(u64, u64)>)
        requires
            self.wf(),
            step >= 1,
        ensures
            out@ == spec_linear_buckets(self.samples@, step as nat),
    {
        let mut out: Vec<(u64, u64)> = Vec::new();
        if self.samples.len() == 0 {
            return out;
        }
        let m: u64 = self.max_value();
        let buckets: u128 = (m as u128) / (step as u128) + 1;
        let mut j: u128 = 0;
        proof {
            assert(out@ =~= lin_buckets_upto(self.samples@, 0, step as nat));
        }
        while j < buckets
            invariant
                self.wf(),
                step >= 1,
                self.samples@.len() > 0,
                m == max_of(self.samples@),
                buckets == m as nat / step as nat + 1,
                j <= buckets,
                out@ == lin_buckets_upto(self.samples@, j as nat, step as nat),
            decreases buckets - j,
        {
            let jq: u64 = j as u64;
            let c: u64 = self.lin_bucket_count(jq, step);
            proof {
                vstd::arithmetic::div_mod::lemma_fundamental_div_mod(m as int, step as int);
                vstd::arithmetic::div_mod::lemma_mod_bound(m as int, step as int);
                lemma_mul_inequality(jq as int, m as int / step as int, step as int);
            }
            let low128: u128 = (jq as u128) * (step as u128);
            let up128: u128 = low128 + (step as u128) - 1;
            let upper: u64 = if up128 > 0xffff_ffff_ffff_ffff_u128 {
                u64::MAX
            } else {
                up128 as u64
            };
            let ghost prev = out@;
            out.push((upper, c));
            proof {
                assert(upper == lin_upper(jq as nat, step as nat));
                assert(out@ =~= prev + seq![
                    (lin_upper(jq as nat, step as nat), lin_count(
                        self.samples@,
                        jq as nat,
                        step as nat,
                    ) as u64),
                ]);
            }
            j = j + 1;
        }
        out
    }
}

/// Computes `2^k` for exponents small enough that the power fits in `u64`.
fn pow2_u64(k: u64) -> (r: u64)
    requires
        k <= 63,
    ensures
        r == pow2(k as nat),
{
    let mut r: u64 = 1;
    let mut i: u64 = 0;
    proof {
        lemma2_to64();
        lemma2_to64_rest();
    }
    while i < k
        invariant
            i <= k,
            k <= 63,
            r == pow2(i as nat),
        decreases k - i,
    {
        proof {
            lemma2_to64();
            lemma2_to64_rest();
            if i + 1 < 63 {
                lemma_pow2_strictly_increases((i + 1) as nat, 63);
            }
            assert(pow2((i + 1) as nat) == 2 * pow2(i as nat)) by {
                vstd::arithmetic::power2::lemma_pow2_unfold((i + 1) as nat);
            }
        }
        r = r * 2;
        i = i + 1;
    }
    r
}

/// Percentile monotonicity: on a histogram with at least one sample, a
/// higher percentile never reports a smaller value, and no percentile
/// reports a value above the maximum.
pub proof fn lemma_percentile_monotone(s: Seq<u64>, p1: int, p2: int)
    requires
        sorted(s),
        s.len() > 0,
        0 <= p1 <= p2 <= 100,
    ensures
        value_at_percentile(s, p1) <= value_at_percentile(s, p2),
        value_at_percentile(s, p2) <= max_of(s),
{
    lemma_rank_bounds(p1, s.len() as int);
    lemma_rank_bounds(p2, s.len() as int);
    lemma_rank_monotone(p1, p2, s.len() as int);
}

/// The sorted view is determined by the recorded samples alone: two
/// well-formed histograms holding the same samples are equal, whatever the
/// order their samples arrived in, so every query agrees on them.
pub proof fn lemma_contents_determine_view(h1: LatencyHistogram, h2: LatencyHistogram)
    requires
        h1.wf(),
        h2.wf(),
        h1.contents() == h2.contents(),
    ensures
        h1.samples@ == h2.samples@,
{
    let leq = (|a: u64, b: u64| a <= b);
    assert(vstd::relations::sorted_by(h1.samples@, leq));
    assert(vstd::relations::sorted_by(h2.samples@, leq));
    vstd::seq_lib::lemma_sorted_unique(h1.samples@, h2.samples@, leq);
    assert(h1.samples@ =~= h2.samples@);
}

/// Query idempotence: the percentile and maximum queries leave the histogram
/// untouched and their contracts determine the result from the samples
/// alone, so any two results of the same query on the same completed
/// histogram are identical.
pub proof fn lemma_query_deterministic(s: Seq<u64>, p: int, r1: u64, r2: u64, m1: u64, m2: u64)
    requires
        r1 == value_at_percentile(s, p),
        r2 == value_at_percentile(s, p),
        m1 == max_of(s),
        m2 == max_of(s),
    ensures
        r1 == r2,
        m1 == m2,
{
}

} // verus!

//! Fixed-width latency histogram: 1 ms buckets over [-1 s, +10 s), under- and
//! overflow tails, exact extremes. Safe for day-scale files where keeping the
//! samples is not.
use vstd::prelude::*;

verus! {

pub const BUCKET_NS: i64 = 1_000_000;

pub const LO_NS: i64 = -1_000_000_000;

pub const HI_NS: i64 = 10_000_000_000;

pub const N_BUCKETS: usize = 11_000;

/// How many samples lie in `[from, to)`.
pub open spec fn between(samples: Seq<int>, from: int, to: int) -> nat
    decreases samples.len(),
{
    if samples.len() == 0 {
        0
    } else {
        between(samples.drop_last(), from, to) + (if from <= samples.last() < to {
            1nat
        } else {
            0
        })
    }
}

/// How many samples lie below `x`.
pub open spec fn below(samples: Seq<int>, x: int) -> nat
    decreases samples.len(),
{
    if samples.len() == 0 {
        0
    } else {
        below(samples.drop_last(), x) + (if samples.last() < x {
            1nat
        } else {
            0
        })
    }
}

/// The lower edge of bucket `i`.
pub open spec fn edge(i: int) -> int {
    LO_NS + i * BUCKET_NS
}

pub open spec fn smallest(samples: Seq<int>) -> int
    decreases samples.len(),
{
    if samples.len() == 0 {
        i64::MAX as int
    } else if samples.last() < smallest(samples.drop_last()) {
        samples.last()
    } else {
        smallest(samples.drop_last())
    }
}

pub open spec fn largest(samples: Seq<int>) -> int
    decreases samples.len(),
{
    if samples.len() == 0 {
        i64::MIN as int
    } else if samples.last() > largest(samples.drop_last()) {
        samples.last()
    } else {
        largest(samples.drop_last())
    }
}

/// Whole microseconds of a nanosecond count, towards zero.
pub open spec fn whole_us(ns: int) -> int {
    if ns >= 0 {
        ns / 1000
    } else {
        -((-ns) / 1000)
    }
}

/// The rank of the `percent`-th percentile among `count` samples: the smallest
/// rank that covers it, at least 1 and at most `count`.
pub open spec fn rank_of(percent: nat, count: nat) -> nat {
    let r = (percent * count + 99) / 100;
    if r < 1 {
        1
    } else if r > count {
        count
    } else {
        r
    }
}

/// The first bucket at or after `i` whose upper edge covers `rank` samples.
pub open spec fn covering_bucket(samples: Seq<int>, rank: nat, i: int) -> int
    decreases N_BUCKETS - i,
{
    if i >= N_BUCKETS || below(samples, edge(i + 1)) >= rank {
        i
    } else {
        covering_bucket(samples, rank, i + 1)
    }
}

/// The percentile the histogram of the samples resolves to: the upper edge of
/// the bucket that covers the rank; the exact minimum or maximum in the tails.
pub open spec fn percentile_of(samples: Seq<int>, percent: nat) -> Option<int> {
    if samples.len() == 0 {
        None
    } else {
        let rank = rank_of(percent, samples.len());
        if rank <= below(samples, edge(0)) {
            Some(whole_us(smallest(samples)))
        } else {
            let i = covering_bucket(samples, rank, 0);
            if i < N_BUCKETS {
                Some(whole_us(edge(i + 1)))
            } else {
                Some(whole_us(largest(samples)))
            }
        }
    }
}

#[derive(Debug, Clone, Copy, PartialEq, Eq, Structural)]
pub struct HistogramSummary {
    pub count: u64,
    pub p50_us: i64,
    pub p95_us: i64,
    pub p99_us: i64,
    pub min_us: i64,
    pub max_us: i64,
}

/// What the summary of the samples says; absent without samples.
pub open spec fn summary_of(samples: Seq<int>) -> Option<HistogramSummary> {
    if samples.len() == 0 {
        None
    } else {
        Some(
            HistogramSummary {
                count: samples.len() as u64,
                p50_us: percentile_of(samples, 50)->0 as i64,
                p95_us: percentile_of(samples, 95)->0 as i64,
                p99_us: percentile_of(samples, 99)->0 as i64,
                min_us: whole_us(smallest(samples)) as i64,
                max_us: whole_us(largest(samples)) as i64,
            },
        )
    }
}

pub struct Histogram {
    buckets: Vec<u64>,
    underflow: u64,
    overflow: u64,
    count: u64,
    min_ns: i64,
    max_ns: i64,
    samples: Ghost<Seq<int>>,
}

impl View for Histogram {
    type V = Seq<int>;

    /// The samples recorded so far.
    closed spec fn view(&self) -> Seq<int> {
        self.samples@
    }
}

proof fn lemma_below_splits(samples: Seq<int>, a: int, b: int)
    requires
        a <= b,
    ensures
        below(samples, b) == below(samples, a) + between(samples, a, b),
        below(samples, b) <= samples.len(),
    decreases samples.len(),
{
    if samples.len() > 0 {
        lemma_below_splits(samples.drop_last(), a, b);
    }
}

proof fn lemma_extremes(samples: Seq<int>)
    requires
        forall|i: int| 0 <= i < samples.len() ==> i64::MIN <= #[trigger] samples[i] <= i64::MAX,
    ensures
        i64::MIN <= smallest(samples) <= i64::MAX,
        i64::MIN <= largest(samples) <= i64::MAX,
    decreases samples.len(),
{
    if samples.len() > 0 {
        lemma_extremes(samples.drop_last());
    }
}

/// The minimum and the maximum are samples, and bound every sample.
pub proof fn law_extremes_are_exact(samples: Seq<int>, i: int)
    requires
        0 <= i < samples.len(),
        forall|i: int| 0 <= i < samples.len() ==> i64::MIN <= #[trigger] samples[i] <= i64::MAX,
    ensures
        smallest(samples) <= samples[i] <= largest(samples),
        samples.contains(smallest(samples)),
        samples.contains(largest(samples)),
    decreases samples.len(),
{
    let d = samples.drop_last();
    if d.len() > 0 {
        law_extremes_are_exact(d, if i < d.len() { i } else { 0 });
        let a = d.index_of(smallest(d));
        let b = d.index_of(largest(d));
        assert(samples[a] == smallest(d));
        assert(samples[b] == largest(d));
        assert(samples[samples.len() - 1] == samples.last());
    } else {
        assert(smallest(d) == i64::MAX && largest(d) == i64::MIN);
        assert(samples[0] == samples.last());
    }
}

proof fn lemma_covering_is(samples: Seq<int>, rank: nat, from: int, i: int)
    requires
        0 <= from <= i <= N_BUCKETS,
        forall|j: int| from <= j < i ==> #[trigger] below(samples, edge(j + 1)) < rank,
        i < N_BUCKETS ==> below(samples, edge(i + 1)) >= rank,
    ensures
        covering_bucket(samples, rank, from) == i,
    decreases i - from,
{
    if from < i {
        assert(below(samples, edge(from + 1)) < rank);
        lemma_covering_is(samples, rank, from + 1, i);
    }
}

proof fn lemma_covering(samples: Seq<int>, rank: nat, from: int)
    requires
        0 <= from <= N_BUCKETS,
    ensures
        from <= covering_bucket(samples, rank, from) <= N_BUCKETS,
        forall|j: int|
            from <= j < covering_bucket(samples, rank, from) ==> #[trigger] below(
                samples,
                edge(j + 1),
            ) < rank,
        covering_bucket(samples, rank, from) < N_BUCKETS ==> below(
            samples,
            edge(covering_bucket(samples, rank, from) + 1),
        ) >= rank,
    decreases N_BUCKETS - from,
{
    if from < N_BUCKETS && below(samples, edge(from + 1)) < rank {
        lemma_covering(samples, rank, from + 1);
        assert forall|j: int|
            from <= j < covering_bucket(samples, rank, from) implies #[trigger] below(
            samples,
            edge(j + 1),
        ) < rank by {
            if j > from {
            }
        }
    }
}

/// A percentile that falls in a bucket is conservative by at most a bucket and
/// never under: fewer samples than the rank lie below the bucket, and the
/// reported edge covers the rank.
pub proof fn law_percentile_is_conservative(samples: Seq<int>, percent: nat)
    requires
        samples.len() > 0,
        below(samples, edge(0)) < rank_of(percent, samples.len()),
        rank_of(percent, samples.len()) <= below(samples, edge(N_BUCKETS as int)),
    ensures
        ({
            let p = percentile_of(samples, percent)->0 * 1000;
            let rank = rank_of(percent, samples.len());
            &&& percentile_of(samples, percent) is Some
            &&& below(samples, p) >= rank
            &&& below(samples, p - BUCKET_NS) < rank
        }),
{
    let rank = rank_of(percent, samples.len());
    let i = covering_bucket(samples, rank, 0);
    lemma_covering(samples, rank, 0);
    if i == N_BUCKETS {
        assert(below(samples, edge((N_BUCKETS - 1) + 1)) < rank);
    }
    let e = edge(i + 1);
    assert(whole_us(e) * 1000 == e);
    assert(e - BUCKET_NS == edge(i));
    if i > 0 {
        assert(below(samples, edge((i - 1) + 1)) < rank);
    }
}

impl Histogram {
    /// The tables tell the truth about the samples.
    pub closed spec fn wf(self) -> bool {
        let s = self.samples@;
        &&& self.buckets@.len() == N_BUCKETS
        &&& self.count == s.len()
        &&& self.underflow == below(s, edge(0))
        &&& self.overflow == s.len() - below(s, edge(N_BUCKETS as int))
        &&& self.min_ns == smallest(s)
        &&& self.max_ns == largest(s)
        &&& forall|i: int|
            0 <= i < N_BUCKETS ==> #[trigger] self.buckets@[i] == between(s, edge(i), edge(i + 1))
        &&& forall|i: int| 0 <= i < s.len() ==> i64::MIN <= #[trigger] s[i] <= i64::MAX
    }

    pub fn new() -> (r: Histogram)
        ensures
            r.wf(),
            r@ == Seq::<int>::empty(),
    {
        let mut buckets: Vec<u64> = Vec::new();
        let mut i: usize = 0;
        while i < N_BUCKETS
            invariant
                i <= N_BUCKETS,
                buckets@.len() == i,
                forall|j: int| 0 <= j < i ==> #[trigger] buckets@[j] == 0,
            decreases N_BUCKETS - i,
        {
            buckets.push(0);
            i = i + 1;
        }
        Histogram {
            buckets,
            underflow: 0,
            overflow: 0,
            count: 0,
            min_ns: i64::MAX,
            max_ns: i64::MIN,
            samples: Ghost(Seq::empty()),
        }
    }

    pub fn record(&mut self, delta_ns: i64)
        requires
            old(self).wf(),
            old(self)@.len() < u64::MAX,
        ensures
            final(self).wf(),
            final(self)@ == old(self)@.push(delta_ns as int),
    {
        let ghost s = self.samples@;
        let ghost n = s.push(delta_ns as int);
        proof {
            assert(n.drop_last() =~= s);
            lemma_below_splits(s, edge(0), edge(N_BUCKETS as int));
            assert forall|i: int| 0 <= i < N_BUCKETS implies #[trigger] between(
                s,
                edge(i),
                edge(i + 1),
            ) <= s.len() by {
                lemma_below_splits(s, edge(i), edge(i + 1));
            }
            self.samples = Ghost(n);
        }
        self.count = self.count + 1;
        if delta_ns < self.min_ns {
            self.min_ns = delta_ns;
        }
        if delta_ns > self.max_ns {
            self.max_ns = delta_ns;
        }
        if delta_ns < LO_NS {
            self.underflow = self.underflow + 1;
        } else if delta_ns >= HI_NS {
            self.overflow = self.overflow + 1;
        } else {
            let i: usize = ((delta_ns - LO_NS) / BUCKET_NS) as usize;
            assert(edge(i as int) <= delta_ns < edge(i + 1));
            let k: u64 = self.buckets[i];
            assert(k == between(s, edge(i as int), edge(i + 1)));
            self.buckets.set(i, k + 1);
        }
        assert(self.samples@ == n);
        assert forall|i: int| 0 <= i < N_BUCKETS implies #[trigger] self.buckets@[i] == between(
            n,
            edge(i),
            edge(i + 1),
        ) by {
            assert(old(self).buckets@[i] == between(s, edge(i), edge(i + 1)));
        }
    }

    /// How many samples were recorded.
    pub fn count(&self) -> (r: u64)
        requires
            self.wf(),
        ensures
            r == self@.len(),
    {
        self.count
    }

    /// The percentile, resolved to a bucket's upper edge; the tails resolve to
    /// the exact extremes.
    pub fn percentile_us(&self, percent: u32) -> (r: Option<i64>)
        requires
            self.wf(),
        ensures
            match percentile_of(self@, percent as nat) {
                Some(v) => r == Some(v as i64) && i64::MIN <= v <= i64::MAX,
                None => r is None,
            },
    {
        if self.count == 0 {
            return None;
        }
        let ghost s = self.samples@;
        proof {
            lemma_extremes(s);
            assert(percent as nat * s.len() <= 0xffff_ffff * u64::MAX) by (nonlinear_arith)
                requires
                    percent <= 0xffff_ffff,
                    s.len() <= u64::MAX,
            ;
        }
        let exact: u128 = (percent as u128 * self.count as u128 + 99) / 100;
        let rank: u64 = if exact < 1 {
            1
        } else if exact > self.count as u128 {
            self.count
        } else {
            exact as u64
        };
        assert(rank == rank_of(percent as nat, s.len()));
        let mut seen: u64 = self.underflow;
        if rank <= seen {
            return Some(us_of(self.min_ns));
        }
        let mut i: usize = 0;
        while i < N_BUCKETS
            invariant
                self.wf(),
                s == self.samples@,
                s.len() > 0,
                i <= N_BUCKETS,
                seen == below(s, edge(i as int)),
                seen < rank,
                rank == rank_of(percent as nat, s.len()),
                below(s, edge(0)) < rank,
                forall|j: int| 0 <= j < i ==> #[trigger] below(s, edge(j + 1)) < rank,
            decreases N_BUCKETS - i,
        {
            proof {
                lemma_below_splits(s, edge(i as int), edge(i + 1));
            }
            seen = seen + self.buckets[i];
            if rank <= seen {
                proof {
                    lemma_covering_is(s, rank as nat, 0, i as int);
                }
                return Some(us_of(LO_NS + (i as i64 + 1) * BUCKET_NS));
            }
            i = i + 1;
        }
        proof {
            lemma_covering_is(s, rank as nat, 0, i as int);
        }
        Some(us_of(self.max_ns))
    }

    pub fn summary(&self) -> (r: Option<HistogramSummary>)
        requires
            self.wf(),
        ensures
            r == summary_of(self@),
    {
        if self.count == 0 {
            return None;
        }
        let p50: Option<i64> = self.percentile_us(50);
        let p95: Option<i64> = self.percentile_us(95);
        let p99: Option<i64> = self.percentile_us(99);
        Some(
            HistogramSummary {
                count: self.count,
                p50_us: p50.unwrap(),
                p95_us: p95.unwrap(),
                p99_us: p99.unwrap(),
                min_us: us_of(self.min_ns),
                max_us: us_of(self.max_ns),
            },
        )
    }
}

fn us_of(ns: i64) -> (r: i64)
    ensures
        r == whole_us(ns as int),
        i64::MIN <= whole_us(ns as int) <= i64::MAX,
{
    if ns >= 0 {
        ns / 1000
    } else {
        let m: i128 = -(ns as i128);
        (-(m / 1000)) as i64
    }
}

impl Default for Histogram {
    fn default() -> (r: Self)
        ensures
            r.wf(),
            r@ == Seq::<int>::empty(),
    {
        Histogram::new()
    }
}

} // verus!

//! Per-process performance history: the memory statistics and the memory trend.
use vstd::prelude::*;
use crate::monitor::security::{sum_of, sum_range};

verus! {

/// Which way a measure has been moving lately.
#[derive(Debug, Clone, Copy, PartialEq, Eq, Structural)]
pub enum ProcessTrend {
    Increasing,
    Decreasing,
    Stable,
}

/// The kinds of performance anomaly.
#[derive(Debug, Clone, Copy, PartialEq, Eq, Structural)]
pub enum AnomalyType {
    CpuSpike,
    MemoryLeak,
    HighIoActivity,
    ThreadExplosion,
    ContextSwitchStorm,
}

/// How serious a performance anomaly is.
#[derive(Debug, Clone, Copy, PartialEq, Eq, Structural)]
pub enum AnomalySeverity {
    Low,
    Medium,
    High,
}

/// The memory figures of a process's samples, in bytes.
#[derive(Debug, Clone, Copy, PartialEq, Eq, Structural)]
pub struct MemoryStatistics {
    pub avg_memory_usage: u64,
    pub max_memory_usage: u64,
    pub min_memory_usage: u64,
}

/// The largest of `s`, 0 for none.
pub open spec fn max_of(s: Seq<u64>) -> nat
    decreases s.len(),
{
    if s.len() == 0 {
        0
    } else {
        let m = max_of(s.drop_last());
        if s.last() > m {
            s.last() as nat
        } else {
            m
        }
    }
}

/// The smallest of `s`, `u64::MAX` for none.
pub open spec fn min_of(s: Seq<u64>) -> nat
    decreases s.len(),
{
    if s.len() == 0 {
        u64::MAX as nat
    } else {
        let m = min_of(s.drop_last());
        if (s.last() as nat) < m {
            s.last() as nat
        } else {
            m
        }
    }
}

/// The memory statistics of samples `s`: the mean rounded down, the largest and the
/// smallest. With no samples the mean and the largest are 0 and the smallest is
/// `u64::MAX`; with samples, a smallest of `u64::MAX` reads as 0.
pub open spec fn memory_statistics_of(s: Seq<u64>) -> MemoryStatistics {
    if s.len() == 0 {
        MemoryStatistics { avg_memory_usage: 0, max_memory_usage: 0, min_memory_usage: u64::MAX }
    } else {
        MemoryStatistics {
            avg_memory_usage: (sum_of(s) / s.len()) as u64,
            max_memory_usage: max_of(s) as u64,
            min_memory_usage: if min_of(s) == u64::MAX {
                0
            } else {
                min_of(s) as u64
            },
        }
    }
}

/// How many of the newest samples the trend looks at, for `n` samples: a quarter of
/// them, at least 3 and at most 10.
pub open spec fn recent_count(n: nat) -> nat {
    let q = n / 4;
    let a = if q < 3 {
        3
    } else {
        q
    };
    if a > 10 {
        10
    } else {
        a
    }
}

/// The memory trend of samples `s` (oldest first): with fewer than two samples it is
/// stable; otherwise the mean of the newest `recent_count` samples (at most all of
/// them) is compared with the mean of all: more than a tenth above is increasing, more
/// than a tenth below is decreasing (means and tenths rounded down).
pub open spec fn memory_trend_of(s: Seq<u64>) -> ProcessTrend {
    if s.len() < 2 {
        ProcessTrend::Stable
    } else {
        let k = if recent_count(s.len()) < s.len() {
            recent_count(s.len())
        } else {
            s.len()
        };
        let recent = sum_of(s.subrange(s.len() - k, s.len() as int)) / k;
        let overall = sum_of(s) / s.len();
        if recent > overall + overall / 10 {
            ProcessTrend::Increasing
        } else if recent < overall - overall / 10 {
            ProcessTrend::Decreasing
        } else {
            ProcessTrend::Stable
        }
    }
}

/// The sum of `s` is that of its first `a` samples plus that of the rest.
proof fn lemma_sum_split(s: Seq<u64>, a: int)
    requires
        0 <= a <= s.len(),
    ensures
        sum_of(s) == sum_of(s.take(a)) + sum_of(s.subrange(a, s.len() as int)),
    decreases s.len(),
{
    if a == s.len() {
        assert(s.take(a) == s);
        assert(s.subrange(a, s.len() as int) =~= Seq::<u64>::empty());
    } else {
        let d = s.drop_last();
        lemma_sum_split(d, a);
        assert(d.take(a) == s.take(a));
        assert(s.subrange(a, s.len() as int).drop_last() == d.subrange(a, d.len() as int));
    }
}

/// The memory statistics of `samples` (oldest first), whose sum fits a `u64`.
pub fn memory_statistics(samples: &[u64]) -> (r: MemoryStatistics)
    requires
        sum_of(samples@) <= u64::MAX,
    ensures
        r == memory_statistics_of(samples@),
{
    if samples.len() == 0 {
        return MemoryStatistics { avg_memory_usage: 0, max_memory_usage: 0, min_memory_usage: u64::MAX };
    }
    let mut max: u64 = 0;
    let mut min: u64 = u64::MAX;
    let mut i: usize = 0;
    while i < samples.len()
        invariant
            i <= samples@.len(),
            max == max_of(samples@.take(i as int)),
            min == min_of(samples@.take(i as int)),
        decreases samples.len() - i,
    {
        assert(samples@.take(i + 1).drop_last() == samples@.take(i as int));
        if samples[i] > max {
            max = samples[i];
        }
        if samples[i] < min {
            min = samples[i];
        }
        i = i + 1;
    }
    assert(samples@.take(i as int) == samples@);
    assert(samples@.subrange(0, samples@.len() as int) == samples@);
    let total = sum_range(samples, 0, samples.len());
    MemoryStatistics {
        avg_memory_usage: total / (samples.len() as u64),
        max_memory_usage: max,
        min_memory_usage: if min == u64::MAX {
            0
        } else {
            min
        },
    }
}

/// The memory trend of `samples` (oldest first), whose sum fits a `u64`.
pub fn memory_trend(samples: &[u64]) -> (r: ProcessTrend)
    requires
        sum_of(samples@) <= u64::MAX,
    ensures
        r == memory_trend_of(samples@),
{
    let n = samples.len();
    if n < 2 {
        return ProcessTrend::Stable;
    }
    let q = n / 4;
    let a = if q < 3 {
        3
    } else {
        q
    };
    let c = if a > 10 {
        10
    } else {
        a
    };
    let k = if c < n {
        c
    } else {
        n
    };
    assert(samples@.subrange(0, n as int) == samples@);
    proof {
        lemma_sum_split(samples@, (n - k) as int);
    }
    let recent = sum_range(samples, n - k, n) / (k as u64);
    let overall = sum_range(samples, 0, n) / (n as u64);
    assert(overall <= u64::MAX / 2) by (nonlinear_arith)
        requires
            overall == sum_of(samples@) / (n as nat),
            sum_of(samples@) <= u64::MAX,
            n >= 2,
    {
        assert(sum_of(samples@) / (n as nat) <= sum_of(samples@) / 2);
    }
    if recent > overall + overall / 10 {
        ProcessTrend::Increasing
    } else if recent < overall - overall / 10 {
        ProcessTrend::Decreasing
    } else {
        ProcessTrend::Stable
    }
}

/// `r` lists the `count` processes of largest `values` (all of them when there are
/// fewer), each once, largest first: no process left out has a larger value than one
/// listed. Processes of equal value may come in either order.
pub open spec fn top_consumers(r: Seq<usize>, values: Seq<u64>, count: nat) -> bool {
    &&& r.len() == if count < values.len() {
        count
    } else {
        values.len()
    }
    &&& forall|a: int| 0 <= a < r.len() ==> #[trigger] r[a] < values.len()
    &&& forall|a: int, b: int| 0 <= a < b < r.len() ==> #[trigger] r[a] != #[trigger] r[b]
    &&& forall|a: int, b: int| 0 <= a < b < r.len() ==> values[#[trigger] r[a] as int] >= values[#[trigger] r[b] as int]
    &&& forall|j: int, a: int|
        0 <= j < values.len() && 0 <= a < r.len() && !r.contains(j as usize) ==> #[trigger] values[j] <= values[#[trigger] r[a] as int]
}

/// The processes of largest `values` (average memory use), largest first, at most
/// `count` of them (see `top_consumers`).
pub fn top_memory_consumers(values: &[u64], count: usize) -> (r: Vec<usize>)
    ensures
        top_consumers(r@, values@, count as nat),
{
    let n = values.len();
    let m = if count < n {
        count
    } else {
        n
    };
    let mut chosen: Vec<bool> = Vec::new();
    let mut z: usize = 0;
    while z < n
        invariant
            z <= n,
            chosen@.len() == z,
            forall|j: int| 0 <= j < z ==> !#[trigger] chosen@[j],
        decreases n - z,
    {
        chosen.push(false);
        z = z + 1;
    }
    let mut r: Vec<usize> = Vec::new();
    while r.len() < m
        invariant
            n == values@.len(),
            m <= n,
            r@.len() <= m,
            chosen@.len() == n,
            forall|j: int| 0 <= j < n ==> (#[trigger] chosen@[j] <==> r@.contains(j as usize)),
            forall|a: int| 0 <= a < r@.len() ==> #[trigger] r@[a] < n,
            forall|a: int, b: int| 0 <= a < b < r@.len() ==> #[trigger] r@[a] != #[trigger] r@[b],
            forall|a: int, b: int| 0 <= a < b < r@.len() ==> values@[#[trigger] r@[a] as int] >= values@[#[trigger] r@[b] as int],
            forall|j: int, a: int|
                0 <= j < n && 0 <= a < r@.len() && !r@.contains(j as usize) ==> #[trigger] values@[j] <= values@[#[trigger] r@[a] as int],
        decreases m - r@.len(),
    {
        // Some process is still unchosen, since fewer than n are chosen.
        let mut best: usize = n;
        let mut j: usize = 0;
        while j < n
            invariant
                n == values@.len(),
                chosen@.len() == n,
                j <= n,
                best == n || (best < j && !chosen@[best as int]),
                best < n ==> forall|x: int| 0 <= x < j && !chosen@[x] ==> values@[x] <= values@[best as int],
                best == n ==> forall|x: int| 0 <= x < j ==> chosen@[x],
            decreases n - j,
        {
            if !chosen[j] {
                if best == n || values[j] > values[best] {
                    best = j;
                }
            }
            j = j + 1;
        }
        if best == n {
            proof {
                // Every process is chosen, so r lists all n of them, yet r is shorter.
                assert forall|x: usize| x < n implies #[trigger] r@.contains(x) by {
                    assert(chosen@[x as int]);
                }
                lemma_distinct_covering(r@, n as nat);
            }
            assert(false);
        }
        let ghost old_r = r@;
        assert(!old_r.contains(best));
        r.push(best);
        chosen.set(best, true);
        assert forall|x: int| 0 <= x < n implies (#[trigger] chosen@[x] <==> r@.contains(x as usize)) by {
            if x == best as int {
                assert(r@[r@.len() - 1] == best);
            } else {
                if old_r.contains(x as usize) {
                    let w = choose|w: int| 0 <= w < old_r.len() && old_r[w] == x as usize;
                    assert(r@[w] == x as usize);
                }
                if r@.contains(x as usize) {
                    let w = choose|w: int| 0 <= w < r@.len() && r@[w] == x as usize;
                    assert(w < old_r.len());
                    assert(old_r[w] == x as usize);
                }
            }
        }
        assert forall|a: int, b: int| 0 <= a < b < r@.len() implies #[trigger] r@[a] != #[trigger] r@[b] by {
            if b == r@.len() - 1 {
                assert(old_r[a] == r@[a]);
            } else {
                assert(old_r[a] == r@[a] && old_r[b] == r@[b]);
            }
        }
        assert forall|a: int, b: int| 0 <= a < b < r@.len() implies values@[#[trigger] r@[a] as int] >= values@[#[trigger] r@[b] as int] by {
            if b == r@.len() - 1 {
                assert(old_r[a] == r@[a]);
                assert(!old_r.contains(best));
            } else {
                assert(old_r[a] == r@[a] && old_r[b] == r@[b]);
            }
        }
        assert forall|x: int, a: int|
            0 <= x < n && 0 <= a < r@.len() && !r@.contains(x as usize) implies #[trigger] values@[x] <= values@[#[trigger] r@[a] as int] by {
            assert(!chosen@[x]);
            if x != best as int {
                assert(!old_r.contains(x as usize)) by {
                    if old_r.contains(x as usize) {
                        let w = choose|w: int| 0 <= w < old_r.len() && old_r[w] == x as usize;
                        assert(r@[w] == x as usize);
                    }
                }
            }
            if a == r@.len() - 1 {
                assert(r@[a] == best);
            } else {
                assert(old_r[a] == r@[a]);
            }
        }
    }
    r
}

/// A list of distinct positions that holds each of `0..n` has at least `n` entries.
proof fn lemma_distinct_covering(r: Seq<usize>, n: nat)
    requires
        n <= usize::MAX,
        forall|a: int, b: int| 0 <= a < b < r.len() ==> #[trigger] r[a] != #[trigger] r[b],
        forall|x: usize| x < n ==> #[trigger] r.contains(x),
    ensures
        r.len() >= n,
    decreases n,
{
    if n > 0 {
        let last = (n - 1) as usize;
        assert(r.contains(last));
        let w = choose|w: int| 0 <= w < r.len() && r[w] == last;
        let rest = r.remove(w);
        assert forall|a: int, b: int| 0 <= a < b < rest.len() implies #[trigger] rest[a] != #[trigger] rest[b] by {
            let a2 = if a < w { a } else { a + 1 };
            let b2 = if b < w { b } else { b + 1 };
            assert(rest[a] == r[a2] && rest[b] == r[b2]);
        }
        assert forall|x: usize| x < n - 1 implies #[trigger] rest.contains(x) by {
            assert(r.contains(x));
            let v = choose|v: int| 0 <= v < r.len() && r[v] == x;
            assert(x != last);
            assert(v != w);
            let v2 = if v < w { v } else { v - 1 };
            assert(rest[v2] == x);
        }
        lemma_distinct_covering(rest, (n - 1) as nat);
    }
}

} // verus!

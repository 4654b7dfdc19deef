//! Profiling of operations: allocation counters, timing statistics,
//! memory snapshots and a simple cache-line model of access patterns.
//!
//! Durations are kept as whole nanoseconds.

use std::sync::atomic::{AtomicU64, Ordering};
use std::sync::Arc;
use std::time::Instant;

use vstd::prelude::*;
use vstd::relations::{sorted_by, total_ordering};

use crate::assoc::{assoc_map, find_key, has_key, keys_distinct};
use crate::text::owned;
use crate::clock::{instant_now, elapsed_nanos, nanos_between, clamp_nanos};

verus! {

/// Allocation counters that an allocator updates on every allocation and
/// deallocation. The counters are atomics shared between threads, so their
/// values are not modelled.
#[derive(Debug)]
pub struct TrackingAllocator {
    allocated: AtomicU64,
    peak_allocated: AtomicU64,
    allocation_count: AtomicU64,
    deallocation_count: AtomicU64,
}

impl TrackingAllocator {
    pub fn new() -> Self {
        TrackingAllocator {
            allocated: AtomicU64::new(0),
            peak_allocated: AtomicU64::new(0),
            allocation_count: AtomicU64::new(0),
            deallocation_count: AtomicU64::new(0),
        }
    }

    pub fn current_usage(&self) -> u64 {
        self.allocated.load(Ordering::Relaxed)
    }

    pub fn peak_usage(&self) -> u64 {
        self.peak_allocated.load(Ordering::Relaxed)
    }

    pub fn allocation_count(&self) -> u64 {
        self.allocation_count.load(Ordering::Relaxed)
    }

    pub fn deallocation_count(&self) -> u64 {
        self.deallocation_count.load(Ordering::Relaxed)
    }

    pub fn reset_stats(&self) {
        self.allocated.store(0, Ordering::Relaxed);
        self.peak_allocated.store(0, Ordering::Relaxed);
        self.allocation_count.store(0, Ordering::Relaxed);
        self.deallocation_count.store(0, Ordering::Relaxed);
    }

    /// Books a successful allocation of `size` bytes: the usage grows by
    /// `size` (modulo 2^64, as the atomic does), the peak is raised to the new
    /// usage if that is larger, and one allocation is counted.
    pub fn record_allocation(&self, size: u64) {
        let old_allocated = self.allocated.fetch_add(size, Ordering::Relaxed);
        let new_allocated = old_allocated.wrapping_add(size);
        self.peak_allocated.fetch_max(new_allocated, Ordering::Relaxed);
        self.allocation_count.fetch_add(1, Ordering::Relaxed);
    }

    /// Books a deallocation of `size` bytes.
    pub fn record_deallocation(&self, size: u64) {
        self.allocated.fetch_sub(size, Ordering::Relaxed);
        self.deallocation_count.fetch_add(1, Ordering::Relaxed);
    }
}

/// The order by which samples are sorted.
pub open spec fn nanos_le() -> spec_fn(u64, u64) -> bool {
    |a: u64, b: u64| a <= b
}

/// The samples in ascending order.
pub open spec fn sorted_samples(s: Seq<u64>) -> Seq<u64> {
    s.sort_by(nanos_le())
}

/// The sum of the samples.
pub open spec fn sum_nanos(s: Seq<u64>) -> nat
    decreases s.len(),
{
    if s.len() == 0 {
        0
    } else {
        sum_nanos(s.drop_last()) + s.last() as nat
    }
}

/// The position of the `pct`-th percentile in `n` sorted samples: the
/// integer part of `n * pct / 100`, capped at the last position.
pub open spec fn percentile_index(n: nat, pct: nat) -> int {
    let k = (n * pct / 100) as int;
    if k < n - 1 { k } else { n - 1 }
}

/// The middle sample, or the mean (rounded down) of the two middle samples.
pub open spec fn median_of_sorted(s: Seq<u64>) -> u64 {
    let n = s.len() as int;
    if n % 2 == 0 {
        ((s[n / 2 - 1] + s[n / 2]) / 2) as u64
    } else {
        s[n / 2]
    }
}

/// Summary statistics of an operation's timings.
#[derive(Debug, Clone)]
pub struct OperationStats {
    pub count: usize,
    /// Sum of all samples, in nanoseconds.
    pub total: u128,
    /// The sum divided by the count, rounded down.
    pub average: u64,
    pub median: u64,
    pub min: u64,
    pub max: u64,
    pub p95: u64,
    pub p99: u64,
}

/// The statistics of a non-empty list of samples.
pub open spec fn stats_of(s: Seq<u64>) -> OperationStats {
    let sorted = sorted_samples(s);
    let n = s.len();
    OperationStats {
        count: n as usize,
        total: sum_nanos(s) as u128,
        average: (sum_nanos(s) / n) as u64,
        median: median_of_sorted(sorted),
        min: sorted[0],
        max: sorted[n - 1],
        p95: sorted[percentile_index(n, 95)],
        p99: sorted[percentile_index(n, 99)],
    }
}

proof fn lemma_nanos_le_total()
    ensures
        total_ordering(nanos_le()),
{
}

proof fn lemma_sum_bounds(s: Seq<u64>, lo: u64, hi: u64)
    requires
        forall|i: int| 0 <= i < s.len() ==> lo <= #[trigger] s[i] <= hi,
    ensures
        s.len() * lo <= sum_nanos(s) <= s.len() * hi,
    decreases s.len(),
{
    if s.len() > 0 {
        lemma_sum_bounds(s.drop_last(), lo, hi);
        assert((s.len() - 1) * lo + lo == s.len() * lo) by (nonlinear_arith);
        assert((s.len() - 1) * hi + hi == s.len() * hi) by (nonlinear_arith);
    }
}

/// Facts of the sorted samples: a permutation in ascending order.
pub proof fn lemma_sorted_samples(s: Seq<u64>)
    ensures
        sorted_samples(s).len() == s.len(),
        sorted_samples(s).to_multiset() == s.to_multiset(),
        sorted_by(sorted_samples(s), nanos_le()),
        forall|i: int| 0 <= i < s.len() ==> sorted_samples(s).contains(#[trigger] s[i]),
        forall|i: int| 0 <= i < s.len() ==> s.contains(#[trigger] sorted_samples(s)[i]),
{
    broadcast use vstd::seq_lib::group_to_multiset_ensures;
    lemma_nanos_le_total();
    s.lemma_sort_by_ensures(nanos_le());
    let t = sorted_samples(s);
    assert(t.len() == t.to_multiset().len());
    assert forall|i: int| 0 <= i < s.len() implies t.contains(#[trigger] s[i]) by {
        assert(s.contains(s[i]));
        assert(s.to_multiset().count(s[i]) > 0);
    }
    assert forall|i: int| 0 <= i < s.len() implies s.contains(#[trigger] t[i]) by {
        assert(t.contains(t[i]));
        assert(t.to_multiset().count(t[i]) > 0);
    }
}

/// The statistics are ordered as their names say: the minimum and maximum
/// bound every sample and are samples themselves, and the average, the median
/// and both percentiles lie between them, the 95th at or below the 99th.
pub proof fn lemma_stats_ordered(s: Seq<u64>)
    requires
        s.len() > 0,
    ensures
        ({
            let st = stats_of(s);
            &&& s.contains(st.min) && s.contains(st.max)
            &&& forall|i: int| 0 <= i < s.len() ==> st.min <= #[trigger] s[i] <= st.max
            &&& st.min <= st.average <= st.max
            &&& st.min <= st.median <= st.max
            &&& st.min <= st.p95 <= st.p99 <= st.max
        }),
{
    lemma_sorted_samples(s);
    let t = sorted_samples(s);
    let n = s.len() as int;
    let st = stats_of(s);
    assert(t.contains(t[0]));
    assert(s.contains(st.min));
    assert(s.contains(st.max));
    assert forall|i: int| 0 <= i < s.len() implies st.min <= #[trigger] s[i] <= st.max by {
        let j = choose|j: int| 0 <= j < t.len() && t[j] == s[i];
        if j > 0 {
            assert(nanos_le()(t[0], t[j]));
        }
        if j < n - 1 {
            assert(nanos_le()(t[j], t[n - 1]));
        }
    }
    lemma_sum_bounds(s, st.min, st.max);
    assert(n * st.min / n == st.min) by (nonlinear_arith)
        requires
            n > 0,
    ;
    assert(n * st.max / n == st.max) by (nonlinear_arith)
        requires
            n > 0,
    ;
    vstd::arithmetic::div_mod::lemma_div_is_ordered((n * st.min) as int, sum_nanos(s) as int, n as int);
    vstd::arithmetic::div_mod::lemma_div_is_ordered(sum_nanos(s) as int, (n * st.max) as int, n as int);
    let i95 = percentile_index(n as nat, 95);
    let i99 = percentile_index(n as nat, 99);
    assert(n * 95 / 100 <= n * 99 / 100) by (nonlinear_arith)
        requires
            n >= 0,
    ;
    assert(0 <= i95 <= i99 <= n - 1);
    if 0 < i95 {
        assert(nanos_le()(t[0], t[i95]));
    }
    if i95 < i99 {
        assert(nanos_le()(t[i95], t[i99]));
    }
    if i99 < n - 1 {
        assert(nanos_le()(t[i99], t[n - 1]));
    }
    let m: int = n / 2;
    if n % 2 == 0 {
        if 0 < m - 1 {
            assert(nanos_le()(t[0], t[m - 1]));
        }
        assert(nanos_le()(t[m - 1], t[m]));
        if m < n - 1 {
            assert(nanos_le()(t[m], t[n - 1]));
        }
    } else {
        if 0 < m {
            assert(nanos_le()(t[0], t[m]));
        }
        if m < n - 1 {
            assert(nanos_le()(t[m], t[n - 1]));
        }
    }
}

/// `slice::sort` on nanosecond samples: as the standard library documents,
/// afterwards the samples are in ascending order, and they are the same samples.
#[verifier::external_body]
fn sort_samples(v: &mut Vec<u64>)
    ensures
        final(v)@.to_multiset() == old(v)@.to_multiset(),
        sorted_by(final(v)@, nanos_le()),
{
    v.sort();
}

/// Computes the statistics of a non-empty list of samples.
pub fn compute_stats(durations: &Vec<u64>) -> (r: OperationStats)
    requires
        0 < durations.len() < 0x1_0000_0000,
    ensures
        r == stats_of(durations@),
{
    let count = durations.len();
    let mut total: u128 = 0;
    let mut i: usize = 0;
    while i < count
        invariant
            count == durations.len() < 0x1_0000_0000,
            i <= count,
            total == sum_nanos(durations@.subrange(0, i as int)),
            total <= i * u64::MAX,
        decreases count - i,
    {
        proof {
            assert(durations@.subrange(0, i + 1).drop_last() =~= durations@.subrange(0, i as int));
            assert(i * u64::MAX + u64::MAX == (i + 1) * u64::MAX) by (nonlinear_arith);
        }
        total = total + durations[i] as u128;
        i = i + 1;
    }
    assert(durations@.subrange(0, count as int) =~= durations@);
    let mut sorted = durations.clone();
    assert(sorted@ =~= durations@);
    sort_samples(&mut sorted);
    proof {
        lemma_sorted_samples(durations@);
        vstd::seq_lib::lemma_sorted_unique(sorted@, sorted_samples(durations@), nanos_le());
        lemma_stats_ordered(durations@);
    }
    let n = sorted.len();
    let average = (total / (count as u128)) as u64;
    let median = if n % 2 == 0 {
        ((sorted[n / 2 - 1] as u128 + sorted[n / 2] as u128) / 2) as u64
    } else {
        sorted[n / 2]
    };
    let min = sorted[0];
    let max = sorted[n - 1];
    let i95 = percentile_position(n, 95);
    let i99 = percentile_position(n, 99);
    OperationStats {
        count,
        total,
        average,
        median,
        min,
        max,
        p95: sorted[i95],
        p99: sorted[i99],
    }
}

/// The position of the `pct`-th percentile among `n` sorted samples.
fn percentile_position(n: usize, pct: u32) -> (r: usize)
    requires
        0 < n < 0x1_0000_0000,
        pct <= 100,
    ensures
        r == percentile_index(n as nat, pct as nat),
        r < n,
{
    proof {
        assert((n as u128) * (pct as u128) <= 0x1_0000_0000 * 100) by (nonlinear_arith)
            requires
                n < 0x1_0000_0000,
                pct <= 100,
        ;
    }
    let k128: u128 = (n as u128) * (pct as u128) / 100;
    proof {
        assert((n as u128) * (pct as u128) / 100 <= n) by (nonlinear_arith)
            requires
                pct <= 100,
        ;
    }
    let k = k128 as usize;
    if k < n - 1 {
        k
    } else {
        n - 1
    }
}

/// The timings after recording one more sample for `k`: `k` is present with
/// one sample appended to what it had (if anything), and every other
/// operation keeps its samples.
pub open spec fn appended_one(
    before: Map<Seq<char>, Seq<u64>>,
    after: Map<Seq<char>, Seq<u64>>,
    k: Seq<char>,
) -> bool {
    &&& after.dom() == before.dom().insert(k)
    &&& after[k].len() >= 1
    &&& after[k].drop_last() == (if before.contains_key(k) { before[k] } else { Seq::<u64>::empty() })
    &&& forall|j: Seq<char>| #[trigger] before.contains_key(j) && j != k ==> after[j] == before[j]
}

/// Records how long named operations take.
pub struct PerformanceProfiler {
    measurements: Vec<(String, Vec<u64>)>,
    start_times: Vec<(String, Instant)>,
}

impl PerformanceProfiler {
    /// Operation names are unique in both lists and every recorded operation
    /// has at least one sample.
    pub closed spec fn wf(&self) -> bool {
        &&& keys_distinct(self.measurements@)
        &&& keys_distinct(self.start_times@)
        &&& forall|i: int|
            0 <= i < self.measurements@.len() ==> (#[trigger] self.measurements@[i]).1.len() > 0
    }

    /// The recorded samples of each operation, in nanoseconds, oldest first.
    pub closed spec fn samples(&self) -> Map<Seq<char>, Seq<u64>> {
        assoc_map(self.measurements@).map_values(|v: Vec<u64>| v@)
    }

    /// The operations that have been started and not yet ended.
    pub closed spec fn pending(&self) -> Set<Seq<char>> {
        assoc_map(self.start_times@).dom()
    }

    /// Every recorded operation has at least one sample.
    pub proof fn lemma_samples_nonempty(&self)
        requires
            self.wf(),
        ensures
            forall|k: Seq<char>| #[trigger] self.samples().contains_key(k) ==> self.samples()[k].len() > 0,
    {
        assert forall|k: Seq<char>| #[trigger] self.samples().contains_key(k) implies self.samples()[k].len() > 0 by {
            let i = choose|i: int| 0 <= i < self.measurements@.len() && self.measurements@[i].0@ == k;
            crate::assoc::lemma_assoc_map_at(self.measurements@, i);
        }
    }

    pub fn new() -> (r: Self)
        ensures
            r.wf(),
            r.samples() == Map::<Seq<char>, Seq<u64>>::empty(),
            r.pending() == Set::<Seq<char>>::empty(),
    {
        let r = PerformanceProfiler { measurements: Vec::new(), start_times: Vec::new() };
        proof {
            crate::assoc::lemma_assoc_map_empty(r.measurements@);
            crate::assoc::lemma_assoc_map_empty(r.start_times@);
            assert(r.samples() =~= Map::<Seq<char>, Seq<u64>>::empty());
            assert(r.pending() =~= Set::<Seq<char>>::empty());
        }
        r
    }

    /// Notes the current time as the start of `operation`, replacing an
    /// earlier start that was not ended.
    pub fn start_measurement(&mut self, operation: &str)
        requires
            old(self).wf(),
        ensures
            final(self).wf(),
            final(self).samples() == old(self).samples(),
            final(self).pending() == old(self).pending().insert(operation@),
    {
        let now = instant_now();
        let entry = (owned(operation), now);
        match find_key(&self.start_times, operation) {
            Some(i) => {
                proof {
                    crate::assoc::lemma_assoc_map_update(self.start_times@, i as int, entry);
                }
                self.start_times.set(i, entry);
            },
            None => {
                proof {
                    crate::assoc::lemma_assoc_map_push(self.start_times@, entry);
                }
                self.start_times.push(entry);
            },
        }
        proof {
            assert(self.pending() =~= old(self).pending().insert(operation@));
        }
    }

    /// Ends `operation` if it was started: records the time elapsed since its
    /// start as one more sample and forgets the start. Otherwise nothing happens.
    /// The sample is the clock's elapsed time in nanoseconds, clamped to 64
    /// bits, and is stored by `record_sample`; the clock's reading itself has
    /// no value that a contract could name.
    pub fn end_measurement(&mut self, operation: &str)
        requires
            old(self).wf(),
        ensures
            final(self).wf(),
            old(self).pending().contains(operation@) ==> {
                &&& final(self).pending() == old(self).pending().remove(operation@)
                &&& appended_one(old(self).samples(), final(self).samples(), operation@)
            },
            !old(self).pending().contains(operation@) ==> {
                &&& final(self).pending() == old(self).pending()
                &&& final(self).samples() == old(self).samples()
            },
    {
        match find_key(&self.start_times, operation) {
            None => {},
            Some(i) => {
                proof {
                    crate::assoc::lemma_assoc_map_remove(self.start_times@, i as int);
                }
                let (_name, start) = self.start_times.remove(i);
                let elapsed = clamp_nanos(elapsed_nanos(&start));
                self.record_sample(operation, elapsed);
                proof {
                    assert(self.pending() =~= old(self).pending().remove(operation@));
                }
            },
        }
    }

    /// Appends `sample` (in nanoseconds) to `operation`'s list, creating the
    /// list if needed. Every other operation keeps its samples, and the
    /// started operations are unchanged.
    pub fn record_sample(&mut self, operation: &str, sample: u64)
        requires
            old(self).wf(),
        ensures
            final(self).wf(),
            final(self).pending() == old(self).pending(),
            appended_one(old(self).samples(), final(self).samples(), operation@),
            final(self).samples()[operation@].last() == sample,
    {
        let ghost before = self.measurements@;
        match find_key(&self.measurements, operation) {
            Some(j) => {
                let mut entry: (String, Vec<u64>) = (String::new(), Vec::new());
                self.measurements.set_and_swap(j, &mut entry);
                let ghost old_list = entry.1@;
                entry.1.push(sample);
                let ghost e = entry;
                proof {
                    assert(e.0@ == before[j as int].0@);
                    crate::assoc::lemma_assoc_map_update(before, j as int, e);
                    crate::assoc::lemma_assoc_map_at(before, j as int);
                    assert(e.1@.drop_last() =~= old_list);
                }
                self.measurements.set(j, entry);
                proof {
                    assert(self.measurements@ == before.update(j as int, e));
                }
            },
            None => {
                let mut list: Vec<u64> = Vec::new();
                list.push(sample);
                let entry = (owned(operation), list);
                proof {
                    crate::assoc::lemma_assoc_map_push(before, entry);
                    assert(entry.1@.drop_last() =~= Seq::<u64>::empty());
                }
                self.measurements.push(entry);
            },
        }
        proof {
            let after = self.measurements@;
            assert forall|i: int| 0 <= i < after.len() implies (#[trigger] after[i]).1.len() > 0 by {
                if i < before.len() && after[i].0@ != operation@ {
                    assert(after[i] == before[i]);
                }
            }
            assert(self.samples().dom() =~= old(self).samples().dom().insert(operation@));
            assert forall|k: Seq<char>| #[trigger] old(self).samples().contains_key(k) && k != operation@
                implies self.samples()[k] == old(self).samples()[k] by {}
            assert(self.start_times == old(self).start_times);
        }
    }

    /// Measures how long `f` takes under the name `operation`.
    pub fn measure_operation<F, T>(&mut self, operation: &str, f: F) -> (r: T)
        where
            F: FnOnce() -> T,
        requires
            old(self).wf(),
            f.requires(()),
        ensures
            final(self).wf(),
            f.ensures((), r),
            final(self).pending() == old(self).pending().remove(operation@),
            appended_one(old(self).samples(), final(self).samples(), operation@),
    {
        self.start_measurement(operation);
        let result = f();
        self.end_measurement(operation);
        proof {
            assert(self.pending() =~= old(self).pending().remove(operation@));
        }
        result
    }

    /// The statistics of `operation`'s samples, if it has any. (The average
    /// divides by the count, so at most `u32::MAX` samples are supported.)
    pub fn get_statistics(&self, operation: &str) -> (r: Option<OperationStats>)
        requires
            self.wf(),
            self.samples().contains_key(operation@) ==> self.samples()[operation@].len() < 0x1_0000_0000,
        ensures
            r == if self.samples().contains_key(operation@) {
                Some(stats_of(self.samples()[operation@]))
            } else {
                None::<OperationStats>
            },
    {
        match find_key(&self.measurements, operation) {
            None => None,
            Some(j) => {
                proof {
                    crate::assoc::lemma_assoc_map_at(self.measurements@, j as int);
                }
                Some(compute_stats(&self.measurements[j].1))
            },
        }
    }

    /// The names of the recorded operations.
    pub fn operation_names(&self) -> (r: Vec<String>)
        requires
            self.wf(),
        ensures
            r.len() == self.samples().dom().len(),
            forall|i: int| 0 <= i < r.len() ==> self.samples().contains_key(#[trigger] r[i]@),
            forall|k: Seq<char>| #[trigger] self.samples().contains_key(k) ==> exists|i: int| 0 <= i < r.len() && r[i]@ == k,
    {
        let mut names: Vec<String> = Vec::new();
        let mut i: usize = 0;
        while i < self.measurements.len()
            invariant
                self.wf(),
                i <= self.measurements@.len(),
                names.len() == i,
                forall|j: int| 0 <= j < i ==> (#[trigger] names[j])@ == self.measurements@[j].0@,
            decreases self.measurements@.len() - i,
        {
            names.push(self.measurements[i].0.clone());
            i = i + 1;
        }
        proof {
            let m = self.measurements@;
            assert forall|j: int| 0 <= j < names.len() implies self.samples().contains_key(#[trigger] names[j]@) by {
                crate::assoc::lemma_assoc_map_at(m, j);
            }
            assert forall|k: Seq<char>| #[trigger] self.samples().contains_key(k)
                implies exists|j: int| 0 <= j < names.len() && names[j]@ == k by {
                let j = choose|j: int| 0 <= j < m.len() && m[j].0@ == k;
                assert(names[j]@ == k);
            }
            lemma_dom_len(m);
            assert(self.samples().dom() =~= assoc_map(m).dom());
        }
        names
    }

    /// Forgets all samples and all pending starts.
    pub fn clear(&mut self)
        requires
            old(self).wf(),
        ensures
            final(self).wf(),
            final(self).samples() == Map::<Seq<char>, Seq<u64>>::empty(),
            final(self).pending() == Set::<Seq<char>>::empty(),
    {
        self.measurements.clear();
        self.start_times.clear();
        proof {
            crate::assoc::lemma_assoc_map_empty(self.measurements@);
            crate::assoc::lemma_assoc_map_empty(self.start_times@);
            assert(self.samples() =~= Map::<Seq<char>, Seq<u64>>::empty());
            assert(self.pending() =~= Set::<Seq<char>>::empty());
        }
    }
}

/// With distinct names the map has one name per entry.
proof fn lemma_dom_len<V>(s: Seq<(String, V)>)
    requires
        keys_distinct(s),
    ensures
        assoc_map(s).dom().len() == s.len(),
        assoc_map(s).dom().finite(),
    decreases s.len(),
{
    if s.len() == 0 {
        crate::assoc::lemma_assoc_map_empty(s);
    } else {
        let t = s.drop_last();
        assert(keys_distinct(t));
        lemma_dom_len(t);
        assert(!has_key(t, s.last().0@)) by {
            if has_key(t, s.last().0@) {
                let j = choose|j: int| 0 <= j < t.len() && t[j].0@ == s.last().0@;
                assert(s[j] == t[j]);
            }
        }
        crate::assoc::lemma_assoc_map_push(t, s.last());
        assert(t.push(s.last()) =~= s);
    }
}

/// The four allocation counters read at one moment.
#[derive(Debug, Clone, Copy)]
pub struct CounterValues {
    pub current_usage: u64,
    pub peak_usage: u64,
    pub allocation_count: u64,
    pub deallocation_count: u64,
}

impl TrackingAllocator {
    /// Reads the four counters, one after the other.
    pub fn counters(&self) -> CounterValues {
        CounterValues {
            current_usage: self.current_usage(),
            peak_usage: self.peak_usage(),
            allocation_count: self.allocation_count(),
            deallocation_count: self.deallocation_count(),
        }
    }
}

/// A labelled reading of the allocation counters.
#[derive(Debug, Clone)]
pub struct MemorySnapshot {
    pub label: String,
    pub timestamp: Instant,
    pub current_usage: u64,
    pub peak_usage: u64,
    pub allocation_count: u64,
    pub deallocation_count: u64,
}

/// What an operation did to the allocation counters.
#[derive(Debug, Clone, Copy)]
pub struct MemoryUsage {
    pub net_allocation: i64,
    pub peak_during_operation: u64,
    pub allocations_made: u64,
    pub deallocations_made: u64,
}

/// The change between two counter readings. Differences are taken modulo
/// 2^64, as the counters themselves wrap; the peak difference stops at zero.
pub open spec fn usage_between_spec(before: CounterValues, after: CounterValues) -> MemoryUsage {
    MemoryUsage {
        net_allocation: vstd::wrapping::i64_specs::wrapping_sub(
            after.current_usage as i64,
            before.current_usage as i64,
        ),
        peak_during_operation: if after.peak_usage >= before.peak_usage {
            (after.peak_usage - before.peak_usage) as u64
        } else {
            0
        },
        allocations_made: vstd::wrapping::u64_specs::wrapping_sub(
            after.allocation_count,
            before.allocation_count,
        ),
        deallocations_made: vstd::wrapping::u64_specs::wrapping_sub(
            after.deallocation_count,
            before.deallocation_count,
        ),
    }
}

/// Computes the change between two counter readings.
pub fn usage_between(before: &CounterValues, after: &CounterValues) -> (r: MemoryUsage)
    ensures
        r == usage_between_spec(*before, *after),
{
    MemoryUsage {
        net_allocation: (after.current_usage as i64).wrapping_sub(before.current_usage as i64),
        peak_during_operation: after.peak_usage.saturating_sub(before.peak_usage),
        allocations_made: after.allocation_count.wrapping_sub(before.allocation_count),
        deallocations_made: after.deallocation_count.wrapping_sub(before.deallocation_count),
    }
}

/// The change between two consecutive snapshots.
#[derive(Debug, Clone)]
pub struct MemoryDelta {
    pub from_label: String,
    pub to_label: String,
    /// Time between the two snapshots, in nanoseconds.
    pub duration: u128,
    pub usage_change: i64,
    pub peak_change: i64,
    pub allocation_change: u64,
    pub deallocation_change: u64,
}

/// `d` describes the step from `prev` to `curr` (all but its duration, which
/// comes from the clock). Differences are taken modulo 2^64.
pub open spec fn delta_between(d: MemoryDelta, prev: MemorySnapshot, curr: MemorySnapshot) -> bool {
    &&& d.from_label@ == prev.label@
    &&& d.to_label@ == curr.label@
    &&& d.usage_change == vstd::wrapping::i64_specs::wrapping_sub(
        curr.current_usage as i64,
        prev.current_usage as i64,
    )
    &&& d.peak_change == vstd::wrapping::i64_specs::wrapping_sub(
        curr.peak_usage as i64,
        prev.peak_usage as i64,
    )
    &&& d.allocation_change == vstd::wrapping::u64_specs::wrapping_sub(
        curr.allocation_count,
        prev.allocation_count,
    )
    &&& d.deallocation_change == vstd::wrapping::u64_specs::wrapping_sub(
        curr.deallocation_count,
        prev.deallocation_count,
    )
}

/// Takes labelled snapshots of a tracking allocator's counters.
#[derive(Debug)]
pub struct MemoryTracker {
    allocator: Arc<TrackingAllocator>,
    snapshots: Vec<MemorySnapshot>,
}

impl MemoryTracker {
    /// The snapshots taken so far, oldest first.
    pub closed spec fn snapshots(&self) -> Seq<MemorySnapshot> {
        self.snapshots@
    }

    /// The allocator whose counters the snapshots read.
    pub closed spec fn allocator(&self) -> Arc<TrackingAllocator> {
        self.allocator
    }

    /// A tracker of `allocator` with no snapshots yet.
    pub fn new(allocator: Arc<TrackingAllocator>) -> (r: Self)
        ensures
            r.allocator() == allocator,
            r.snapshots() == Seq::<MemorySnapshot>::empty(),
    {
        MemoryTracker { allocator, snapshots: Vec::new() }
    }

    /// The snapshots taken so far, oldest first.
    pub fn get_snapshots(&self) -> (r: &Vec<MemorySnapshot>)
        ensures
            r@ == self.snapshots(),
    {
        &self.snapshots
    }

    /// Appends a snapshot of the current counters under `label`.
    pub fn take_snapshot(&mut self, label: String)
        ensures
            final(self).snapshots().len() == old(self).snapshots().len() + 1,
            final(self).snapshots().drop_last() == old(self).snapshots(),
            final(self).snapshots().last().label == label,
    {
        let timestamp = instant_now();
        let c = self.allocator.counters();
        let snapshot = MemorySnapshot {
            label,
            timestamp,
            current_usage: c.current_usage,
            peak_usage: c.peak_usage,
            allocation_count: c.allocation_count,
            deallocation_count: c.deallocation_count,
        };
        self.snapshots.push(snapshot);
        proof {
            assert(self.snapshots@.drop_last() =~= old(self).snapshots@);
        }
    }

    /// Reads the counters, then snapshots them as `<operation>_start`.
    fn begin_measurement(&mut self, operation: &str) -> (before: CounterValues)
        ensures
            final(self).snapshots().len() == old(self).snapshots().len() + 1,
            final(self).snapshots().drop_last() == old(self).snapshots(),
            final(self).snapshots().last().label@ == operation@ + "_start"@,
    {
        let before = self.allocator.counters();
        let mut label = owned(operation);
        label.append("_start");
        self.take_snapshot(label);
        before
    }

    /// Snapshots the counters as `<operation>_end`, reads them again and
    /// returns the change since `before`.
    fn finish_measurement(&mut self, operation: &str, before: &CounterValues) -> (r: MemoryUsage)
        ensures
            final(self).snapshots().len() == old(self).snapshots().len() + 1,
            final(self).snapshots().drop_last() == old(self).snapshots(),
            final(self).snapshots().last().label@ == operation@ + "_end"@,
    {
        let mut label = owned(operation);
        label.append("_end");
        self.take_snapshot(label);
        let after = self.allocator.counters();
        usage_between(before, &after)
    }

    /// Runs `f` between a `<operation>_start` and an `<operation>_end`
    /// snapshot and reports how the counters changed meanwhile.
    pub fn measure_memory_usage<F, T>(&mut self, operation: &str, f: F) -> (r: (T, MemoryUsage))
        where
            F: FnOnce() -> T,
        requires
            f.requires(()),
        ensures
            f.ensures((), r.0),
            final(self).snapshots().len() == old(self).snapshots().len() + 2,
            final(self).snapshots().subrange(0, old(self).snapshots().len() as int) == old(self).snapshots(),
            final(self).snapshots()[old(self).snapshots().len() as int].label@ == operation@ + "_start"@,
            final(self).snapshots()[old(self).snapshots().len() + 1int].label@ == operation@ + "_end"@,
    {
        let before = self.begin_measurement(operation);
        let result = f();
        let usage = self.finish_measurement(operation, &before);
        proof {
            let n = old(self).snapshots().len() as int;
            assert(self.snapshots().subrange(0, n) =~= old(self).snapshots());
        }
        (result, usage)
    }

    /// The change between each pair of consecutive snapshots.
    pub fn get_memory_deltas(&self) -> (r: Vec<MemoryDelta>)
        ensures
            r.len() == if self.snapshots().len() == 0 { 0 } else { self.snapshots().len() - 1 },
            forall|i: int|
                0 <= i < r.len() ==> delta_between(
                    #[trigger] r[i],
                    self.snapshots()[i],
                    self.snapshots()[i + 1],
                ),
    {
        let mut deltas: Vec<MemoryDelta> = Vec::new();
        let n = self.snapshots.len();
        let mut i: usize = 1;
        while i < n
            invariant
                n == self.snapshots@.len(),
                1 <= i <= if n == 0 { 1 } else { n },
                deltas.len() == i - 1,
                forall|j: int|
                    0 <= j < deltas.len() ==> delta_between(
                        #[trigger] deltas[j],
                        self.snapshots@[j],
                        self.snapshots@[j + 1],
                    ),
            decreases n - i,
        {
            let prev = &self.snapshots[i - 1];
            let curr = &self.snapshots[i];
            let delta = MemoryDelta {
                from_label: prev.label.clone(),
                to_label: curr.label.clone(),
                duration: nanos_between(&curr.timestamp, &prev.timestamp),
                usage_change: (curr.current_usage as i64).wrapping_sub(prev.current_usage as i64),
                peak_change: (curr.peak_usage as i64).wrapping_sub(prev.peak_usage as i64),
                allocation_change: curr.allocation_count.wrapping_sub(prev.allocation_count),
                deallocation_change: curr.deallocation_count.wrapping_sub(prev.deallocation_count),
            };
            deltas.push(delta);
            i = i + 1;
        }
        deltas
    }
}

/// Everything measured of one profiled run.
#[derive(Debug, Clone)]
pub struct OperationProfile {
    pub operation: String,
    /// Wall-clock time of the whole run, in nanoseconds.
    pub duration: u128,
    pub memory_usage: MemoryUsage,
}

/// Tracks both timings and memory of operations.
pub struct CombinedProfiler {
    performance: PerformanceProfiler,
    memory: MemoryTracker,
}

impl CombinedProfiler {
    pub closed spec fn wf(&self) -> bool {
        self.performance.wf()
    }

    /// The timing side.
    pub closed spec fn timings(&self) -> PerformanceProfiler {
        self.performance
    }

    /// The memory side.
    pub closed spec fn memory(&self) -> MemoryTracker {
        self.memory
    }

    pub fn new(allocator: Arc<TrackingAllocator>) -> (r: Self)
        ensures
            r.wf(),
            r.timings().samples() == Map::<Seq<char>, Seq<u64>>::empty(),
            r.timings().pending() == Set::<Seq<char>>::empty(),
            r.memory().snapshots() == Seq::<MemorySnapshot>::empty(),
            r.memory().allocator() == allocator,
    {
        CombinedProfiler { performance: PerformanceProfiler::new(), memory: MemoryTracker::new(allocator) }
    }

    /// Runs `f` once, timing it under `operation` and snapshotting the
    /// allocation counters before and after it.
    pub fn profile_operation<F, T>(&mut self, operation: &str, f: F) -> (r: (T, OperationProfile))
        where
            F: FnOnce() -> T,
        requires
            old(self).wf(),
            f.requires(()),
        ensures
            final(self).wf(),
            f.ensures((), r.0),
            r.1.operation@ == operation@,
            appended_one(old(self).timings().samples(), final(self).timings().samples(), operation@),
            final(self).timings().pending() == old(self).timings().pending().remove(operation@),
            final(self).memory().snapshots().len() == old(self).memory().snapshots().len() + 2,
            final(self).memory().snapshots().subrange(0, old(self).memory().snapshots().len() as int)
                == old(self).memory().snapshots(),
            final(self).memory().snapshots()[old(self).memory().snapshots().len() as int].label@
                == operation@ + "_start"@,
            final(self).memory().snapshots()[old(self).memory().snapshots().len() + 1int].label@
                == operation@ + "_end"@,
    {
        let start_time = instant_now();
        let before = self.memory.begin_measurement(operation);
        let result = self.performance.measure_operation(operation, f);
        let memory_usage = self.memory.finish_measurement(operation, &before);
        let duration = elapsed_nanos(&start_time);
        proof {
            let n = old(self).memory.snapshots().len() as int;
            assert(self.memory.snapshots().subrange(0, n) =~= old(self).memory.snapshots());
        }
        let profile = OperationProfile { operation: owned(operation), duration, memory_usage };
        (result, profile)
    }

    /// The timing side.
    pub fn performance(&self) -> (r: &PerformanceProfiler)
        ensures
            *r == self.timings(),
    {
        &self.performance
    }

    /// The memory side.
    pub fn memory_tracker(&self) -> (r: &MemoryTracker)
        ensures
            *r == self.memory(),
    {
        &self.memory
    }
}

/// Bytes per cache line assumed by the cache model.
pub const CACHE_LINE_SIZE: usize = 64;

/// Access counts of an access pattern under the cache-line model.
#[derive(Debug, Clone)]
pub struct CacheStats {
    pub total_accesses: usize,
    pub cache_lines_used: usize,
    pub sequential_accesses: usize,
    pub random_accesses: usize,
    pub estimated_cache_misses: usize,
}

/// The model's state after the first `k` accesses of `pattern` into an array
/// of `len` elements with `per_line` elements per cache line: the last cache
/// line touched, the number of line changes, and the numbers of sequential
/// and non-sequential accesses. Indices outside the array are skipped; an
/// access is sequential when its index follows the previous entry's index.
pub open spec fn cache_scan(pattern: Seq<usize>, len: nat, per_line: nat, k: nat) -> (Option<int>, nat, nat, nat)
    decreases k,
{
    if k == 0 {
        (None, 0, 0, 0)
    } else {
        let prev = cache_scan(pattern, len, per_line, (k - 1) as nat);
        let index = pattern[k - 1] as int;
        if index < len {
            let line = index / per_line as int;
            let lines = if prev.0 != Some(line) { prev.1 + 1 } else { prev.1 };
            if k - 1 > 0 {
                if index == pattern[k - 2] + 1 {
                    (Some(line), lines, prev.2 + 1, prev.3)
                } else {
                    (Some(line), lines, prev.2, prev.3 + 1)
                }
            } else {
                (Some(line), lines, prev.2, prev.3)
            }
        } else {
            prev
        }
    }
}

/// Elements of type `T` per cache line (at least one byte per element).
pub open spec fn elements_per_line<T>() -> nat {
    let size = vstd::layout::size_of::<T>();
    (CACHE_LINE_SIZE as nat / if size == 0 { 1 } else { size }) as nat
}

/// The counters never exceed the number of accesses scanned.
proof fn lemma_cache_scan_bounded(pattern: Seq<usize>, len: nat, per_line: nat, k: nat)
    requires
        k <= pattern.len(),
    ensures
        cache_scan(pattern, len, per_line, k).1 <= k,
        cache_scan(pattern, len, per_line, k).2 + cache_scan(pattern, len, per_line, k).3 <= k,
    decreases k,
{
    if k > 0 {
        lemma_cache_scan_bounded(pattern, len, per_line, (k - 1) as nat);
    }
}

/// Which of the first `k` accesses follow their predecessor: an access at
/// position `i > 0` into the array whose index is the previous entry's index
/// plus one is counted as sequential; every other access into the array at a
/// position `i > 0` is counted as random. Accesses outside the array, and the
/// first access, are counted as neither.
pub proof fn lemma_cache_scan_counts(pattern: Seq<usize>, len: nat, per_line: nat, k: nat)
    requires
        k <= pattern.len(),
    ensures
        cache_scan(pattern, len, per_line, k).2 == Seq::new(k, |i: int| i).filter(
            |i: int| 0 < i && pattern[i] < len && pattern[i] == pattern[i - 1] + 1,
        ).len(),
        cache_scan(pattern, len, per_line, k).3 == Seq::new(k, |i: int| i).filter(
            |i: int| 0 < i && pattern[i] < len && pattern[i] != pattern[i - 1] + 1,
        ).len(),
    decreases k,
{
    reveal(Seq::filter);
    if k > 0 {
        lemma_cache_scan_counts(pattern, len, per_line, (k - 1) as nat);
        assert(Seq::new(k, |i: int| i).drop_last() =~= Seq::new((k - 1) as nat, |i: int| i));
        assert(Seq::new(k, |i: int| i).last() == k - 1);
    }
}

/// A strictly descending pattern inside the array has no sequential access:
/// of its `k >= 1` accesses, all but the first are random.
pub proof fn lemma_descending_pattern_is_random(pattern: Seq<usize>, len: nat, per_line: nat, k: nat)
    requires
        1 <= k <= pattern.len(),
        forall|i: int| 0 <= i < k ==> pattern[i] < len,
        forall|i: int| 0 < i < k ==> #[trigger] pattern[i] < pattern[i - 1],
    ensures
        cache_scan(pattern, len, per_line, k).2 == 0,
        cache_scan(pattern, len, per_line, k).3 == k - 1,
    decreases k,
{
    assert(cache_scan(pattern, len, per_line, 0) == (None::<int>, 0nat, 0nat, 0nat));
    assert(pattern[k - 1] < len);
    if k > 1 {
        lemma_descending_pattern_is_random(pattern, len, per_line, (k - 1) as nat);
        assert(pattern[k - 1] < pattern[k - 2]);
        assert(pattern[k - 1] as int != pattern[k - 2] + 1);
    }
}

/// Models how an access pattern uses cache lines.
pub struct CacheAnalyzer {
    cache_lines_accessed: AtomicU64,
    cache_misses: AtomicU64,
    page_faults: AtomicU64,
}

impl CacheAnalyzer {
    pub fn new() -> Self {
        CacheAnalyzer {
            cache_lines_accessed: AtomicU64::new(0),
            cache_misses: AtomicU64::new(0),
            page_faults: AtomicU64::new(0),
        }
    }

    /// Simulates cache behaviour for `access_pattern` into `data`: counts the
    /// changes of cache line (taken as the estimated misses) and how many
    /// accesses follow their predecessor's index. Elements larger than a
    /// cache line are supported only when no index falls inside the array.
    pub fn analyze_access_pattern<T>(&self, data: &[T], access_pattern: &[usize]) -> (r: CacheStats)
        requires
            vstd::layout::size_of::<T>() <= CACHE_LINE_SIZE
                || forall|i: int| 0 <= i < access_pattern@.len() ==> access_pattern@[i] >= data@.len(),
        ensures
            ({
                let scan = cache_scan(access_pattern@, data@.len(), elements_per_line::<T>(), access_pattern@.len());
                &&& r.total_accesses == access_pattern@.len()
                &&& r.cache_lines_used == scan.1
                &&& r.sequential_accesses == scan.2
                &&& r.random_accesses == scan.3
                &&& r.estimated_cache_misses == scan.1
            }),
            r.cache_lines_used <= r.total_accesses,
            r.sequential_accesses + r.random_accesses <= r.total_accesses,
            r.sequential_accesses == Seq::new(access_pattern@.len(), |i: int| i).filter(
                |i: int| 0 < i && access_pattern@[i] < data@.len() && access_pattern@[i] == access_pattern@[i - 1] + 1,
            ).len(),
            r.random_accesses == Seq::new(access_pattern@.len(), |i: int| i).filter(
                |i: int| 0 < i && access_pattern@[i] < data@.len() && access_pattern@[i] != access_pattern@[i - 1] + 1,
            ).len(),
    {
        let type_size = core::mem::size_of::<T>();
        let size = if type_size > 1 { type_size } else { 1 };
        let per_line = CACHE_LINE_SIZE / size;
        proof {
            if size <= 64 {
                assert(64usize / size >= 1) by (nonlinear_arith)
                    requires
                        1 <= size <= 64,
                ;
            }
        }
        let ghost pattern = access_pattern@;
        let ghost len = data@.len();
        let mut last_cache_line: Option<usize> = None;
        let mut cache_lines_used: usize = 0;
        let mut sequential_accesses: usize = 0;
        let mut random_accesses: usize = 0;
        let n = access_pattern.len();
        let mut i: usize = 0;
        while i < n
            invariant
                n == pattern.len(),
                pattern == access_pattern@,
                len == data@.len(),
                per_line == elements_per_line::<T>(),
                per_line == 0 ==> forall|j: int| 0 <= j < n ==> pattern[j] >= len,
                i <= n,
                ({
                    let scan = cache_scan(pattern, len, per_line as nat, i as nat);
                    &&& scan.0 == (match last_cache_line { Some(l) => Some(l as int), None => None })
                    &&& scan.1 == cache_lines_used
                    &&& scan.2 == sequential_accesses
                    &&& scan.3 == random_accesses
                }),
            decreases n - i,
        {
            proof {
                lemma_cache_scan_bounded(pattern, len, per_line as nat, i as nat);
            }
            let index = access_pattern[i];
            if index < data.len() {
                let cache_line = index / per_line;
                let changed = match last_cache_line {
                    Some(l) => l != cache_line,
                    None => true,
                };
                if changed {
                    cache_lines_used = cache_lines_used + 1;
                    last_cache_line = Some(cache_line);
                }
                if i > 0 {
                    let prev_index = access_pattern[i - 1];
                    if index >= 1 && index - 1 == prev_index {
                        sequential_accesses = sequential_accesses + 1;
                    } else {
                        random_accesses = random_accesses + 1;
                    }
                }
            }
            i = i + 1;
        }
        proof {
            lemma_cache_scan_bounded(pattern, len, per_line as nat, n as nat);
            lemma_cache_scan_counts(pattern, len, per_line as nat, n as nat);
        }
        CacheStats {
            total_accesses: n,
            cache_lines_used,
            sequential_accesses,
            random_accesses,
            estimated_cache_misses: cache_lines_used,
        }
    }
}

} // verus!

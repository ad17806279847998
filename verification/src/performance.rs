//! Latency accounting: named time marks per lookup, a rolling window of
//! samples derived from them, and rank-based statistics over the window.
//!
//! All times are whole nanoseconds: a mark is a reading of the tracker's own
//! clock, a duration the difference of two readings.

use crate::clock::Stopwatch;
use crate::text::same_text;
use vstd::prelude::*;
use vstd::relations::sorted_by;
use vstd::relations::total_ordering;
use vstd::seq_lib::lemma_sorted_unique;
use vstd::seq_lib::to_multiset_build;
use vstd::seq_lib::to_multiset_insert;

verus! {

/// The number of samples the rolling window keeps.
pub const SAMPLE_WINDOW: usize = 1000;

/// The stages of one lookup, in nanoseconds.
#[derive(Debug, Clone, Copy)]
pub struct PerformanceMetrics {
    pub hotkey_to_text_capture: u64,
    pub text_capture_to_cache_lookup: u64,
    pub cache_lookup_time: u64,
    pub api_call_time: Option<u64>,
    pub total_backend_time: u64,
    pub cache_hit: bool,
}

/// Averages of the stages over the window, in nanoseconds, rounded down.
#[derive(Debug, Clone, Copy)]
pub struct PerformanceBreakdown {
    pub text_capture_ns: u64,
    pub cache_lookup_ns: u64,
    /// Over the samples that called the origin; zero when none did.
    pub api_call_ns: u64,
}

/// Statistics of the total latency over the window, in nanoseconds.
#[derive(Debug, Clone, Copy)]
pub struct PerformanceStats {
    pub count: usize,
    /// The mean, rounded down.
    pub avg_total_ns: u64,
    pub min_total_ns: u64,
    pub max_total_ns: u64,
    pub p50_total_ns: u64,
    pub p95_total_ns: u64,
    pub p99_total_ns: u64,
    /// The sum of all total latencies.
    pub sum_total_ns: u128,
    /// The number of samples that were cache hits.
    pub cache_hits: usize,
    /// The share of cache hits in percent, rounded down.
    pub cache_hit_rate: u64,
    pub breakdown: PerformanceBreakdown,
}

struct Mark {
    name: String,
    at: u64,
}

/// Records marks and samples for one process.
pub struct PerformanceTracker {
    clock: Stopwatch,
    marks: Vec<Mark>,
    metrics: Vec<PerformanceMetrics>,
}

/// The time from `earlier` to `later`, zero when `earlier` is the later one.
pub open spec fn span(later: u64, earlier: u64) -> u64 {
    if later >= earlier {
        (later - earlier) as u64
    } else {
        0
    }
}

/// The sample that a set of marks gives, if the five marks of a lookup are
/// all there.
pub open spec fn sample_from(
    marks: Map<Seq<char>, u64>,
    cache_hit: bool,
    api_time: Option<u64>,
) -> Option<PerformanceMetrics> {
    if marks.dom().contains("hotkey_pressed"@) && marks.dom().contains("text_captured"@)
        && marks.dom().contains("cache_lookup_start"@) && marks.dom().contains(
        "cache_lookup_end"@,
    ) && marks.dom().contains("backend_complete"@) {
        Some(
            PerformanceMetrics {
                hotkey_to_text_capture: span(marks["text_captured"@], marks["hotkey_pressed"@]),
                text_capture_to_cache_lookup: span(
                    marks["cache_lookup_start"@],
                    marks["text_captured"@],
                ),
                cache_lookup_time: span(marks["cache_lookup_end"@], marks["cache_lookup_start"@]),
                api_call_time: api_time,
                total_backend_time: span(marks["backend_complete"@], marks["hotkey_pressed"@]),
                cache_hit,
            },
        )
    } else {
        None
    }
}

/// The window after `sample` was appended: once it holds more than
/// `SAMPLE_WINDOW` samples the oldest one is dropped.
pub open spec fn window_push(
    window: Seq<PerformanceMetrics>,
    sample: PerformanceMetrics,
) -> Seq<PerformanceMetrics> {
    if window.len() + 1 > SAMPLE_WINDOW {
        window.push(sample).drop_first()
    } else {
        window.push(sample)
    }
}

/// The total latencies of the samples, in the window's order.
pub open spec fn totals(samples: Seq<PerformanceMetrics>) -> Seq<u64> {
    Seq::new(samples.len(), |i: int| samples[i].total_backend_time)
}

/// The order on latencies.
pub open spec fn at_most() -> spec_fn(u64, u64) -> bool {
    |a: u64, b: u64| a <= b
}

/// `values` in ascending order.
pub open spec fn ascending(values: Seq<u64>) -> Seq<u64> {
    values.sort_by(at_most())
}

/// The index of the `percent`-th percentile among `count` sorted samples:
/// `percent * count / 100`, rounded down.
pub open spec fn percentile_rank(count: nat, percent: nat) -> nat {
    count * percent / 100
}

/// The sum of the total latencies.
pub open spec fn sum_total(samples: Seq<PerformanceMetrics>) -> nat
    decreases samples.len(),
{
    if samples.len() == 0 {
        0
    } else {
        sum_total(samples.drop_last()) + samples.last().total_backend_time as nat
    }
}

/// The sum of the times from hotkey to captured text.
pub open spec fn sum_text_capture(samples: Seq<PerformanceMetrics>) -> nat
    decreases samples.len(),
{
    if samples.len() == 0 {
        0
    } else {
        sum_text_capture(samples.drop_last()) + samples.last().hotkey_to_text_capture as nat
    }
}

/// The sum of the cache lookup times.
pub open spec fn sum_cache_lookup(samples: Seq<PerformanceMetrics>) -> nat
    decreases samples.len(),
{
    if samples.len() == 0 {
        0
    } else {
        sum_cache_lookup(samples.drop_last()) + samples.last().cache_lookup_time as nat
    }
}

/// The sum of the origin call times, over the samples that have one.
pub open spec fn sum_api_call(samples: Seq<PerformanceMetrics>) -> nat
    decreases samples.len(),
{
    if samples.len() == 0 {
        0
    } else {
        sum_api_call(samples.drop_last()) + (match samples.last().api_call_time {
            Some(t) => t as nat,
            None => 0,
        })
    }
}

/// The number of samples that called the origin.
pub open spec fn count_api_calls(samples: Seq<PerformanceMetrics>) -> nat
    decreases samples.len(),
{
    if samples.len() == 0 {
        0
    } else {
        count_api_calls(samples.drop_last()) + (if samples.last().api_call_time.is_some() {
            1nat
        } else {
            0nat
        })
    }
}

/// The number of samples that were cache hits.
pub open spec fn count_cache_hits(samples: Seq<PerformanceMetrics>) -> nat
    decreases samples.len(),
{
    if samples.len() == 0 {
        0
    } else {
        count_cache_hits(samples.drop_last()) + (if samples.last().cache_hit {
            1nat
        } else {
            0nat
        })
    }
}

/// The statistics of a window of samples. An empty window gives zeros. The
/// percentiles are the values at ranks `count / 2`, `count * 95 / 100` and
/// `count * 99 / 100` of the sorted total latencies, without interpolation.
pub open spec fn stats_of(samples: Seq<PerformanceMetrics>) -> PerformanceStats {
    if samples.len() == 0 {
        PerformanceStats {
            count: 0,
            avg_total_ns: 0,
            min_total_ns: 0,
            max_total_ns: 0,
            p50_total_ns: 0,
            p95_total_ns: 0,
            p99_total_ns: 0,
            sum_total_ns: 0,
            cache_hits: 0,
            cache_hit_rate: 0,
            breakdown: PerformanceBreakdown { text_capture_ns: 0, cache_lookup_ns: 0, api_call_ns: 0 },
        }
    } else {
        let count = samples.len();
        let sorted = ascending(totals(samples));
        PerformanceStats {
            count: count as usize,
            avg_total_ns: (sum_total(samples) / count) as u64,
            min_total_ns: sorted[0],
            max_total_ns: sorted[count - 1],
            p50_total_ns: sorted[percentile_rank(count, 50) as int],
            p95_total_ns: sorted[percentile_rank(count, 95) as int],
            p99_total_ns: sorted[percentile_rank(count, 99) as int],
            sum_total_ns: sum_total(samples) as u128,
            cache_hits: count_cache_hits(samples) as usize,
            cache_hit_rate: (count_cache_hits(samples) * 100 / count) as u64,
            breakdown: PerformanceBreakdown {
                text_capture_ns: (sum_text_capture(samples) / count) as u64,
                cache_lookup_ns: (sum_cache_lookup(samples) / count) as u64,
                api_call_ns: if count_api_calls(samples) == 0 {
                    0
                } else {
                    (sum_api_call(samples) / count_api_calls(samples)) as u64
                },
            },
        }
    }
}

/// The marks that a list of named readings stands for.
spec fn marks_of(list: Seq<Mark>) -> Map<Seq<char>, u64> {
    Map::new(
        |name: Seq<char>| exists|i: int| 0 <= i < list.len() && (#[trigger] list[i]).name@ == name,
        |name: Seq<char>| list[choose|i: int| 0 <= i < list.len() && (#[trigger] list[i]).name@ == name].at,
    )
}

/// No name occurs twice in the list.
spec fn names_distinct(list: Seq<Mark>) -> bool {
    forall|i: int, j: int| 0 <= i < j < list.len() ==> (#[trigger] list[i]).name@ != (#[trigger] list[j]).name@
}

/// With distinct names, the mark seen at position `i` is the one recorded
/// under its name.
proof fn lemma_mark_at(list: Seq<Mark>, i: int)
    requires
        names_distinct(list),
        0 <= i < list.len(),
    ensures
        marks_of(list).dom().contains(list[i].name@),
        marks_of(list)[list[i].name@] == list[i].at,
{
    let name = list[i].name@;
    let c = choose|c: int| 0 <= c < list.len() && (#[trigger] list[c]).name@ == name;
    if c < i {
        assert(list[c].name@ != list[i].name@);
    } else if i < c {
        assert(list[i].name@ != list[c].name@);
    }
}

/// Putting a new reading in the place of the mark of the same name sets that
/// mark and no other.
proof fn lemma_marks_after_update(
    before: Seq<Mark>,
    after: Seq<Mark>,
    i: int,
    name: Seq<char>,
    at: u64,
)
    requires
        names_distinct(before),
        0 <= i < before.len(),
        before[i].name@ == name,
        after.len() == before.len(),
        after[i].name@ == name,
        after[i].at == at,
        forall|j: int| 0 <= j < before.len() && j != i ==> (#[trigger] after[j]) == before[j],
    ensures
        names_distinct(after),
        marks_of(after) == marks_of(before).insert(name, at),
{
    assert(forall|j: int| 0 <= j < after.len() ==> (#[trigger] after[j]).name@ == before[j].name@);
    assert(names_distinct(after));
    let goal = marks_of(before).insert(name, at);
    assert forall|k: Seq<char>| #[trigger] marks_of(after).dom().contains(k) == goal.dom().contains(k) by {
        if marks_of(after).dom().contains(k) {
            let c = choose|c: int| 0 <= c < after.len() && (#[trigger] after[c]).name@ == k;
            assert(before[c].name@ == k);
        }
        if marks_of(before).dom().contains(k) {
            let c = choose|c: int| 0 <= c < before.len() && (#[trigger] before[c]).name@ == k;
            assert(after[c].name@ == k);
        }
        if k == name {
            assert(after[i].name@ == k);
        }
    }
    assert forall|k: Seq<char>| marks_of(after).dom().contains(k) implies #[trigger] marks_of(
        after,
    )[k] == goal[k] by {
        let c = choose|c: int| 0 <= c < after.len() && (#[trigger] after[c]).name@ == k;
        lemma_mark_at(after, c);
        if c != i {
            lemma_mark_at(before, c);
            assert(before[c].name@ != before[i].name@);
        }
    }
    assert(marks_of(after) =~= goal);
}

/// Appending a reading under a name that has no mark adds that mark and
/// changes no other.
proof fn lemma_marks_after_push(before: Seq<Mark>, after: Seq<Mark>, name: Seq<char>, at: u64)
    requires
        names_distinct(before),
        forall|j: int| 0 <= j < before.len() ==> (#[trigger] before[j]).name@ != name,
        after.len() == before.len() + 1,
        after[before.len() as int].name@ == name,
        after[before.len() as int].at == at,
        forall|j: int| 0 <= j < before.len() ==> (#[trigger] after[j]) == before[j],
    ensures
        names_distinct(after),
        marks_of(after) == marks_of(before).insert(name, at),
{
    let last = before.len() as int;
    assert(names_distinct(after));
    let goal = marks_of(before).insert(name, at);
    assert forall|k: Seq<char>| #[trigger] marks_of(after).dom().contains(k) == goal.dom().contains(k) by {
        if marks_of(after).dom().contains(k) {
            let c = choose|c: int| 0 <= c < after.len() && (#[trigger] after[c]).name@ == k;
            if c < last {
                assert(before[c].name@ == k);
            }
        }
        if marks_of(before).dom().contains(k) {
            let c = choose|c: int| 0 <= c < before.len() && (#[trigger] before[c]).name@ == k;
            assert(after[c].name@ == k);
        }
        if k == name {
            assert(after[last].name@ == k);
        }
    }
    assert forall|k: Seq<char>| marks_of(after).dom().contains(k) implies #[trigger] marks_of(
        after,
    )[k] == goal[k] by {
        let c = choose|c: int| 0 <= c < after.len() && (#[trigger] after[c]).name@ == k;
        lemma_mark_at(after, c);
        if c != last {
            lemma_mark_at(before, c);
        }
    }
    assert(marks_of(after) =~= goal);
}

impl PerformanceTracker {
    /// The marks recorded since the last reset, by name.
    pub closed spec fn marks(&self) -> Map<Seq<char>, u64> {
        marks_of(self.marks@)
    }

    /// The samples in the window, oldest first.
    pub closed spec fn samples(&self) -> Seq<PerformanceMetrics> {
        self.metrics@
    }

    /// The invariant of the tracker's internal list of marks.
    pub closed spec fn marks_consistent(&self) -> bool {
        names_distinct(self.marks@)
    }

    /// The tracker's invariant: the window is never over its capacity.
    pub open spec fn wf(&self) -> bool {
        &&& self.marks_consistent()
        &&& self.samples().len() <= SAMPLE_WINDOW
    }

    /// A tracker without marks or samples, whose clock starts now.
    pub fn new() -> (tracker: PerformanceTracker)
        ensures
            tracker.wf(),
            tracker.marks() == Map::<Seq<char>, u64>::empty(),
            tracker.samples() == Seq::<PerformanceMetrics>::empty(),
    {
        let tracker = PerformanceTracker {
            clock: Stopwatch::start(),
            marks: Vec::new(),
            metrics: Vec::new(),
        };
        assert(tracker.marks() =~= Map::<Seq<char>, u64>::empty());
        tracker
    }

    /// Records the present time under `name`, in place of an earlier mark of
    /// that name. Whatever the clock reads, only that one mark changes.
    pub fn mark(&mut self, name: &str)
        requires
            old(self).wf(),
        ensures
            final(self).wf(),
            final(self).marks().dom().contains(name@),
            final(self).marks() == old(self).marks().insert(name@, final(self).marks()[name@]),
            final(self).samples() == old(self).samples(),
    {
        let at = self.clock.elapsed_nanos();
        self.mark_at(name, at);
    }

    /// Records the reading `at` under `name`, in place of an earlier mark of
    /// that name.
    pub fn mark_at(&mut self, name: &str, at: u64)
        requires
            old(self).wf(),
        ensures
            final(self).wf(),
            final(self).marks() == old(self).marks().insert(name@, at),
            final(self).samples() == old(self).samples(),
    {
        let ghost before = self.marks@;
        let mut i: usize = 0;
        while i < self.marks.len()
            invariant
                i <= self.marks.len(),
                self.marks@ == before,
                before == old(self).marks@,
                names_distinct(before),
                self.metrics@.len() <= SAMPLE_WINDOW,
                self.metrics@ == old(self).metrics@,
                forall|j: int| 0 <= j < i ==> (#[trigger] before[j]).name@ != name@,
            decreases self.marks.len() - i,
        {
            if same_text(self.marks[i].name.as_str(), name) {
                self.marks.set(i, Mark { name: name.to_owned(), at });
                proof {
                    lemma_marks_after_update(before, self.marks@, i as int, name@, at);
                }
                return ;
            }
            i += 1;
        }
        self.marks.push(Mark { name: name.to_owned(), at });
        proof {
            lemma_marks_after_push(before, self.marks@, name@, at);
        }
    }

    /// The reading recorded under `name`, if there is one.
    pub fn reading(&self, name: &str) -> (at: Option<u64>)
        requires
            self.wf(),
        ensures
            at == (if self.marks().dom().contains(name@) {
                Some(self.marks()[name@])
            } else {
                None
            }),
    {
        let mut i: usize = 0;
        while i < self.marks.len()
            invariant
                i <= self.marks.len(),
                self.wf(),
                forall|j: int| 0 <= j < i ==> (#[trigger] self.marks@[j]).name@ != name@,
            decreases self.marks.len() - i,
        {
            if same_text(self.marks[i].name.as_str(), name) {
                proof {
                    lemma_mark_at(self.marks@, i as int);
                }
                return Some(self.marks[i].at);
            }
            i += 1;
        }
        None
    }

    /// Derives a sample from the current marks and appends it to the window.
    /// When one of the five marks of a lookup is missing nothing happens and
    /// nothing is returned. The marks stay as they are.
    pub fn measure_backend(&mut self, cache_hit: bool, api_time: Option<u64>) -> (sample: Option<
        PerformanceMetrics,
    >)
        requires
            old(self).wf(),
        ensures
            final(self).wf(),
            sample == sample_from(old(self).marks(), cache_hit, api_time),
            final(self).marks() == old(self).marks(),
            final(self).samples() == (match sample {
                Some(s) => window_push(old(self).samples(), s),
                None => old(self).samples(),
            }),
    {
        let hotkey_pressed = match self.reading("hotkey_pressed") {
            Some(at) => at,
            None => { return None; },
        };
        let text_captured = match self.reading("text_captured") {
            Some(at) => at,
            None => { return None; },
        };
        let cache_lookup_start = match self.reading("cache_lookup_start") {
            Some(at) => at,
            None => { return None; },
        };
        let cache_lookup_end = match self.reading("cache_lookup_end") {
            Some(at) => at,
            None => { return None; },
        };
        let backend_complete = match self.reading("backend_complete") {
            Some(at) => at,
            None => { return None; },
        };
        let metrics = PerformanceMetrics {
            hotkey_to_text_capture: text_captured.saturating_sub(hotkey_pressed),
            text_capture_to_cache_lookup: cache_lookup_start.saturating_sub(text_captured),
            cache_lookup_time: cache_lookup_end.saturating_sub(cache_lookup_start),
            api_call_time: api_time,
            total_backend_time: backend_complete.saturating_sub(hotkey_pressed),
            cache_hit,
        };
        self.metrics.push(metrics);
        if self.metrics.len() > SAMPLE_WINDOW {
            let _ = self.metrics.remove(0);
            assert(self.metrics@ =~= old(self).metrics@.push(metrics).drop_first());
        }
        Some(metrics)
    }

    /// The statistics of the window.
    pub fn get_stats(&self) -> (stats: PerformanceStats)
        ensures
            stats == stats_of(self.samples()),
    {
        let count = self.metrics.len();
        if count == 0 {
            return PerformanceStats {
                count: 0,
                avg_total_ns: 0,
                min_total_ns: 0,
                max_total_ns: 0,
                p50_total_ns: 0,
                p95_total_ns: 0,
                p99_total_ns: 0,
                sum_total_ns: 0,
                cache_hits: 0,
                cache_hit_rate: 0,
                breakdown: PerformanceBreakdown {
                    text_capture_ns: 0,
                    cache_lookup_ns: 0,
                    api_call_ns: 0,
                },
            };
        }
        let sorted = sorted_totals(&self.metrics);
        let sums = sum_window(&self.metrics);
        let api_call_ns = if sums.api_calls == 0 {
            0
        } else {
            mean(sums.api_call, sums.api_calls)
        };
        PerformanceStats {
            count,
            avg_total_ns: mean(sums.total, count),
            min_total_ns: sorted[0],
            max_total_ns: sorted[count - 1],
            p50_total_ns: sorted[rank(count, 50)],
            p95_total_ns: sorted[rank(count, 95)],
            p99_total_ns: sorted[rank(count, 99)],
            sum_total_ns: sums.total,
            cache_hits: sums.cache_hits,
            cache_hit_rate: hit_rate(sums.cache_hits, count),
            breakdown: PerformanceBreakdown {
                text_capture_ns: mean(sums.text_capture, count),
                cache_lookup_ns: mean(sums.cache_lookup, count),
                api_call_ns,
            },
        }
    }

    /// Forgets every mark and every sample.
    pub fn reset(&mut self)
        ensures
            final(self).wf(),
            final(self).marks() == Map::<Seq<char>, u64>::empty(),
            final(self).samples() == Seq::<PerformanceMetrics>::empty(),
    {
        self.marks.clear();
        self.metrics.clear();
        assert(self.marks() =~= Map::<Seq<char>, u64>::empty());
    }
}

/// The sums and counts that the statistics are made of.
struct WindowSums {
    total: u128,
    text_capture: u128,
    cache_lookup: u128,
    api_call: u128,
    api_calls: usize,
    cache_hits: usize,
}

/// Adds up the window.
fn sum_window(samples: &Vec<PerformanceMetrics>) -> (sums: WindowSums)
    ensures
        sums.total == sum_total(samples@),
        sums.text_capture == sum_text_capture(samples@),
        sums.cache_lookup == sum_cache_lookup(samples@),
        sums.api_call == sum_api_call(samples@),
        sums.api_calls == count_api_calls(samples@),
        sums.cache_hits == count_cache_hits(samples@),
        sums.total <= samples@.len() * u64::MAX,
        sums.text_capture <= samples@.len() * u64::MAX,
        sums.cache_lookup <= samples@.len() * u64::MAX,
        sums.api_call <= sums.api_calls * u64::MAX,
        sums.api_calls <= samples@.len(),
        sums.cache_hits <= samples@.len(),
{
    let mut sums = WindowSums {
        total: 0,
        text_capture: 0,
        cache_lookup: 0,
        api_call: 0,
        api_calls: 0,
        cache_hits: 0,
    };
    let mut i: usize = 0;
    while i < samples.len()
        invariant
            i <= samples.len(),
            sums.total == sum_total(samples@.take(i as int)),
            sums.text_capture == sum_text_capture(samples@.take(i as int)),
            sums.cache_lookup == sum_cache_lookup(samples@.take(i as int)),
            sums.api_call == sum_api_call(samples@.take(i as int)),
            sums.api_calls == count_api_calls(samples@.take(i as int)),
            sums.cache_hits == count_cache_hits(samples@.take(i as int)),
            sums.total <= i * u64::MAX,
            sums.text_capture <= i * u64::MAX,
            sums.cache_lookup <= i * u64::MAX,
            sums.api_call <= sums.api_calls * u64::MAX,
            sums.api_calls <= i,
            sums.cache_hits <= i,
        decreases samples.len() - i,
    {
        let sample = samples[i];
        proof {
            assert(samples@.take(i + 1).drop_last() =~= samples@.take(i as int));
            assert(samples@.take(i + 1).last() == samples@[i as int]);
        }
        sums.total = sums.total + sample.total_backend_time as u128;
        sums.text_capture = sums.text_capture + sample.hotkey_to_text_capture as u128;
        sums.cache_lookup = sums.cache_lookup + sample.cache_lookup_time as u128;
        match sample.api_call_time {
            Some(t) => {
                sums.api_call = sums.api_call + t as u128;
                sums.api_calls = sums.api_calls + 1;
            },
            None => {},
        }
        if sample.cache_hit {
            sums.cache_hits = sums.cache_hits + 1;
        }
        i += 1;
    }
    proof {
        assert(samples@.take(i as int) =~= samples@);
    }
    sums
}

/// The mean of `count` values of 64 bits whose sum is `sum`, rounded down.
fn mean(sum: u128, count: usize) -> (m: u64)
    requires
        count > 0,
        sum <= count * u64::MAX,
    ensures
        m == sum as nat / count as nat,
{
    let q = sum / (count as u128);
    assert(q <= u64::MAX) by (nonlinear_arith)
        requires
            q == sum as int / count as int,
            count > 0,
            sum <= count * u64::MAX,
    ;
    q as u64
}

/// The share of `hits` among `count` in percent, rounded down.
fn hit_rate(hits: usize, count: usize) -> (percent: u64)
    requires
        count > 0,
        hits <= count,
    ensures
        percent == hits as nat * 100 / count as nat,
{
    let q = (hits as u128) * 100 / (count as u128);
    assert(q <= 100) by (nonlinear_arith)
        requires
            q == (hits as int * 100) / count as int,
            count > 0,
            0 <= hits <= count,
    ;
    q as u64
}

/// The index of a percentile among `count` sorted samples.
fn rank(count: usize, percent: u8) -> (index: usize)
    requires
        count > 0,
        percent < 100,
    ensures
        index == percentile_rank(count as nat, percent as nat),
        index < count,
{
    assert(count * percent <= usize::MAX * 100) by (nonlinear_arith)
        requires
            0 <= count <= usize::MAX,
            0 <= percent < 100,
    ;
    let q = (count as u128) * (percent as u128) / 100;
    assert(q < count) by (nonlinear_arith)
        requires
            q == (count as int * percent as int) / 100,
            count > 0,
            0 <= percent < 100,
    ;
    q as usize
}

/// The total latencies of the samples in ascending order.
fn sorted_totals(samples: &Vec<PerformanceMetrics>) -> (sorted: Vec<u64>)
    ensures
        sorted@ == ascending(totals(samples@)),
        sorted@.len() == samples@.len(),
{
    let mut sorted: Vec<u64> = Vec::new();
    let mut i: usize = 0;
    proof {
        assert(totals(samples@).take(0) =~= Seq::<u64>::empty());
    }
    while i < samples.len()
        invariant
            i <= samples.len(),
            sorted@.len() == i,
            sorted_by(sorted@, at_most()),
            sorted@.to_multiset() == totals(samples@).take(i as int).to_multiset(),
        decreases samples.len() - i,
    {
        let value = samples[i].total_backend_time;
        let mut at: usize = 0;
        while at < sorted.len() && sorted[at] <= value
            invariant
                at <= sorted.len(),
                forall|j: int| 0 <= j < at ==> (#[trigger] sorted@[j]) <= value,
            decreases sorted.len() - at,
        {
            at += 1;
        }
        let ghost before = sorted@;
        sorted.insert(at, value);
        proof {
            to_multiset_insert(before, at as int, value);
            let t = totals(samples@);
            assert(t.take(i + 1) =~= t.take(i as int).push(value));
            to_multiset_build(t.take(i as int), value);
            let after = sorted@;
            assert forall|a: int, b: int| 0 <= a < b < after.len() implies #[trigger] at_most()(
                after[a],
                after[b],
            ) by {
                let ia = if a < at { a } else { a - 1 };
                let ib = if b < at { b } else { b - 1 };
                if a != at && b != at {
                    assert(after[a] == before[ia]);
                    assert(after[b] == before[ib]);
                    assert(at_most()(before[ia], before[ib]));
                } else if a == at {
                    assert(after[b] == before[ib]);
                    assert(at_most()(before[at as int], before[ib]) || ib == at);
                } else {
                    assert(after[a] == before[ia]);
                }
            }
        }
        i += 1;
    }
    proof {
        let t = totals(samples@);
        assert(t.take(i as int) =~= t);
        assert(total_ordering(at_most()));
        t.lemma_sort_by_ensures(at_most());
        lemma_sorted_unique(sorted@, ascending(t), at_most());
    }
    sorted
}

} // verus!

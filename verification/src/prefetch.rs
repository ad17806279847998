//! The schedule of background prefetching: a queue of words ordered by
//! priority, the set of words being fetched, and the counters kept on both.
//!
//! The scheduler decides; it fetches nothing itself. A caller takes a batch
//! of words with `process_prefetch_queue`, fetches them, and reports each
//! one back with `finish_prefetch`.

use crate::text::contains_text;
use crate::text::same_text;
use crate::text::texts_of;
use std::collections::VecDeque;
use vstd::prelude::*;

verus! {

/// How urgently a word should be fetched.
#[derive(Debug, Clone, Copy, PartialEq, Eq, Structural)]
pub enum PrefetchPriority {
    High,
    Medium,
    Low,
}

/// Words to fetch ahead of need, all with one priority.
#[derive(Debug)]
pub struct PrefetchRequest {
    pub words: Vec<String>,
    pub priority: PrefetchPriority,
}

/// Counters of the scheduler.
#[derive(Debug, Clone, Copy)]
pub struct PrefetchStats {
    pub total_prefetched: usize,
    pub cache_hits_from_prefetch: usize,
    pub prefetch_queue_size: usize,
    pub active_prefetches: usize,
}

struct QueuedWord {
    word: String,
    priority: PrefetchPriority,
}

/// A queued word as plain values.
pub struct Queued {
    pub word: Seq<char>,
    pub priority: PrefetchPriority,
}

/// The queue, the active set and the counters of background prefetching.
pub struct PrefetchManager {
    prefetch_queue: VecDeque<QueuedWord>,
    active_prefetches: Vec<String>,
    stats: PrefetchStats,
    max_concurrent_prefetch: usize,
    prefetch_delay_ms: u64,
}

/// The entries of `queue` that have priority `p`, in their order.
pub open spec fn with_priority(queue: Seq<Queued>, p: PrefetchPriority) -> Seq<Queued>
    decreases queue.len(),
{
    if queue.len() == 0 {
        Seq::empty()
    } else {
        let rest = with_priority(queue.drop_last(), p);
        if queue.last().priority == p {
            rest.push(queue.last())
        } else {
            rest
        }
    }
}

/// `queue` sorted by priority, high first, entries of equal priority in
/// the order they had.
pub open spec fn by_priority(queue: Seq<Queued>) -> Seq<Queued> {
    with_priority(queue, PrefetchPriority::High) + with_priority(queue, PrefetchPriority::Medium)
        + with_priority(queue, PrefetchPriority::Low)
}

/// The entries that a request adds: its words that are not being fetched,
/// in their order, each with the request's priority.
pub open spec fn admitted(
    words: Seq<Seq<char>>,
    active: Seq<Seq<char>>,
    priority: PrefetchPriority,
) -> Seq<Queued>
    decreases words.len(),
{
    if words.len() == 0 {
        Seq::empty()
    } else {
        let rest = admitted(words.drop_last(), active, priority);
        if active.contains(words.last()) {
            rest
        } else {
            rest.push(Queued { word: words.last(), priority })
        }
    }
}

/// The queue after a request: the admitted words are appended and the whole
/// queue is sorted by priority.
pub open spec fn enqueued(
    queue: Seq<Queued>,
    active: Seq<Seq<char>>,
    words: Seq<Seq<char>>,
    priority: PrefetchPriority,
) -> Seq<Queued> {
    by_priority(queue + admitted(words, active, priority))
}

/// The queue and the active set after one round of reservations. Words leave
/// the front of the queue one at a time while a slot is free; each becomes
/// active, except one that is being fetched already, which is dropped.
pub open spec fn drained(queue: Seq<Queued>, active: Seq<Seq<char>>, max: nat) -> (Seq<Queued>, Seq<
    Seq<char>,
>)
    decreases queue.len(),
{
    if queue.len() == 0 || active.len() >= max {
        (queue, active)
    } else if active.contains(queue[0].word) {
        drained(queue.drop_first(), active, max)
    } else {
        drained(queue.drop_first(), active.push(queue[0].word), max)
    }
}

/// `words` without `word`.
pub open spec fn without(words: Seq<Seq<char>>, word: Seq<char>) -> Seq<Seq<char>>
    decreases words.len(),
{
    if words.len() == 0 {
        Seq::empty()
    } else {
        let rest = without(words.drop_last(), word);
        if words.last() == word {
            rest
        } else {
            rest.push(words.last())
        }
    }
}

/// `n + 1`, held at `usize::MAX`.
pub open spec fn bumped(n: usize) -> usize {
    if n == usize::MAX {
        n
    } else {
        (n + 1) as usize
    }
}

/// The priority that a label names: `high`, `medium` or `low`; any other
/// label means medium.
pub open spec fn priority_of(label: Seq<char>) -> PrefetchPriority {
    if label == "high"@ {
        PrefetchPriority::High
    } else if label == "low"@ {
        PrefetchPriority::Low
    } else {
        PrefetchPriority::Medium
    }
}

impl PrefetchPriority {
    /// The priority that `label` names.
    pub fn from_label(label: &str) -> (priority: PrefetchPriority)
        ensures
            priority == priority_of(label@),
    {
        if same_text(label, "high") {
            PrefetchPriority::High
        } else if same_text(label, "low") {
            PrefetchPriority::Low
        } else {
            PrefetchPriority::Medium
        }
    }
}

/// The plain values of a list of queued words.
spec fn queue_of(list: Seq<QueuedWord>) -> Seq<Queued> {
    Seq::new(list.len(), |i: int| Queued { word: list[i].word@, priority: list[i].priority })
}

impl PrefetchManager {
    /// The queue as plain values, the next word to fetch first.
    pub closed spec fn queue(&self) -> Seq<Queued> {
        queue_of(self.prefetch_queue@)
    }

    /// The words being fetched, in the order they were reserved.
    pub closed spec fn active(&self) -> Seq<Seq<char>> {
        texts_of(self.active_prefetches@)
    }

    /// The counters.
    pub closed spec fn counters(&self) -> PrefetchStats {
        self.stats
    }

    /// The number of words that may be fetched at once.
    pub closed spec fn max_concurrent(&self) -> nat {
        self.max_concurrent_prefetch as nat
    }

    /// The pause between two rounds of the worker, in milliseconds.
    pub closed spec fn poll_interval(&self) -> u64 {
        self.prefetch_delay_ms
    }

    /// The scheduler's invariant: no word is fetched twice at once, no more
    /// words are fetched at once than the cap allows, and the counters of the
    /// queue and of the active set are their sizes.
    pub open spec fn wf(&self) -> bool {
        &&& self.active().no_duplicates()
        &&& self.active().len() <= self.max_concurrent()
        &&& self.counters().active_prefetches == self.active().len()
        &&& self.counters().prefetch_queue_size == self.queue().len()
    }

    /// A scheduler with an empty queue that fetches up to three words at
    /// once and is polled every 100 milliseconds.
    pub fn new() -> (manager: PrefetchManager)
        ensures
            manager.wf(),
            manager.queue() == Seq::<Queued>::empty(),
            manager.active() == Seq::<Seq<char>>::empty(),
            manager.max_concurrent() == 3,
            manager.poll_interval() == 100,
            manager.counters().total_prefetched == 0,
            manager.counters().cache_hits_from_prefetch == 0,
    {
        let manager = PrefetchManager {
            prefetch_queue: VecDeque::new(),
            active_prefetches: Vec::new(),
            stats: PrefetchStats {
                total_prefetched: 0,
                cache_hits_from_prefetch: 0,
                prefetch_queue_size: 0,
                active_prefetches: 0,
            },
            max_concurrent_prefetch: 3,
            prefetch_delay_ms: 100,
        };
        assert(manager.queue() =~= Seq::<Queued>::empty());
        assert(manager.active() =~= Seq::<Seq<char>>::empty());
        manager
    }

    /// The pause between two rounds of the worker, in milliseconds.
    pub fn poll_interval_ms(&self) -> (millis: u64)
        ensures
            millis == self.poll_interval(),
    {
        self.prefetch_delay_ms
    }

    /// Adds the words of `request` that are not being fetched to the queue
    /// and sorts the queue by priority, keeping the order of entries of equal
    /// priority. Always succeeds.
    pub fn queue_prefetch(&mut self, request: PrefetchRequest) -> (done: Result<(), String>)
        requires
            old(self).wf(),
        ensures
            done.is_ok(),
            final(self).wf(),
            final(self).queue() == enqueued(
                old(self).queue(),
                old(self).active(),
                texts_of(request.words@),
                request.priority,
            ),
            final(self).active() == old(self).active(),
            final(self).max_concurrent() == old(self).max_concurrent(),
            final(self).counters().total_prefetched == old(self).counters().total_prefetched,
            final(self).counters().cache_hits_from_prefetch == old(
                self,
            ).counters().cache_hits_from_prefetch,
    {
        let ghost queue0 = self.queue();
        let ghost words = texts_of(request.words@);
        let ghost active = self.active();
        let priority = request.priority;
        let mut incoming = request.words;
        let mut high: VecDeque<QueuedWord> = VecDeque::new();
        let mut medium: VecDeque<QueuedWord> = VecDeque::new();
        let mut low: VecDeque<QueuedWord> = VecDeque::new();
        // The entries already queued, split by priority.
        let mut queued: VecDeque<QueuedWord> = VecDeque::new();
        std::mem::swap(&mut queued, &mut self.prefetch_queue);
        let ghost all = queue0 + admitted(words, active, priority);
        let mut i: usize = 0;
        while i < queued.len()
            invariant
                i <= queued.len(),
                queue_of(queued@) == queue0,
                queue_of(high@) == with_priority(queue0.take(i as int), PrefetchPriority::High),
                queue_of(medium@) == with_priority(queue0.take(i as int), PrefetchPriority::Medium),
                queue_of(low@) == with_priority(queue0.take(i as int), PrefetchPriority::Low),
            decreases queued.len() - i,
        {
            let entry = QueuedWord { word: queued[i].word.clone(), priority: queued[i].priority };
            proof {
                assert(queue0.take(i + 1).drop_last() =~= queue0.take(i as int));
                assert(queue0.take(i + 1).last() == queue0[i as int]);
            }
            let ghost h = queue_of(high@);
            let ghost m = queue_of(medium@);
            let ghost l = queue_of(low@);
            match entry.priority {
                PrefetchPriority::High => {
                    high.push_back(entry);
                    assert(queue_of(high@) =~= h.push(queue0[i as int]));
                },
                PrefetchPriority::Medium => {
                    medium.push_back(entry);
                    assert(queue_of(medium@) =~= m.push(queue0[i as int]));
                },
                PrefetchPriority::Low => {
                    low.push_back(entry);
                    assert(queue_of(low@) =~= l.push(queue0[i as int]));
                },
            }
            i += 1;
        }
        proof {
            assert(queue0.take(i as int) =~= queue0);
        }
        // The words of the request that are admitted, with its priority.
        let mut fresh: VecDeque<QueuedWord> = VecDeque::new();
        let mut k: usize = 0;
        while k < incoming.len()
            invariant
                k <= incoming.len(),
                texts_of(incoming@) == words,
                self.active() == active,
                queue_of(fresh@) == admitted(words.take(k as int), active, priority),
                forall|j: int| 0 <= j < fresh@.len() ==> (#[trigger] fresh@[j]).priority == priority,
            decreases incoming.len() - k,
        {
            proof {
                assert(words.take(k + 1).drop_last() =~= words.take(k as int));
                assert(words.take(k + 1).last() == incoming@[k as int]@);
            }
            if !contains_text(&self.active_prefetches, incoming[k].as_str()) {
                let ghost f = queue_of(fresh@);
                fresh.push_back(QueuedWord { word: incoming[k].clone(), priority });
                assert(queue_of(fresh@) =~= f.push(Queued { word: incoming@[k as int]@, priority }));
            }
            k += 1;
        }
        proof {
            assert(words.take(k as int) =~= words);
            let extra = queue_of(fresh@);
            assert(forall|j: int| 0 <= j < extra.len() ==> (#[trigger] extra[j]).priority == priority);
            lemma_with_priority_concat(queue0, extra, PrefetchPriority::High);
            lemma_with_priority_concat(queue0, extra, PrefetchPriority::Medium);
            lemma_with_priority_concat(queue0, extra, PrefetchPriority::Low);
            lemma_with_priority_uniform(extra, priority, PrefetchPriority::High);
            lemma_with_priority_uniform(extra, priority, PrefetchPriority::Medium);
            lemma_with_priority_uniform(extra, priority, PrefetchPriority::Low);
        }
        let ghost h0 = queue_of(high@);
        let ghost m0 = queue_of(medium@);
        let ghost l0 = queue_of(low@);
        let ghost extra = queue_of(fresh@);
        match priority {
            PrefetchPriority::High => {
                high.append(&mut fresh);
                assert(queue_of(high@) =~= h0 + extra);
            },
            PrefetchPriority::Medium => {
                medium.append(&mut fresh);
                assert(queue_of(medium@) =~= m0 + extra);
            },
            PrefetchPriority::Low => {
                low.append(&mut fresh);
                assert(queue_of(low@) =~= l0 + extra);
            },
        }
        let ghost h1 = queue_of(high@);
        let ghost m1 = queue_of(medium@);
        let ghost l1 = queue_of(low@);
        assert(h1 == with_priority(all, PrefetchPriority::High));
        assert(m1 == with_priority(all, PrefetchPriority::Medium));
        assert(l1 == with_priority(all, PrefetchPriority::Low));
        high.append(&mut medium);
        high.append(&mut low);
        assert(queue_of(high@) =~= h1 + m1 + l1);
        self.prefetch_queue = high;
        self.stats.prefetch_queue_size = self.prefetch_queue.len();
        Ok(())
    }

    /// Reserves slots for the next words and returns those words, which the
    /// caller must fetch and then report with `finish_prefetch`. Counting the
    /// free slots and filling them is one step: a word is taken from the
    /// front of the queue only while fewer words are active than the cap
    /// allows. A word that is being fetched already is dropped from the
    /// queue.
    pub fn process_prefetch_queue(&mut self) -> (batch: Vec<String>)
        requires
            old(self).wf(),
        ensures
            final(self).wf(),
            final(self).queue() == drained(
                old(self).queue(),
                old(self).active(),
                old(self).max_concurrent(),
            ).0,
            final(self).active() == drained(
                old(self).queue(),
                old(self).active(),
                old(self).max_concurrent(),
            ).1,
            old(self).active().len() <= final(self).active().len(),
            texts_of(batch@) == final(self).active().subrange(
                old(self).active().len() as int,
                final(self).active().len() as int,
            ),
            final(self).max_concurrent() == old(self).max_concurrent(),
            final(self).counters().total_prefetched == old(self).counters().total_prefetched,
            final(self).counters().cache_hits_from_prefetch == old(
                self,
            ).counters().cache_hits_from_prefetch,
    {
        let ghost queue0 = self.queue();
        let ghost active0 = self.active();
        let ghost max = self.max_concurrent();
        let mut batch: Vec<String> = Vec::new();
        while self.prefetch_queue.len() > 0 && self.active_prefetches.len()
            < self.max_concurrent_prefetch
            invariant
                self.max_concurrent() == max,
                self.stats.total_prefetched == old(self).stats.total_prefetched,
                self.stats.cache_hits_from_prefetch == old(self).stats.cache_hits_from_prefetch,
                self.active().no_duplicates(),
                self.active().len() <= max,
                drained(self.queue(), self.active(), max) == drained(queue0, active0, max),
                active0.len() <= self.active().len(),
                texts_of(batch@) == self.active().subrange(
                    active0.len() as int,
                    self.active().len() as int,
                ),
            decreases self.prefetch_queue.len(),
        {
            let ghost q = self.queue();
            let ghost a = self.active();
            let ghost b = texts_of(batch@);
            let next = self.prefetch_queue.pop_front();
            assert(self.queue() =~= q.drop_first());
            if let Some(entry) = next {
                assert(q[0].word == entry.word@);
                if !contains_text(&self.active_prefetches, entry.word.as_str()) {
                    batch.push(entry.word.clone());
                    self.active_prefetches.push(entry.word);
                    proof {
                        assert(self.active() =~= a.push(q[0].word));
                        assert(texts_of(batch@) =~= b.push(q[0].word));
                        assert(texts_of(batch@) =~= self.active().subrange(
                            active0.len() as int,
                            self.active().len() as int,
                        ));
                    }
                }
            }
        }
        self.stats.active_prefetches = self.active_prefetches.len();
        self.stats.prefetch_queue_size = self.prefetch_queue.len();
        batch
    }

    /// Records that the fetch of `word` has ended: the word leaves the active
    /// set, and a fetch that succeeded is counted. The count stops at
    /// `usize::MAX`.
    pub fn finish_prefetch(&mut self, word: &str, succeeded: bool)
        requires
            old(self).wf(),
        ensures
            final(self).wf(),
            final(self).active() == without(old(self).active(), word@),
            final(self).queue() == old(self).queue(),
            final(self).max_concurrent() == old(self).max_concurrent(),
            final(self).counters().total_prefetched == (if succeeded {
                bumped(old(self).counters().total_prefetched)
            } else {
                old(self).counters().total_prefetched
            }),
            final(self).counters().cache_hits_from_prefetch == old(
                self,
            ).counters().cache_hits_from_prefetch,
    {
        let ghost active0 = self.active();
        let mut kept: Vec<String> = Vec::new();
        let mut i: usize = 0;
        while i < self.active_prefetches.len()
            invariant
                i <= self.active_prefetches.len(),
                self.active() == active0,
                texts_of(kept@) == without(active0.take(i as int), word@),
            decreases self.active_prefetches.len() - i,
        {
            proof {
                assert(active0.take(i + 1).drop_last() =~= active0.take(i as int));
                assert(active0.take(i + 1).last() == self.active_prefetches@[i as int]@);
            }
            if !same_text(self.active_prefetches[i].as_str(), word) {
                let ghost before = texts_of(kept@);
                kept.push(self.active_prefetches[i].clone());
                assert(texts_of(kept@) =~= before.push(self.active_prefetches@[i as int]@));
            }
            i += 1;
        }
        proof {
            assert(active0.take(i as int) =~= active0);
            lemma_without_is_part(active0, word@);
        }
        self.active_prefetches = kept;
        if succeeded {
            self.stats.total_prefetched = self.stats.total_prefetched.saturating_add(1);
        }
        self.stats.active_prefetches = self.active_prefetches.len();
    }

    /// A snapshot of the counters.
    pub fn get_stats(&self) -> (stats: PrefetchStats)
        ensures
            stats == self.counters(),
    {
        self.stats
    }

    /// Empties the queue. Words being fetched are not affected.
    pub fn clear_queue(&mut self)
        requires
            old(self).wf(),
        ensures
            final(self).wf(),
            final(self).queue() == Seq::<Queued>::empty(),
            final(self).active() == old(self).active(),
            final(self).max_concurrent() == old(self).max_concurrent(),
            final(self).counters().total_prefetched == old(self).counters().total_prefetched,
            final(self).counters().cache_hits_from_prefetch == old(
                self,
            ).counters().cache_hits_from_prefetch,
    {
        self.prefetch_queue.clear();
        self.stats.prefetch_queue_size = 0;
        assert(self.queue() =~= Seq::<Queued>::empty());
    }

    /// Counts a lookup that was answered from the cache thanks to a
    /// prefetch. The count stops at `usize::MAX`.
    pub fn track_cache_hit(&mut self, word: &str)
        ensures
            final(self).queue() == old(self).queue(),
            final(self).active() == old(self).active(),
            final(self).max_concurrent() == old(self).max_concurrent(),
            final(self).counters().cache_hits_from_prefetch == bumped(
                old(self).counters().cache_hits_from_prefetch,
            ),
            final(self).counters().total_prefetched == old(self).counters().total_prefetched,
            final(self).counters().prefetch_queue_size == old(self).counters().prefetch_queue_size,
            final(self).counters().active_prefetches == old(self).counters().active_prefetches,
    {
        self.stats.cache_hits_from_prefetch = self.stats.cache_hits_from_prefetch.saturating_add(1);
    }
}

/// Queues `words` under the priority that `priority` names.
pub fn queue_prefetch(manager: &mut PrefetchManager, words: Vec<String>, priority: String) -> (done:
    Result<(), String>)
    requires
        old(manager).wf(),
    ensures
        done.is_ok(),
        final(manager).wf(),
        final(manager).queue() == enqueued(
            old(manager).queue(),
            old(manager).active(),
            texts_of(words@),
            priority_of(priority@),
        ),
        final(manager).active() == old(manager).active(),
        final(manager).max_concurrent() == old(manager).max_concurrent(),
        final(manager).counters().total_prefetched == old(manager).counters().total_prefetched,
        final(manager).counters().cache_hits_from_prefetch == old(
            manager,
        ).counters().cache_hits_from_prefetch,
{
    let priority = PrefetchPriority::from_label(priority.as_str());
    manager.queue_prefetch(PrefetchRequest { words, priority })
}

/// A snapshot of the scheduler's counters.
pub fn get_prefetch_stats(manager: &PrefetchManager) -> (stats: Result<PrefetchStats, String>)
    ensures
        stats == Ok::<PrefetchStats, String>(manager.counters()),
{
    Ok(manager.get_stats())
}

/// Empties the scheduler's queue.
pub fn clear_prefetch_queue(manager: &mut PrefetchManager) -> (done: Result<(), String>)
    requires
        old(manager).wf(),
    ensures
        done.is_ok(),
        final(manager).wf(),
        final(manager).queue() == Seq::<Queued>::empty(),
        final(manager).active() == old(manager).active(),
        final(manager).max_concurrent() == old(manager).max_concurrent(),
        final(manager).counters().total_prefetched == old(manager).counters().total_prefetched,
        final(manager).counters().cache_hits_from_prefetch == old(
            manager,
        ).counters().cache_hits_from_prefetch,
{
    manager.clear_queue();
    Ok(())
}

/// Selecting by priority goes through a concatenation.
proof fn lemma_with_priority_concat(a: Seq<Queued>, b: Seq<Queued>, p: PrefetchPriority)
    ensures
        with_priority(a + b, p) == with_priority(a, p) + with_priority(b, p),
    decreases b.len(),
{
    if b.len() == 0 {
        assert(a + b =~= a);
        assert(with_priority(a, p) + with_priority(b, p) =~= with_priority(a, p));
    } else {
        lemma_with_priority_concat(a, b.drop_last(), p);
        assert((a + b).drop_last() =~= a + b.drop_last());
        assert((a + b).last() == b.last());
        assert(with_priority(a + b, p) =~= with_priority(a, p) + with_priority(b, p));
    }
}

/// Of entries that all have priority `own`, selecting `own` keeps all and
/// selecting another priority keeps none.
proof fn lemma_with_priority_uniform(q: Seq<Queued>, own: PrefetchPriority, p: PrefetchPriority)
    requires
        forall|j: int| 0 <= j < q.len() ==> (#[trigger] q[j]).priority == own,
    ensures
        with_priority(q, p) == (if p == own {
            q
        } else {
            Seq::empty()
        }),
    decreases q.len(),
{
    if q.len() > 0 {
        lemma_with_priority_uniform(q.drop_last(), own, p);
        assert(q.last() == q[q.len() - 1]);
        if p == own {
            assert(q.drop_last().push(q.last()) =~= q);
        }
    } else {
        assert(q =~= Seq::empty());
    }
}

/// Removing a word keeps the order and the distinctness of the others and
/// never lengthens the list.
proof fn lemma_without_is_part(words: Seq<Seq<char>>, word: Seq<char>)
    ensures
        without(words, word).len() <= words.len(),
        forall|w: Seq<char>|
            #![trigger without(words, word).contains(w)]
            #![trigger words.contains(w)]
            without(words, word).contains(w) <==> (words.contains(w) && w != word),
        words.no_duplicates() ==> without(words, word).no_duplicates(),
    decreases words.len(),
{
    if words.len() > 0 {
        let head = words.drop_last();
        lemma_without_is_part(head, word);
        let rest = without(head, word);
        let out = without(words, word);
        assert forall|w: Seq<char>|
            #![trigger out.contains(w)]
            #![trigger words.contains(w)]
            out.contains(w) <==> (words.contains(w) && w != word) by {
            if out.contains(w) {
                let i = choose|i: int| 0 <= i < out.len() && out[i] == w;
                if i < rest.len() {
                    assert(rest[i] == w);
                    assert(rest.contains(w));
                    let j = choose|j: int| 0 <= j < head.len() && head[j] == w;
                    assert(words[j] == w);
                } else {
                    assert(words[words.len() - 1] == w);
                }
            }
            if words.contains(w) && w != word {
                let j = choose|j: int| 0 <= j < words.len() && words[j] == w;
                if j < head.len() {
                    assert(head[j] == w);
                    assert(head.contains(w));
                    let i = choose|i: int| 0 <= i < rest.len() && rest[i] == w;
                    assert(out[i] == w);
                } else {
                    assert(out[out.len() - 1] == w);
                }
            }
        }
        if words.no_duplicates() {
            assert(head.no_duplicates());
            if words.last() != word {
                assert forall|i: int, j: int| 0 <= i < out.len() && 0 <= j < out.len() && i != j implies out[i] != out[j] by {
                    if i == out.len() - 1 && j < rest.len() {
                        assert(rest.contains(rest[j]));
                        let t = choose|t: int| 0 <= t < head.len() && head[t] == rest[j];
                        assert(words[t] != words[words.len() - 1]);
                    } else if j == out.len() - 1 && i < rest.len() {
                        assert(rest.contains(rest[i]));
                        let t = choose|t: int| 0 <= t < head.len() && head[t] == rest[i];
                        assert(words[t] != words[words.len() - 1]);
                    }
                }
            }
        }
    }
}

/// The place of a priority in the order of fetching: the lower, the sooner.
pub open spec fn urgency(p: PrefetchPriority) -> nat {
    match p {
        PrefetchPriority::High => 0,
        PrefetchPriority::Medium => 1,
        PrefetchPriority::Low => 2,
    }
}

/// No word is queued twice.
pub open spec fn distinct_words(queue: Seq<Queued>) -> bool {
    forall|i: int, j: int| 0 <= i < j < queue.len() ==> (#[trigger] queue[i]).word != (#[trigger] queue[j]).word
}

/// No queued word is being fetched.
pub open spec fn apart(queue: Seq<Queued>, active: Seq<Seq<char>>) -> bool {
    forall|i: int| 0 <= i < queue.len() ==> !active.contains((#[trigger] queue[i]).word)
}

/// Every entry selected by priority has that priority and comes from the
/// queue.
proof fn lemma_with_priority_members(queue: Seq<Queued>, p: PrefetchPriority)
    ensures
        forall|i: int| 0 <= i < with_priority(queue, p).len() ==> (#[trigger] with_priority(queue, p)[i]).priority == p,
        forall|i: int| 0 <= i < with_priority(queue, p).len() ==> queue.contains(#[trigger] with_priority(queue, p)[i]),
    decreases queue.len(),
{
    if queue.len() > 0 {
        let head = queue.drop_last();
        lemma_with_priority_members(head, p);
        let rest = with_priority(head, p);
        let out = with_priority(queue, p);
        assert forall|i: int| 0 <= i < out.len() implies queue.contains(#[trigger] out[i]) by {
            if i < rest.len() {
                assert(head.contains(rest[i]));
                let j = choose|j: int| 0 <= j < head.len() && head[j] == rest[i];
                assert(queue[j] == out[i]);
            } else {
                assert(queue[queue.len() - 1] == out[i]);
            }
        }
    }
}

/// Sorting by priority puts every entry of higher priority before every
/// entry of lower priority.
pub proof fn lemma_by_priority_is_ordered(queue: Seq<Queued>)
    ensures
        forall|i: int, j: int| 0 <= i < j < by_priority(queue).len() ==> urgency((#[trigger] by_priority(queue)[i]).priority) <= urgency((#[trigger] by_priority(queue)[j]).priority),
{
    lemma_with_priority_members(queue, PrefetchPriority::High);
    lemma_with_priority_members(queue, PrefetchPriority::Medium);
    lemma_with_priority_members(queue, PrefetchPriority::Low);
    let h = with_priority(queue, PrefetchPriority::High);
    let m = with_priority(queue, PrefetchPriority::Medium);
    let l = with_priority(queue, PrefetchPriority::Low);
    let out = by_priority(queue);
    assert forall|i: int, j: int| 0 <= i < j < out.len() implies urgency((#[trigger] out[i]).priority) <= urgency((#[trigger] out[j]).priority) by {
        if i < h.len() {
            assert(out[i] == h[i]);
        } else if i < h.len() + m.len() {
            assert(out[i] == m[i - h.len()]);
            assert(out[j] == (if j < h.len() + m.len() { m[j - h.len()] } else { l[j - h.len() - m.len()] }));
        } else {
            assert(out[i] == l[i - h.len() - m.len()]);
            assert(out[j] == l[j - h.len() - m.len()]);
        }
    }
}

/// Sorting by priority is stable and loses nothing: the entries of each
/// priority are the same, in the same order, before and after.
pub proof fn lemma_by_priority_is_stable(queue: Seq<Queued>, p: PrefetchPriority)
    ensures
        with_priority(by_priority(queue), p) == with_priority(queue, p),
        by_priority(queue).len() == queue.len(),
{
    let h = with_priority(queue, PrefetchPriority::High);
    let m = with_priority(queue, PrefetchPriority::Medium);
    let l = with_priority(queue, PrefetchPriority::Low);
    lemma_with_priority_members(queue, PrefetchPriority::High);
    lemma_with_priority_members(queue, PrefetchPriority::Medium);
    lemma_with_priority_members(queue, PrefetchPriority::Low);
    lemma_with_priority_concat(h + m, l, p);
    lemma_with_priority_concat(h, m, p);
    lemma_with_priority_uniform(h, PrefetchPriority::High, p);
    lemma_with_priority_uniform(m, PrefetchPriority::Medium, p);
    lemma_with_priority_uniform(l, PrefetchPriority::Low, p);
    assert(with_priority(by_priority(queue), p) =~= with_priority(queue, p));
    lemma_priorities_partition(queue);
}

/// Every entry has exactly one of the three priorities.
proof fn lemma_priorities_partition(queue: Seq<Queued>)
    ensures
        with_priority(queue, PrefetchPriority::High).len() + with_priority(
            queue,
            PrefetchPriority::Medium,
        ).len() + with_priority(queue, PrefetchPriority::Low).len() == queue.len(),
    decreases queue.len(),
{
    if queue.len() > 0 {
        lemma_priorities_partition(queue.drop_last());
    }
}

/// A request never queues a word that is being fetched: if no queued word
/// was active before, none is after.
pub proof fn lemma_enqueued_keeps_apart(
    queue: Seq<Queued>,
    active: Seq<Seq<char>>,
    words: Seq<Seq<char>>,
    priority: PrefetchPriority,
)
    requires
        apart(queue, active),
    ensures
        apart(enqueued(queue, active, words, priority), active),
{
    let extra = admitted(words, active, priority);
    lemma_admitted_apart(words, active, priority);
    let all = queue + extra;
    assert(apart(all, active)) by {
        assert forall|i: int| 0 <= i < all.len() implies !active.contains((#[trigger] all[i]).word) by {
            if i < queue.len() {
                assert(all[i] == queue[i]);
            } else {
                assert(all[i] == extra[i - queue.len()]);
            }
        }
    }
    lemma_with_priority_members(all, PrefetchPriority::High);
    lemma_with_priority_members(all, PrefetchPriority::Medium);
    lemma_with_priority_members(all, PrefetchPriority::Low);
    let h = with_priority(all, PrefetchPriority::High);
    let m = with_priority(all, PrefetchPriority::Medium);
    let l = with_priority(all, PrefetchPriority::Low);
    let out = by_priority(all);
    assert forall|i: int| 0 <= i < out.len() implies !active.contains((#[trigger] out[i]).word) by {
        let e = out[i];
        if i < h.len() {
            assert(e == h[i]);
        } else if i < h.len() + m.len() {
            assert(e == m[i - h.len()]);
        } else {
            assert(e == l[i - h.len() - m.len()]);
        }
        assert(all.contains(e));
        let j = choose|j: int| 0 <= j < all.len() && all[j] == e;
        assert(!active.contains(all[j].word));
    }
}

/// No admitted word is being fetched.
proof fn lemma_admitted_apart(words: Seq<Seq<char>>, active: Seq<Seq<char>>, priority: PrefetchPriority)
    ensures
        apart(admitted(words, active, priority), active),
    decreases words.len(),
{
    if words.len() > 0 {
        lemma_admitted_apart(words.drop_last(), active, priority);
        let rest = admitted(words.drop_last(), active, priority);
        let out = admitted(words, active, priority);
        assert forall|i: int| 0 <= i < out.len() implies !active.contains((#[trigger] out[i]).word) by {
            if i < rest.len() {
                assert(out[i] == rest[i]);
            }
        }
    }
}

/// A round of reservations never exceeds the cap and never fetches a word
/// twice at once. When no word is queued twice and no queued word is being
/// fetched, the same holds after the round: no word is in the queue and in
/// the active set at once.
pub proof fn lemma_drained_keeps_apart(queue: Seq<Queued>, active: Seq<Seq<char>>, max: nat)
    requires
        active.no_duplicates(),
        active.len() <= max,
    ensures
        drained(queue, active, max).1.no_duplicates(),
        drained(queue, active, max).1.len() <= max,
        distinct_words(queue) && apart(queue, active) ==> distinct_words(
            drained(queue, active, max).0,
        ) && apart(drained(queue, active, max).0, drained(queue, active, max).1),
    decreases queue.len(),
{
    if queue.len() == 0 || active.len() >= max {
    } else {
        let rest = queue.drop_first();
        let w = queue[0].word;
        let next = if active.contains(w) { active } else { active.push(w) };
        assert(next.no_duplicates()) by {
            if !active.contains(w) {
                assert forall|i: int, j: int| 0 <= i < next.len() && 0 <= j < next.len() && i != j implies next[i] != next[j] by {
                    if i == active.len() {
                        assert(active.contains(next[j]));
                    } else if j == active.len() {
                        assert(active.contains(next[i]));
                    }
                }
            }
        }
        lemma_drained_keeps_apart(rest, next, max);
        if distinct_words(queue) && apart(queue, active) {
            assert(distinct_words(rest)) by {
                assert forall|i: int, j: int| 0 <= i < j < rest.len() implies (#[trigger] rest[i]).word != (#[trigger] rest[j]).word by {
                    assert(rest[i] == queue[i + 1]);
                    assert(rest[j] == queue[j + 1]);
                }
            }
            assert(apart(rest, next)) by {
                assert forall|i: int| 0 <= i < rest.len() implies !next.contains((#[trigger] rest[i]).word) by {
                    assert(rest[i] == queue[i + 1]);
                    assert(queue[0].word != queue[i + 1].word);
                    if next.contains(rest[i].word) {
                        let k = choose|k: int| 0 <= k < next.len() && next[k] == rest[i].word;
                        if k < active.len() {
                            assert(active[k] == rest[i].word);
                            assert(active.contains(rest[i].word));
                        }
                    }
                }
            }
        }
    }
}

} // verus!

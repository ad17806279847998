//! A bounded store of definitions with least-recently-used eviction.
//!
//! The cache keeps its entries in one sequence ordered by recency, the most
//! recently used entry first. Its model is that sequence as plain values;
//! every contract here is stated over it.

use crate::text::byte_len;
use crate::text::clone_strings;
use crate::text::clone_optional_string;
use crate::text::same_text;
use crate::text::text_bytes;
use crate::text::texts_of;
use std::collections::VecDeque;
use std::time::Instant;
use vstd::prelude::*;

verus! {

/// One word's dictionary entry.
#[derive(Debug)]
pub struct Definition {
    pub word: String,
    pub pronunciation: Option<String>,
    /// Part of speech.
    pub pos: String,
    pub definitions: Vec<String>,
    pub frequency: Option<u32>,
}

/// A `Definition` as plain values.
pub struct DefinitionView {
    pub word: Seq<char>,
    pub pronunciation: Option<Seq<char>>,
    pub pos: Seq<char>,
    pub definitions: Seq<Seq<char>>,
    pub frequency: Option<u32>,
}

impl View for Definition {
    type V = DefinitionView;

    open spec fn view(&self) -> DefinitionView {
        DefinitionView {
            word: self.word@,
            pronunciation: match self.pronunciation {
                Some(p) => Some(p@),
                None => None,
            },
            pos: self.pos@,
            definitions: texts_of(self.definitions@),
            frequency: self.frequency,
        }
    }
}

impl Clone for Definition {
    fn clone(&self) -> (copy: Definition)
        ensures
            copy@ == self@,
    {
        Definition {
            word: self.word.clone(),
            pronunciation: clone_optional_string(&self.pronunciation),
            pos: self.pos.clone(),
            definitions: clone_strings(&self.definitions),
            frequency: self.frequency,
        }
    }
}

/// What the cache holds for one key, as plain values.
pub struct CachedWord {
    pub key: Seq<char>,
    pub definition: DefinitionView,
}

/// Whether some entry of `m` is stored under `key`.
pub open spec fn holds(m: Seq<CachedWord>, key: Seq<char>) -> bool {
    exists|i: int| 0 <= i < m.len() && (#[trigger] m[i]).key == key
}

/// The position of `key` in `m`, counted from the most recently used entry.
/// Meaningful only when `holds(m, key)`.
pub open spec fn rank_of(m: Seq<CachedWord>, key: Seq<char>) -> int {
    choose|i: int| 0 <= i < m.len() && (#[trigger] m[i]).key == key
}

/// No key occurs twice in `m`.
pub open spec fn distinct_keys(m: Seq<CachedWord>) -> bool {
    forall|i: int, j: int| 0 <= i < j < m.len() ==> (#[trigger] m[i]).key != (#[trigger] m[j]).key
}

/// The number of entries a cache of the given capacity may hold. A cache
/// asked to hold nothing still keeps the one entry stored last.
pub open spec fn limit(capacity: nat) -> nat {
    if capacity == 0 {
        1
    } else {
        capacity
    }
}

/// The entries after `key` was looked up: on a hit the entry moves to the
/// front, on a miss nothing changes.
pub open spec fn touched(m: Seq<CachedWord>, key: Seq<char>) -> Seq<CachedWord> {
    if holds(m, key) {
        seq![m[rank_of(m, key)]] + m.remove(rank_of(m, key))
    } else {
        m
    }
}

/// The entries after `definition` was stored under `key` in a cache of the
/// given capacity. A key already present is replaced and moves to the front.
/// A new key goes to the front; when the cache is full the entry at the back,
/// the least recently used one, leaves first.
pub open spec fn stored(
    m: Seq<CachedWord>,
    capacity: nat,
    key: Seq<char>,
    definition: DefinitionView,
) -> Seq<CachedWord> {
    let fresh = CachedWord { key, definition };
    if holds(m, key) {
        seq![fresh] + m.remove(rank_of(m, key))
    } else if m.len() >= capacity && m.len() > 0 {
        seq![fresh] + m.drop_last()
    } else {
        seq![fresh] + m
    }
}

/// The bytes charged for a definition's list of senses: each text and 24
/// bytes of overhead for it.
pub open spec fn senses_footprint(senses: Seq<Seq<char>>) -> nat
    decreases senses.len(),
{
    if senses.len() == 0 {
        0
    } else {
        senses_footprint(senses.drop_last()) + text_bytes(senses.last()) + 24
    }
}

/// The bytes charged for one entry: its key, the definition's texts with 24
/// bytes of overhead each, 8 bytes per sense for the list, 16 for the access
/// time and 4 for the frequency.
pub open spec fn entry_footprint(e: CachedWord) -> nat {
    text_bytes(e.key) + 24 + text_bytes(e.definition.word) + 24 + (match e.definition.pronunciation {
        Some(p) => text_bytes(p) + 24,
        None => 0,
    }) + text_bytes(e.definition.pos) + 24 + senses_footprint(e.definition.definitions)
        + e.definition.definitions.len() * 8 + 16 + 4
}

/// The bytes charged for all entries of `m`.
pub open spec fn entries_footprint(m: Seq<CachedWord>) -> nat
    decreases m.len(),
{
    if m.len() == 0 {
        0
    } else {
        entries_footprint(m.drop_last()) + entry_footprint(m.last())
    }
}

/// The estimate of the memory a cache with entries `m` uses: the entries and
/// 32 bytes per key for the recency order.
pub open spec fn estimated_memory(m: Seq<CachedWord>) -> nat {
    entries_footprint(m) + m.len() * 32
}

/// `n` held to the range of `usize`.
pub open spec fn capped(n: nat) -> usize {
    if n > usize::MAX {
        usize::MAX
    } else {
        n as usize
    }
}

#[derive(Debug)]
struct CacheEntry {
    word: String,
    definition: Definition,
    last_accessed: Instant,
}

/// A snapshot of the cache's size.
#[derive(Debug)]
pub struct CacheStats {
    pub size: usize,
    pub capacity: usize,
    pub memory_usage_estimate: usize,
}

/// A bounded map from word to definition that evicts the least recently used
/// entry.
pub struct DictionaryCache {
    /// Most recently used first.
    entries: VecDeque<CacheEntry>,
    max_size: usize,
}

impl DictionaryCache {
    /// The entries as plain values, most recently used first.
    pub closed spec fn model(&self) -> Seq<CachedWord> {
        Seq::new(
            self.entries@.len(),
            |i: int| CachedWord { key: self.entries@[i].word@, definition: self.entries@[i].definition@ },
        )
    }

    /// The capacity the cache was built with.
    pub closed spec fn capacity(&self) -> nat {
        self.max_size as nat
    }

    /// The cache's invariant: each key once, and no more entries than the
    /// capacity allows.
    pub open spec fn wf(&self) -> bool {
        &&& distinct_keys(self.model())
        &&& self.model().len() <= limit(self.capacity())
    }

    /// An empty cache that holds up to `max_size` entries.
    pub fn new(max_size: usize) -> (cache: DictionaryCache)
        ensures
            cache.wf(),
            cache.model() == Seq::<CachedWord>::empty(),
            cache.capacity() == max_size,
    {
        let cache = DictionaryCache { entries: VecDeque::new(), max_size };
        assert(cache.model() =~= Seq::<CachedWord>::empty());
        cache
    }

    /// The position of `word` among the entries, if it is there.
    fn find(&self, word: &str) -> (at: Option<usize>)
        ensures
            match at {
                Some(i) => i < self.model().len() && self.model()[i as int].key == word@,
                None => !holds(self.model(), word@),
            },
    {
        let mut i: usize = 0;
        while i < self.entries.len()
            invariant
                i <= self.entries.len(),
                forall|j: int| 0 <= j < i ==> (#[trigger] self.model()[j]).key != word@,
            decreases self.entries.len() - i,
        {
            if same_text(self.entries[i].word.as_str(), word) {
                return Some(i);
            }
            i += 1;
        }
        None
    }

    /// Looks `word` up. On a hit the entry becomes the most recently used one
    /// and a copy of its definition is returned.
    pub fn get(&mut self, word: &str) -> (found: Option<Definition>)
        requires
            old(self).wf(),
        ensures
            final(self).wf(),
            final(self).capacity() == old(self).capacity(),
            final(self).model() == touched(old(self).model(), word@),
            holds(old(self).model(), word@) ==> found.is_some() && found.unwrap()@ == old(
                self,
            ).model()[rank_of(old(self).model(), word@)].definition,
            !holds(old(self).model(), word@) ==> found.is_none(),
    {
        match self.find(word) {
            Some(i) => {
                let ghost before = self.model();
                proof {
                    lemma_rank_is(before, word@, i as int);
                }
                match self.entries.remove(i) {
                    Some(mut entry) => {
                        entry.last_accessed = Instant::now();
                        let copy = entry.definition.clone();
                        self.entries.push_front(entry);
                        proof {
                            assert(self.model() =~= seq![before[i as int]] + before.remove(
                                i as int,
                            ));
                            lemma_front_keeps_distinct(before, i as int, before[i as int]);
                        }
                        Some(copy)
                    },
                    None => None,
                }
            },
            None => None,
        }
    }

    /// Stores `definition` under `word`. An entry already stored under `word`
    /// is replaced; otherwise, when the cache is full, the least recently
    /// used entry is evicted first. Either way `word` becomes the most
    /// recently used key.
    pub fn insert(&mut self, word: String, definition: Definition)
        requires
            old(self).wf(),
        ensures
            final(self).wf(),
            final(self).capacity() == old(self).capacity(),
            final(self).model() == stored(
                old(self).model(),
                old(self).capacity(),
                word@,
                definition@,
            ),
    {
        let ghost before = self.model();
        let ghost fresh = CachedWord { key: word@, definition: definition@ };
        match self.find(word.as_str()) {
            Some(i) => {
                proof {
                    lemma_rank_is(before, word@, i as int);
                }
                let _ = self.entries.remove(i);
                proof {
                    assert(self.model() =~= before.remove(i as int));
                    lemma_front_keeps_distinct(before, i as int, fresh);
                }
            },
            None => {
                if self.entries.len() >= self.max_size {
                    let _ = self.entries.pop_back();
                    proof {
                        if before.len() > 0 {
                            assert(self.model() =~= before.drop_last());
                        } else {
                            assert(self.model() =~= before);
                        }
                    }
                }
                proof {
                    lemma_new_front_keeps_distinct(before, fresh);
                }
            },
        }
        let ghost rest = self.model();
        self.entries.push_front(CacheEntry { word, definition, last_accessed: Instant::now() });
        proof {
            assert(self.model() =~= seq![fresh] + rest);
        }
    }

    /// The number of entries.
    pub fn size(&self) -> (n: usize)
        ensures
            n == self.model().len(),
    {
        self.entries.len()
    }

    /// Removes every entry.
    pub fn clear(&mut self)
        ensures
            final(self).wf(),
            final(self).capacity() == old(self).capacity(),
            final(self).model() == Seq::<CachedWord>::empty(),
    {
        self.entries.clear();
        assert(self.model() =~= Seq::<CachedWord>::empty());
    }

    /// Whether an entry is stored under `word`. The recency order does not
    /// change.
    pub fn contains(&self, word: &str) -> (present: bool)
        ensures
            present == holds(self.model(), word@),
    {
        self.find(word).is_some()
    }

    /// The cache's size, its capacity and the estimate of its memory use.
    pub fn get_stats(&self) -> (stats: CacheStats)
        ensures
            stats.size == self.model().len(),
            stats.capacity == self.capacity(),
            stats.memory_usage_estimate == capped(estimated_memory(self.model())),
    {
        CacheStats {
            size: self.entries.len(),
            capacity: self.max_size,
            memory_usage_estimate: self.estimate_memory_usage(),
        }
    }

    /// The estimate of the memory in use, in bytes, held at `usize::MAX` when
    /// it does not fit.
    pub fn estimate_memory_usage(&self) -> (bytes: usize)
        ensures
            bytes == capped(estimated_memory(self.model())),
    {
        let mut total: usize = 0;
        let mut i: usize = 0;
        while i < self.entries.len()
            invariant
                i <= self.entries.len(),
                total == capped(entries_footprint(self.model().take(i as int))),
            decreases self.entries.len() - i,
        {
            let entry = &self.entries[i];
            let cost = entry_cost(entry);
            proof {
                let m = self.model();
                assert(m.take(i + 1).drop_last() =~= m.take(i as int));
                assert(m.take(i + 1).last() == m[i as int]);
            }
            total = total.saturating_add(cost);
            i += 1;
        }
        proof {
            assert(self.model().take(i as int) =~= self.model());
        }
        match self.entries.len().checked_mul(32) {
            Some(order) => total.saturating_add(order),
            None => usize::MAX,
        }
    }
}

/// The bytes charged for one entry, held at `usize::MAX`.
fn entry_cost(entry: &CacheEntry) -> (bytes: usize)
    ensures
        bytes == capped(
            entry_footprint(CachedWord { key: entry.word@, definition: entry.definition@ }),
        ),
{
    let d = &entry.definition;
    let mut total: usize = byte_len(entry.word.as_str()).saturating_add(24);
    total = total.saturating_add(byte_len(d.word.as_str()));
    total = total.saturating_add(24);
    match &d.pronunciation {
        Some(p) => {
            total = total.saturating_add(byte_len(p.as_str()));
            total = total.saturating_add(24);
        },
        None => {},
    }
    total = total.saturating_add(byte_len(d.pos.as_str()));
    total = total.saturating_add(24);
    let ghost head = total;
    let mut senses: usize = 0;
    let mut i: usize = 0;
    while i < d.definitions.len()
        invariant
            i <= d.definitions.len(),
            senses == capped(senses_footprint(texts_of(d.definitions@).take(i as int))),
        decreases d.definitions.len() - i,
    {
        proof {
            let t = texts_of(d.definitions@);
            assert(t.take(i + 1).drop_last() =~= t.take(i as int));
            assert(t.take(i + 1).last() == d.definitions@[i as int]@);
        }
        senses = senses.saturating_add(byte_len(d.definitions[i].as_str()));
        senses = senses.saturating_add(24);
        i += 1;
    }
    proof {
        assert(texts_of(d.definitions@).take(i as int) =~= texts_of(d.definitions@));
    }
    total = total.saturating_add(senses);
    match d.definitions.len().checked_mul(8) {
        Some(list) => {
            total = total.saturating_add(list);
            total = total.saturating_add(20);
            total
        },
        None => usize::MAX,
    }
}

/// An empty cache that holds up to `max_size` entries.
pub fn create_cache(max_size: usize) -> (cache: DictionaryCache)
    ensures
        cache.wf(),
        cache.model() == Seq::<CachedWord>::empty(),
        cache.capacity() == max_size,
{
    DictionaryCache::new(max_size)
}

/// With each key stored once, the position at which a key is seen is its
/// rank.
pub proof fn lemma_rank_is(m: Seq<CachedWord>, key: Seq<char>, i: int)
    requires
        distinct_keys(m),
        0 <= i < m.len(),
        m[i].key == key,
    ensures
        holds(m, key),
        rank_of(m, key) == i,
{
    let r = rank_of(m, key);
    if r < i {
        assert(m[r].key != m[i].key);
    } else if i < r {
        assert(m[i].key != m[r].key);
    }
}

/// Taking the entry at `i` out and putting an entry with the same key at the
/// front keeps the keys distinct and the length unchanged.
proof fn lemma_front_keeps_distinct(m: Seq<CachedWord>, i: int, fresh: CachedWord)
    requires
        distinct_keys(m),
        0 <= i < m.len(),
        fresh.key == m[i].key,
    ensures
        distinct_keys(seq![fresh] + m.remove(i)),
        (seq![fresh] + m.remove(i)).len() == m.len(),
{
    let rest = m.remove(i);
    let out = seq![fresh] + rest;
    assert forall|a: int, b: int| 0 <= a < b < out.len() implies (#[trigger] out[a]).key != (
    #[trigger] out[b]).key by {
        let ib = if b - 1 < i { b - 1 } else { b };
        assert(out[b] == m[ib]);
        if a == 0 {
            if ib < i {
                assert(m[ib].key != m[i].key);
            } else {
                assert(m[i].key != m[ib].key);
            }
        } else {
            let ia = if a - 1 < i { a - 1 } else { a };
            assert(out[a] == m[ia]);
            assert(m[ia].key != m[ib].key);
        }
    }
}

/// Putting an entry with a key that `m` lacks in front of `m`, or in front of
/// `m` without its last entry, keeps the keys distinct.
proof fn lemma_new_front_keeps_distinct(m: Seq<CachedWord>, fresh: CachedWord)
    requires
        distinct_keys(m),
        !holds(m, fresh.key),
    ensures
        distinct_keys(seq![fresh] + m),
        m.len() > 0 ==> distinct_keys(seq![fresh] + m.drop_last()),
{
    let out = seq![fresh] + m;
    assert forall|a: int, b: int| 0 <= a < b < out.len() implies (#[trigger] out[a]).key != (
    #[trigger] out[b]).key by {
        assert(out[b] == m[b - 1]);
        if a > 0 {
            assert(out[a] == m[a - 1]);
            assert(m[a - 1].key != m[b - 1].key);
        }
    }
    if m.len() > 0 {
        let short = seq![fresh] + m.drop_last();
        assert forall|a: int, b: int| 0 <= a < b < short.len() implies (#[trigger] short[a]).key != (
        #[trigger] short[b]).key by {
            assert(short[b] == m[b - 1]);
            if a > 0 {
                assert(short[a] == m[a - 1]);
                assert(m[a - 1].key != m[b - 1].key);
            }
        }
    }
}

/// The entries after each item of `items` was stored in turn, the first item
/// first.
pub open spec fn stored_all(m: Seq<CachedWord>, capacity: nat, items: Seq<CachedWord>) -> Seq<
    CachedWord,
>
    decreases items.len(),
{
    if items.len() == 0 {
        m
    } else {
        stored(
            stored_all(m, capacity, items.drop_last()),
            capacity,
            items.last().key,
            items.last().definition,
        )
    }
}

/// Storing a key that a full cache lacks evicts the least recently used
/// entry and no other: the size stays, the key at the back is gone, the new
/// key is there, and every other key stays.
pub proof fn lemma_full_cache_evicts_least_recent(
    m: Seq<CachedWord>,
    capacity: nat,
    key: Seq<char>,
    definition: DefinitionView,
)
    requires
        distinct_keys(m),
        m.len() == limit(capacity),
        !holds(m, key),
    ensures
        ({
            let after = stored(m, capacity, key, definition);
            &&& distinct_keys(after)
            &&& after.len() == m.len()
            &&& !holds(after, m.last().key)
            &&& holds(after, key)
            &&& forall|k: Seq<char>| holds(m, k) && k != m.last().key ==> holds(after, k)
            &&& forall|k: Seq<char>| holds(after, k) ==> k == key || holds(m, k)
        }),
{
    let fresh = CachedWord { key, definition };
    let after = stored(m, capacity, key, definition);
    assert(after =~= seq![fresh] + m.drop_last());
    lemma_new_front_keeps_distinct(m, fresh);
    assert(after[0].key == key);
    let last = m.len() - 1;
    assert(m[last].key == m.last().key);
    if holds(after, m.last().key) {
        let i = rank_of(after, m.last().key);
        assert(i > 0);
        assert(after[i] == m[i - 1]);
        assert(m[i - 1].key != m[last].key);
    }
    assert forall|k: Seq<char>| holds(m, k) && k != m.last().key implies holds(after, k) by {
        let i = rank_of(m, k);
        assert(after[i + 1] == m[i]);
    }
    assert forall|k: Seq<char>| holds(after, k) implies k == key || holds(m, k) by {
        let i = rank_of(after, k);
        if i > 0 {
            assert(after[i] == m[i - 1]);
        }
    }
}

/// Storing distinct keys in an empty cache that has room for all of them
/// leaves them in reverse order, the last one stored at the front.
proof fn lemma_fill_reverses(capacity: nat, items: Seq<CachedWord>)
    requires
        distinct_keys(items),
        items.len() <= limit(capacity),
    ensures
        stored_all(Seq::empty(), capacity, items) =~= items.reverse(),
    decreases items.len(),
{
    if items.len() > 0 {
        let head = items.drop_last();
        lemma_fill_reverses(capacity, head);
        let m = stored_all(Seq::empty(), capacity, head);
        assert(m =~= head.reverse());
        let key = items.last().key;
        if holds(m, key) {
            let i = rank_of(m, key);
            assert(m[i] == items[head.len() - 1 - i]);
            assert(items[head.len() - 1 - i].key != items[items.len() - 1].key);
        }
        assert(items.last() == CachedWord { key, definition: items.last().definition });
        assert(stored(m, capacity, key, items.last().definition) =~= seq![items.last()] + m);
        assert(seq![items.last()] + head.reverse() =~= items.reverse());
    }
}

/// In an empty cache of capacity `capacity`, storing one more distinct key
/// than the capacity evicts exactly the key stored first: that key is gone,
/// every other one is there, and the cache is full.
pub proof fn lemma_overfill_evicts_first_stored(capacity: nat, items: Seq<CachedWord>)
    requires
        capacity >= 1,
        items.len() == capacity + 1,
        distinct_keys(items),
    ensures
        ({
            let after = stored_all(Seq::empty(), capacity, items);
            &&& after.len() == capacity
            &&& !holds(after, items[0].key)
            &&& forall|i: int| 1 <= i < items.len() ==> holds(after, (#[trigger] items[i]).key)
        }),
{
    let head = items.drop_last();
    lemma_fill_reverses(capacity, head);
    let m = stored_all(Seq::empty(), capacity, head);
    assert(m =~= head.reverse());
    let key = items.last().key;
    let last = items.len() - 1;
    assert forall|a: int, b: int| 0 <= a < b < m.len() implies (#[trigger] m[a]).key != (
    #[trigger] m[b]).key by {
        assert(items[head.len() - 1 - b].key != items[head.len() - 1 - a].key);
    }
    if holds(m, key) {
        let i = rank_of(m, key);
        assert(items[head.len() - 1 - i].key != items[last].key);
    }
    lemma_full_cache_evicts_least_recent(m, capacity, key, items.last().definition);
    let after = stored_all(Seq::empty(), capacity, items);
    assert(m.last() == items[0]);
    assert forall|i: int| 1 <= i < items.len() implies holds(after, (#[trigger] items[i]).key) by {
        if i < last {
            assert(m[head.len() - 1 - i] == items[i]);
            assert(holds(m, items[i].key));
            assert(items[0].key != items[i].key);
        }
    }
}

/// A key that was just looked up survives the next eviction: in a cache with
/// at least two entries, storing a new key after a hit on `looked_up` leaves
/// `looked_up` in the cache.
pub proof fn lemma_lookup_protects_from_eviction(
    m: Seq<CachedWord>,
    capacity: nat,
    looked_up: Seq<char>,
    key: Seq<char>,
    definition: DefinitionView,
)
    requires
        distinct_keys(m),
        m.len() >= 2,
        holds(m, looked_up),
        !holds(m, key),
    ensures
        holds(stored(touched(m, looked_up), capacity, key, definition), looked_up),
        m.len() >= capacity ==> !holds(
            stored(touched(m, looked_up), capacity, key, definition),
            touched(m, looked_up).last().key,
        ),
{
    let i = rank_of(m, looked_up);
    let t = touched(m, looked_up);
    lemma_front_keeps_distinct(m, i, m[i]);
    assert(t[0].key == looked_up);
    if holds(t, key) {
        let j = rank_of(t, key);
        if j > 0 {
            let mj = if j - 1 < i { j - 1 } else { j };
            assert(t[j] == m[mj]);
        }
    }
    let fresh = CachedWord { key, definition };
    let after = stored(t, capacity, key, definition);
    assert(after[1] == t[0]);
    if m.len() >= capacity {
        assert(after =~= seq![fresh] + t.drop_last());
        let last = t.len() - 1;
        if holds(after, t.last().key) {
            let j = rank_of(after, t.last().key);
            if j > 0 {
                assert(after[j] == t[j - 1]);
                assert(t[j - 1].key != t[last].key);
            } else {
                assert(t[last] == m[if last - 1 < i { last - 1 } else { last }]);
            }
        }
    }
}

/// Taking the entry at `i` out and putting an entry with the same key at the
/// front leaves the set of keys as it was.
proof fn lemma_front_keeps_keys(m: Seq<CachedWord>, i: int, fresh: CachedWord)
    requires
        0 <= i < m.len(),
        fresh.key == m[i].key,
    ensures
        forall|k: Seq<char>| holds(seq![fresh] + m.remove(i), k) <==> holds(m, k),
{
    let out = seq![fresh] + m.remove(i);
    assert forall|k: Seq<char>| holds(out, k) implies holds(m, k) by {
        let j = choose|j: int| 0 <= j < out.len() && (#[trigger] out[j]).key == k;
        if j == 0 {
            assert(m[i].key == k);
        } else {
            let mj = if j - 1 < i { j - 1 } else { j };
            assert(out[j] == m[mj]);
            assert(m[mj].key == k);
        }
    }
    assert forall|k: Seq<char>| holds(m, k) implies holds(out, k) by {
        let j = choose|j: int| 0 <= j < m.len() && (#[trigger] m[j]).key == k;
        if j == i {
            assert(out[0].key == k);
        } else if j < i {
            assert(out[j + 1] == m[j]);
            assert(out[j + 1].key == k);
        } else {
            assert(out[j] == m[j]);
            assert(out[j].key == k);
        }
    }
}

/// Storing a key that the cache already holds replaces its value, leaves the
/// size and the set of keys unchanged, and makes the key the most recently
/// used one.
pub proof fn lemma_restoring_replaces_and_refreshes(
    m: Seq<CachedWord>,
    capacity: nat,
    key: Seq<char>,
    definition: DefinitionView,
)
    requires
        distinct_keys(m),
        holds(m, key),
    ensures
        ({
            let after = stored(m, capacity, key, definition);
            &&& distinct_keys(after)
            &&& after.len() == m.len()
            &&& after[0] == (CachedWord { key, definition })
            &&& rank_of(after, key) == 0
            &&& after.subrange(1, after.len() as int) == m.remove(rank_of(m, key))
            &&& forall|k: Seq<char>| holds(after, k) <==> holds(m, k)
        }),
{
    let i = rank_of(m, key);
    let fresh = CachedWord { key, definition };
    let after = stored(m, capacity, key, definition);
    assert(after == seq![fresh] + m.remove(i));
    lemma_front_keeps_distinct(m, i, fresh);
    lemma_rank_is(after, key, 0);
    assert(after.subrange(1, after.len() as int) =~= m.remove(i));
    lemma_front_keeps_keys(m, i, fresh);
}

} // verus!

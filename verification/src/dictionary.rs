//! The lookup service: the cache first, the origin on a miss, and every
//! definition fetched is written to the cache before it is handed out.
//!
//! The service owns the cache, the origin client's decisions and the latency
//! tracker. A lookup has two halves around the fetch, which the caller
//! performs: `start_lookup` answers from the cache or names the address to
//! ask, and `complete_lookup` takes what the fetch ended with.

use crate::api_client::as_definition;
use crate::api_client::DictionaryApiClient;
use crate::api_client::SearchResult;
use crate::api_client::WordDefinition;
use crate::cache::holds;
use crate::cache::rank_of;
use crate::cache::stored;
use crate::cache::touched;
use crate::cache::CacheStats;
use crate::cache::CachedWord;
use crate::cache::Definition;
use crate::cache::DefinitionView;
use crate::cache::DictionaryCache;
use crate::cache::capped;
use crate::cache::estimated_memory;
use crate::error::DictionaryError;
use crate::error::ErrorView;
use crate::performance::sample_from;
use crate::performance::stats_of;
use crate::performance::window_push;
use crate::performance::PerformanceMetrics;
use crate::performance::PerformanceStats;
use crate::performance::PerformanceTracker;
use crate::text::all_whitespace;
use crate::text::texts_of;
use vstd::prelude::*;

verus! {

/// How a lookup begins.
#[derive(Debug)]
pub enum LookupStart {
    /// The cache had the word: the lookup is over.
    Hit(Definition),
    /// The word is not one to ask the origin for: the lookup is over.
    Rejected(DictionaryError),
    /// The origin must be asked at this address.
    Fetch { url: String },
}

/// The cache, the origin client and the latency tracker of one process.
pub struct DictionaryService {
    cache: DictionaryCache,
    api_client: DictionaryApiClient,
    tracker: PerformanceTracker,
}

/// The marks after the marks `names` were set anew: those names are there,
/// and every other mark is as it was.
pub open spec fn remarked(
    before: Map<Seq<char>, u64>,
    after: Map<Seq<char>, u64>,
    names: Set<Seq<char>>,
) -> bool {
    &&& after.dom() == before.dom().union(names)
    &&& forall|name: Seq<char>|
        before.dom().contains(name) && !names.contains(name) ==> #[trigger] after[name]
            == before[name]
}

/// The window after a measurement that gave `sample`, or gave nothing.
pub open spec fn recorded(
    window: Seq<PerformanceMetrics>,
    sample: Option<PerformanceMetrics>,
) -> Seq<PerformanceMetrics> {
    match sample {
        Some(s) => window_push(window, s),
        None => window,
    }
}

/// The words of a list of candidates, in their order.
pub open spec fn words_of(results: Seq<SearchResult>) -> Seq<Seq<char>> {
    Seq::new(results.len(), |i: int| results[i].word@)
}

/// The definition handed out for `word` after the origin sent `api`.
pub open spec fn stamped(word: Seq<char>, api: WordDefinition) -> DefinitionView {
    DefinitionView {
        word,
        pronunciation: as_definition(api).pronunciation,
        pos: as_definition(api).pos,
        definitions: as_definition(api).definitions,
        frequency: as_definition(api).frequency,
    }
}

impl DictionaryService {
    /// The entries of the cache, most recently used first.
    pub closed spec fn cached(&self) -> Seq<CachedWord> {
        self.cache.model()
    }

    /// The capacity of the cache.
    pub closed spec fn capacity(&self) -> nat {
        self.cache.capacity()
    }

    /// The origin client.
    pub closed spec fn client(&self) -> DictionaryApiClient {
        self.api_client
    }

    /// The marks of the latency tracker.
    pub closed spec fn marks(&self) -> Map<Seq<char>, u64> {
        self.tracker.marks()
    }

    /// The samples of the latency tracker, oldest first.
    pub closed spec fn samples(&self) -> Seq<PerformanceMetrics> {
        self.tracker.samples()
    }

    /// The service's invariant: those of its cache and of its tracker.
    pub closed spec fn wf(&self) -> bool {
        self.cache.wf() && self.tracker.wf()
    }

    /// A service over `cache` that asks the origin at `api_base_url`.
    pub fn new(cache: DictionaryCache, api_base_url: String) -> (service: DictionaryService)
        requires
            cache.wf(),
        ensures
            service.wf(),
            service.cached() == cache.model(),
            service.capacity() == cache.capacity(),
            service.client().base_url() == api_base_url@,
            service.marks() == Map::<Seq<char>, u64>::empty(),
            service.samples() == Seq::<PerformanceMetrics>::empty(),
    {
        DictionaryService {
            cache,
            api_client: DictionaryApiClient::new(api_base_url),
            tracker: PerformanceTracker::new(),
        }
    }

    /// The origin client, for the decisions during a fetch.
    pub fn api_client(&self) -> (client: &DictionaryApiClient)
        ensures
            *client == self.client(),
    {
        &self.api_client
    }

    /// Records the present time under `name`, for the marks that are set
    /// before a lookup begins.
    pub fn mark(&mut self, name: &str)
        requires
            old(self).wf(),
        ensures
            final(self).wf(),
            final(self).cached() == old(self).cached(),
            final(self).capacity() == old(self).capacity(),
            final(self).client() == old(self).client(),
            final(self).marks().dom().contains(name@),
            final(self).marks() == old(self).marks().insert(name@, final(self).marks()[name@]),
            final(self).samples() == old(self).samples(),
    {
        self.tracker.mark(name);
    }

    /// Begins the lookup of `word`. A word in the cache is answered at once:
    /// its entry becomes the most recently used one and a hit is recorded.
    /// Otherwise a blank word is rejected as invalid input, and for any
    /// other word the address to ask the origin at is returned. Nothing is
    /// ever sent from here.
    pub fn start_lookup(&mut self, word: &str) -> (start: LookupStart)
        requires
            old(self).wf(),
        ensures
            final(self).wf(),
            final(self).capacity() == old(self).capacity(),
            final(self).client() == old(self).client(),
            final(self).cached() == touched(old(self).cached(), word@),
            holds(old(self).cached(), word@) ==> {
                &&& start matches LookupStart::Hit(d) && d@ == old(self).cached()[rank_of(
                    old(self).cached(),
                    word@,
                )].definition
                &&& remarked(
                    old(self).marks(),
                    final(self).marks(),
                    set!["cache_lookup_start"@, "cache_lookup_end"@, "backend_complete"@],
                )
                &&& final(self).samples() == recorded(
                    old(self).samples(),
                    sample_from(final(self).marks(), true, None),
                )
            },
            !holds(old(self).cached(), word@) ==> {
                &&& remarked(
                    old(self).marks(),
                    final(self).marks(),
                    set!["cache_lookup_start"@, "cache_lookup_end"@],
                )
                &&& final(self).samples() == old(self).samples()
                &&& all_whitespace(word@) ==> (start matches LookupStart::Rejected(e) && e@ == (
                ErrorView::InvalidInput { message: "Word cannot be empty"@ }))
                &&& !all_whitespace(word@) ==> (start matches LookupStart::Fetch { url } && url@
                    == old(self).client().definition_address(word@))
            },
    {
        let ghost m0 = self.marks();
        self.tracker.mark("cache_lookup_start");
        let ghost m1 = self.marks();
        let found = self.cache.get(word);
        self.tracker.mark("cache_lookup_end");
        let ghost m2 = self.marks();
        match found {
            Some(definition) => {
                self.tracker.mark("backend_complete");
                let ghost m3 = self.marks();
                let _ = self.tracker.measure_backend(true, None);
                proof {
                    let names = set!["cache_lookup_start"@, "cache_lookup_end"@, "backend_complete"@];
                    assert(m3.dom() =~= m0.dom().union(names));
                }
                LookupStart::Hit(definition)
            },
            None => {
                proof {
                    let names = set!["cache_lookup_start"@, "cache_lookup_end"@];
                    assert(m2.dom() =~= m0.dom().union(names));
                }
                match self.api_client.begin_definition(word) {
                    Ok(url) => LookupStart::Fetch { url },
                    Err(e) => LookupStart::Rejected(e),
                }
            },
        }
    }

    /// Ends the lookup of `word` with what the fetch ended with, after
    /// `api_time` nanoseconds. A definition is given the word that was
    /// asked for, written to the cache, recorded as a miss and returned. No
    /// definition means that the word is unknown. A failure is handed on as
    /// it is.
    pub fn complete_lookup(
        &mut self,
        word: &str,
        fetched: Result<Option<WordDefinition>, DictionaryError>,
        api_time: u64,
    ) -> (outcome: Result<Definition, DictionaryError>)
        requires
            old(self).wf(),
        ensures
            final(self).wf(),
            final(self).capacity() == old(self).capacity(),
            final(self).client() == old(self).client(),
            match fetched {
                Ok(Some(api)) => {
                    &&& outcome matches Ok(d) && d@ == stamped(word@, api)
                    &&& final(self).cached() == stored(
                        old(self).cached(),
                        old(self).capacity(),
                        word@,
                        stamped(word@, api),
                    )
                    &&& remarked(old(self).marks(), final(self).marks(), set!["backend_complete"@])
                    &&& final(self).samples() == recorded(
                        old(self).samples(),
                        sample_from(final(self).marks(), false, Some(api_time)),
                    )
                },
                Ok(None) => {
                    &&& outcome matches Err(e) && e@ == (ErrorView::WordNotFound { word: word@ })
                    &&& final(self).cached() == old(self).cached()
                    &&& final(self).marks() == old(self).marks()
                    &&& final(self).samples() == old(self).samples()
                },
                Err(e) => {
                    &&& outcome == Err::<Definition, DictionaryError>(e)
                    &&& final(self).cached() == old(self).cached()
                    &&& final(self).marks() == old(self).marks()
                    &&& final(self).samples() == old(self).samples()
                },
            },
    {
        match fetched {
            Ok(Some(api_def)) => {
                let mut definition = api_def.into_definition();
                definition.word = word.to_owned();
                self.cache.insert(word.to_owned(), definition.clone());
                let ghost m0 = self.marks();
                self.tracker.mark("backend_complete");
                let _ = self.tracker.measure_backend(false, Some(api_time));
                proof {
                    assert(self.marks().dom() =~= m0.dom().union(set!["backend_complete"@]));
                }
                Ok(definition)
            },
            Ok(None) => Err(DictionaryError::WordNotFound { word: word.to_owned() }),
            Err(e) => Err(e),
        }
    }

    /// The words of a search that ended with `outcome`. A search that failed
    /// has no words: it never fails a caller.
    pub fn search_words(&self, outcome: Result<Vec<SearchResult>, DictionaryError>) -> (words: Result<
        Vec<String>,
        DictionaryError,
    >)
        ensures
            words.is_ok(),
            texts_of(words.unwrap()@) == (match outcome {
                Ok(results) => words_of(results@),
                Err(_) => Seq::empty(),
            }),
    {
        let mut words: Vec<String> = Vec::new();
        match outcome {
            Ok(results) => {
                let mut i: usize = 0;
                while i < results.len()
                    invariant
                        i <= results.len(),
                        words@.len() == i,
                        forall|j: int| 0 <= j < i ==> (#[trigger] words@[j])@ == results@[j].word@,
                    decreases results.len() - i,
                {
                    words.push(results[i].word.clone());
                    i += 1;
                }
                assert(texts_of(words@) =~= words_of(results@));
            },
            Err(_) => {
                assert(texts_of(words@) =~= Seq::<Seq<char>>::empty());
            },
        }
        Ok(words)
    }

    /// Whether the cache holds `word`. The recency order does not change.
    pub fn is_cached(&self, word: &str) -> (present: bool)
        ensures
            present == holds(self.cached(), word@),
    {
        self.cache.contains(word)
    }

    /// The size, the capacity and the estimated memory use of the cache.
    pub fn cache_stats(&self) -> (stats: CacheStats)
        ensures
            stats.size == self.cached().len(),
            stats.capacity == self.capacity(),
            stats.memory_usage_estimate == capped(estimated_memory(self.cached())),
    {
        self.cache.get_stats()
    }

    /// The latency statistics of the lookups so far.
    pub fn get_performance_stats(&self) -> (stats: PerformanceStats)
        ensures
            stats == stats_of(self.samples()),
    {
        self.tracker.get_stats()
    }

    /// Forgets every mark and every latency sample.
    pub fn reset_performance_stats(&mut self)
        requires
            old(self).wf(),
        ensures
            final(self).wf(),
            final(self).cached() == old(self).cached(),
            final(self).capacity() == old(self).capacity(),
            final(self).client() == old(self).client(),
            final(self).marks() == Map::<Seq<char>, u64>::empty(),
            final(self).samples() == Seq::<PerformanceMetrics>::empty(),
    {
        self.tracker.reset();
    }
}

} // verus!

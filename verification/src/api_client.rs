//! The decisions of the origin client: which address to ask, how to read an
//! answer, and whether to try again after a failure.
//!
//! The client sends nothing itself. A caller sends the request that a step
//! names, with a timeout of `REQUEST_TIMEOUT_MS` per attempt, and reports
//! what came back; the client says what to do next. Every failed attempt is
//! retried until the budget is spent, whatever the kind of the failure; the
//! failure of the last attempt is the one reported.

use crate::cache::Definition;
use crate::cache::DefinitionView;
use crate::error::DictionaryError;
use crate::error::ErrorView;
use crate::text::decimal;
use crate::text::decimal_string;
use crate::text::has_substring;
use crate::text::is_blank;
use crate::text::all_whitespace;
use crate::text::joined;
use crate::text::occurs_in;
use crate::text::parse_u64;
use crate::text::parsed_u64;
use crate::text::texts_of;
use vstd::prelude::*;

verus! {

/// The time allowed for one attempt, in milliseconds.
pub const REQUEST_TIMEOUT_MS: u64 = 100;

/// The pause before another attempt, in milliseconds.
pub const RETRY_DELAY_MS: u64 = 50;

/// The number of attempts allowed after the first.
pub const MAX_RETRIES: u32 = 2;

/// A definition as the origin sends it.
#[derive(Debug)]
pub struct WordDefinition {
    pub rank: u32,
    pub pos: String,
    pub frequency: u64,
    pub definitions: Vec<String>,
    pub pronunciation: Option<String>,
    pub examples: Option<Vec<String>>,
}

/// The envelope of every answer of the origin.
#[derive(Debug)]
pub struct ApiResponse<T> {
    pub success: bool,
    pub data: Option<T>,
    pub error: Option<String>,
    pub timestamp: u64,
}

/// One candidate of a search.
#[derive(Debug)]
pub struct SearchResult {
    pub word: String,
    pub rank: u32,
    pub pos: String,
    pub frequency: u64,
}

/// What to do after an attempt to fetch a definition.
#[derive(Debug)]
pub enum DefinitionStep {
    /// The fetch has ended with this result.
    Done(Result<Option<WordDefinition>, DictionaryError>),
    /// Wait, then send the request again as attempt `next_attempt`.
    Retry { delay_ms: u64, next_attempt: u32 },
}

/// What to do after an attempt to search.
#[derive(Debug)]
pub enum SearchStep {
    /// The search has ended with these candidates.
    Done(Vec<SearchResult>),
    /// Wait, then send the request again as attempt `next_attempt`.
    Retry { delay_ms: u64, next_attempt: u32 },
    /// The search has ended without candidates; the failure is only to be
    /// reported.
    GaveUp(DictionaryError),
}

/// The origin's address and the retry budget.
pub struct DictionaryApiClient {
    base_url: String,
    max_retries: u32,
}

/// Whether a byte stands for itself in a percent-encoded text: the ASCII
/// letters and digits, `-`, `.`, `_` and `~`.
pub open spec fn is_unreserved(b: u8) -> bool {
    ||| 48 <= b <= 57
    ||| 65 <= b <= 90
    ||| 97 <= b <= 122
    ||| b == 45
    ||| b == 46
    ||| b == 95
    ||| b == 126
}

/// The hexadecimal digit for a value below 16, in upper case.
pub open spec fn hex_digit(d: u8) -> char {
    if d < 10 {
        ((48 + d) as u8) as char
    } else {
        ((55 + d) as u8) as char
    }
}

/// One byte, percent-encoded: itself if it is unreserved, else a percent
/// sign and its two hexadecimal digits.
pub open spec fn escaped(b: u8) -> Seq<char> {
    if is_unreserved(b) {
        seq![b as char]
    } else {
        seq!['%', hex_digit(b / 16), hex_digit(b % 16)]
    }
}

/// The bytes, each percent-encoded, in their order.
pub open spec fn escaped_all(bytes: Seq<u8>) -> Seq<char>
    decreases bytes.len(),
{
    if bytes.len() == 0 {
        Seq::empty()
    } else {
        escaped_all(bytes.drop_last()) + escaped(bytes.last())
    }
}

/// `text` percent-encoded: each byte of its UTF-8 form, escaped.
pub open spec fn percent_encoded(text: Seq<char>) -> Seq<char> {
    escaped_all(vstd::utf8::encode_utf8(text))
}

/// Percent-encodes a query.
///
/// Trusted: this is `urlencoding::encode`, which goes through the bytes of
/// its argument, copies the ASCII letters and digits and `-`, `.`, `_`, `~`,
/// and writes every other byte as `%` and two upper-case hexadecimal digits.
#[verifier::external_body]
fn percent_encode(query: &str) -> (encoded: String)
    ensures
        encoded@ == percent_encoded(query@),
{
    urlencoding::encode(query).into_owned()
}

/// The text that stands in for the senses of a definition that has none: the
/// part of speech, then rank and frequency in brackets.
pub open spec fn summary_text(pos: Seq<char>, rank: u32, frequency: u64) -> Seq<char> {
    pos + " (rank: "@ + decimal(rank as nat) + ", frequency: "@ + decimal(frequency as nat) + ")"@
}

/// The definition that the cache keeps for an answer of the origin. The word
/// is left empty for the caller to fill in. An answer without senses gets
/// one made of its summary. The frequency is cut to 32 bits.
pub open spec fn as_definition(api: WordDefinition) -> DefinitionView {
    DefinitionView {
        word: Seq::empty(),
        pronunciation: match api.pronunciation {
            Some(p) => Some(p@),
            None => None,
        },
        pos: api.pos@,
        definitions: if api.definitions@.len() == 0 {
            seq![summary_text(api.pos@, api.rank, api.frequency)]
        } else {
            texts_of(api.definitions@)
        },
        frequency: Some((api.frequency % 0x1_0000_0000) as u32),
    }
}

/// Whether an error text of the origin says that the word is unknown.
pub open spec fn says_not_found(error: Option<String>) -> bool {
    match error {
        Some(text) => occurs_in("not found"@, text@),
        None => false,
    }
}

/// Whether a status code reports a failure on the server's side.
pub open spec fn is_server_error(status: u16) -> bool {
    500 <= status < 600
}

/// The retry hint that a `retry-after` header gives: its value read as a
/// number of seconds, if it is one.
pub open spec fn retry_hint(header: Option<&str>) -> Option<u64> {
    match header {
        Some(text) => parsed_u64(text@),
        None => None,
    }
}

/// How a fetch of a definition ended, as plain values.
pub enum FetchEnd {
    /// The origin answered, with a definition or without one.
    Answered(Option<WordDefinition>),
    /// The fetch failed.
    Failed(ErrorView),
}

/// A `DefinitionStep` as plain values.
pub enum StepView {
    Done(FetchEnd),
    Retry { delay_ms: u64, next_attempt: u32 },
}

impl View for DefinitionStep {
    type V = StepView;

    open spec fn view(&self) -> StepView {
        match self {
            DefinitionStep::Done(Ok(found)) => StepView::Done(FetchEnd::Answered(*found)),
            DefinitionStep::Done(Err(e)) => StepView::Done(FetchEnd::Failed(e@)),
            DefinitionStep::Retry { delay_ms, next_attempt } => StepView::Retry {
                delay_ms: *delay_ms,
                next_attempt: *next_attempt,
            },
        }
    }
}

/// What follows attempt number `attempt` (the first is 0) at the definition
/// of `word`, for a client that retries `max_retries` times. An answer ends
/// the fetch: a successful one with its data, an unsuccessful one whose
/// error text holds `not found` with `WordNotFound`, any other unsuccessful
/// one with no definition. A failure is followed by another attempt after
/// `RETRY_DELAY_MS` while the budget lasts, and ends the fetch with that
/// failure once it is spent.
pub open spec fn next_step(
    max_retries: u32,
    word: Seq<char>,
    attempt: u32,
    outcome: Result<ApiResponse<WordDefinition>, DictionaryError>,
) -> StepView {
    match outcome {
        Ok(response) => if response.success {
            StepView::Done(FetchEnd::Answered(response.data))
        } else if says_not_found(response.error) {
            StepView::Done(FetchEnd::Failed(ErrorView::WordNotFound { word }))
        } else {
            StepView::Done(FetchEnd::Answered(None))
        },
        Err(e) => if attempt < max_retries {
            StepView::Retry { delay_ms: RETRY_DELAY_MS, next_attempt: (attempt + 1) as u32 }
        } else {
            StepView::Done(FetchEnd::Failed(e@))
        },
    }
}

/// A whole fetch: the attempts, beginning with number `attempt`, come out
/// as `outcomes` in turn. The result is how the fetch ends, if the outcomes
/// suffice to end it, and the milliseconds spent waiting between attempts.
pub open spec fn fetch_run(
    max_retries: u32,
    word: Seq<char>,
    attempt: u32,
    outcomes: Seq<Result<ApiResponse<WordDefinition>, DictionaryError>>,
) -> (Option<FetchEnd>, nat)
    decreases outcomes.len(),
{
    if outcomes.len() == 0 {
        (None, 0)
    } else {
        match next_step(max_retries, word, attempt, outcomes[0]) {
            StepView::Done(end) => (Some(end), 0),
            StepView::Retry { delay_ms, next_attempt } => {
                let rest = fetch_run(max_retries, word, next_attempt, outcomes.drop_first());
                (rest.0, rest.1 + delay_ms as nat)
            },
        }
    }
}

impl WordDefinition {
    /// The definition that the cache keeps for this answer.
    pub fn into_definition(self) -> (definition: Definition)
        ensures
            definition@ == as_definition(self),
    {
        let definitions = if self.definitions.len() == 0 {
            let mut summary = joined(self.pos.as_str(), " (rank: ");
            summary.append(decimal_string(self.rank as u64).as_str());
            summary.append(", frequency: ");
            summary.append(decimal_string(self.frequency).as_str());
            summary.append(")");
            let mut only: Vec<String> = Vec::new();
            only.push(summary);
            assert(texts_of(only@) =~= seq![summary_text(self.pos@, self.rank, self.frequency)]);
            only
        } else {
            self.definitions
        };
        Definition {
            word: String::new(),
            definitions,
            pos: self.pos,
            pronunciation: self.pronunciation,
            frequency: Some((self.frequency % 0x1_0000_0000) as u32),
        }
    }
}

/// Checks the status of a response before its body is read. A status from
/// 500 to 599 is reported as an unavailable service, with the retry hint
/// of the `retry-after` header if it holds a number.
pub fn check_status(status: u16, retry_after: Option<&str>) -> (checked: Result<
    (),
    DictionaryError,
>)
    ensures
        is_server_error(status) ==> checked.is_err() && checked.unwrap_err()@ == (
        ErrorView::ServiceUnavailable {
            service: "Dictionary API"@,
            retry_after: retry_hint(retry_after),
        }),
        !is_server_error(status) ==> checked.is_ok(),
{
    if status >= 500 && status < 600 {
        let hint = match retry_after {
            Some(text) => parse_u64(text),
            None => None,
        };
        Err(
            DictionaryError::ServiceUnavailable {
                service: "Dictionary API".to_owned(),
                retry_after: hint,
            },
        )
    } else {
        Ok(())
    }
}

/// The error for a response whose body could not be read as an envelope.
/// `detail` is the reader's complaint.
pub fn unreadable_body(status: u16, detail: &str) -> (error: DictionaryError)
    ensures
        error@ == (ErrorView::ApiError {
            status_code: Some(status),
            message: "Failed to parse API response: "@ + detail@,
        }),
{
    DictionaryError::ApiError {
        status_code: Some(status),
        message: joined("Failed to parse API response: ", detail),
    }
}

impl DictionaryApiClient {
    /// The origin's address.
    pub closed spec fn base_url(&self) -> Seq<char> {
        self.base_url@
    }

    /// The number of attempts allowed after the first.
    pub closed spec fn max_retries(&self) -> u32 {
        self.max_retries
    }

    /// The address that answers for `word`.
    pub open spec fn definition_address(&self, word: Seq<char>) -> Seq<char> {
        self.base_url() + "/api/v1/define/"@ + word
    }

    /// The address that answers a search for `query`.
    pub open spec fn search_address(&self, query: Seq<char>) -> Seq<char> {
        self.base_url() + "/api/v1/search?q="@ + percent_encoded(query)
    }

    /// A client of the origin at `base_url` that retries twice.
    pub fn new(base_url: String) -> (client: DictionaryApiClient)
        ensures
            client.base_url() == base_url@,
            client.max_retries() == MAX_RETRIES,
    {
        DictionaryApiClient { base_url, max_retries: MAX_RETRIES }
    }

    /// The number of attempts allowed after the first.
    pub fn retry_budget(&self) -> (retries: u32)
        ensures
            retries == self.max_retries(),
    {
        self.max_retries
    }

    /// Begins the fetch of a definition: a blank word is rejected before
    /// anything is sent; for any other word the address to ask is returned.
    pub fn begin_definition(&self, word: &str) -> (begun: Result<String, DictionaryError>)
        ensures
            all_whitespace(word@) ==> begun.is_err() && begun.unwrap_err()@ == (
            ErrorView::InvalidInput { message: "Word cannot be empty"@ }),
            !all_whitespace(word@) ==> begun.is_ok() && begun.unwrap()@
                == self.definition_address(word@),
    {
        if is_blank(word) {
            return Err(DictionaryError::InvalidInput { message: "Word cannot be empty".to_owned() });
        }
        let mut url = joined(self.base_url.as_str(), "/api/v1/define/");
        url.append(word);
        Ok(url)
    }

    /// Decides what follows attempt number `attempt` (the first is 0) at the
    /// definition of `word`, which came out as `outcome`.
    pub fn continue_definition(
        &self,
        word: &str,
        attempt: u32,
        outcome: Result<ApiResponse<WordDefinition>, DictionaryError>,
    ) -> (step: DefinitionStep)
        ensures
            step@ == next_step(self.max_retries(), word@, attempt, outcome),
    {
        match outcome {
            Ok(response) => {
                if response.success {
                    DefinitionStep::Done(Ok(response.data))
                } else {
                    let unknown = match &response.error {
                        Some(text) => has_substring(text.as_str(), "not found"),
                        None => false,
                    };
                    if unknown {
                        DefinitionStep::Done(
                            Err(DictionaryError::WordNotFound { word: word.to_owned() }),
                        )
                    } else {
                        DefinitionStep::Done(Ok(None))
                    }
                }
            },
            Err(e) => {
                if attempt < self.max_retries {
                    DefinitionStep::Retry { delay_ms: RETRY_DELAY_MS, next_attempt: attempt + 1 }
                } else {
                    DefinitionStep::Done(Err(e))
                }
            },
        }
    }

    /// Begins a search: a blank query has no candidates and nothing is sent
    /// for it; for any other query the address to ask is returned.
    pub fn begin_search(&self, query: &str) -> (begun: Option<String>)
        ensures
            all_whitespace(query@) ==> begun.is_none(),
            !all_whitespace(query@) ==> begun.is_some() && begun.unwrap()@ == self.search_address(
                query@,
            ),
    {
        if is_blank(query) {
            return None;
        }
        let mut url = joined(self.base_url.as_str(), "/api/v1/search?q=");
        url.append(percent_encode(query).as_str());
        Some(url)
    }

    /// Decides what follows attempt number `attempt` (the first is 0) at a
    /// search. An answer ends the search: a successful one with its
    /// candidates, none if it carries no data, and an unsuccessful one with
    /// none. A failure is followed by another attempt after `RETRY_DELAY_MS`
    /// while the budget lasts; once it is spent the search ends without
    /// candidates.
    pub fn continue_search(
        &self,
        attempt: u32,
        outcome: Result<ApiResponse<Vec<SearchResult>>, DictionaryError>,
    ) -> (step: SearchStep)
        ensures
            match outcome {
                Ok(response) => match response.data {
                    Some(found) => if response.success {
                        step == SearchStep::Done(found)
                    } else {
                        step matches SearchStep::Done(none) && none@.len() == 0
                    },
                    None => step matches SearchStep::Done(none) && none@.len() == 0,
                },
                Err(e) => if attempt < self.max_retries() {
                    step == (SearchStep::Retry {
                        delay_ms: RETRY_DELAY_MS,
                        next_attempt: (attempt + 1) as u32,
                    })
                } else {
                    step == SearchStep::GaveUp(e)
                },
            },
    {
        match outcome {
            Ok(response) => {
                if response.success {
                    match response.data {
                        Some(found) => SearchStep::Done(found),
                        None => SearchStep::Done(Vec::new()),
                    }
                } else {
                    SearchStep::Done(Vec::new())
                }
            },
            Err(e) => {
                if attempt < self.max_retries {
                    SearchStep::Retry { delay_ms: RETRY_DELAY_MS, next_attempt: attempt + 1 }
                } else {
                    SearchStep::GaveUp(e)
                }
            },
        }
    }
}

/// Failures within the budget do not show: when the first `failures`
/// attempts fail, `failures` being no more than the budget, and the next one
/// is answered successfully, the fetch ends with that answer's data, after
/// one pause of `RETRY_DELAY_MS` per failure.
pub proof fn lemma_fetch_succeeds_after_failures(
    max_retries: u32,
    word: Seq<char>,
    outcomes: Seq<Result<ApiResponse<WordDefinition>, DictionaryError>>,
    failures: nat,
)
    requires
        failures <= max_retries,
        failures < outcomes.len(),
        forall|i: int| 0 <= i < failures ==> (#[trigger] outcomes[i]).is_err(),
        outcomes[failures as int].is_ok(),
        outcomes[failures as int].unwrap().success,
    ensures
        fetch_run(max_retries, word, 0, outcomes) == (
            Some(FetchEnd::Answered(outcomes[failures as int].unwrap().data)),
            (failures * RETRY_DELAY_MS) as nat,
        ),
{
    lemma_fetch_from(max_retries, word, 0, outcomes, failures);
}

/// Once the budget is spent the last failure is reported: when the first
/// attempt and every retry fail, the fetch ends with the failure of the last
/// attempt, after one pause of `RETRY_DELAY_MS` per retry.
pub proof fn lemma_fetch_gives_up_with_last_failure(
    max_retries: u32,
    word: Seq<char>,
    outcomes: Seq<Result<ApiResponse<WordDefinition>, DictionaryError>>,
)
    requires
        max_retries < outcomes.len(),
        forall|i: int| 0 <= i <= max_retries ==> (#[trigger] outcomes[i]).is_err(),
    ensures
        fetch_run(max_retries, word, 0, outcomes) == (
            Some(FetchEnd::Failed(outcomes[max_retries as int].unwrap_err()@)),
            (max_retries * RETRY_DELAY_MS) as nat,
        ),
{
    lemma_fetch_from(max_retries, word, 0, outcomes, max_retries as nat);
}

/// A fetch that goes on from attempt `attempt` through `failures` failures:
/// it ends with what the next outcome gives at attempt `attempt + failures`,
/// after one pause per failure.
proof fn lemma_fetch_from(
    max_retries: u32,
    word: Seq<char>,
    attempt: u32,
    outcomes: Seq<Result<ApiResponse<WordDefinition>, DictionaryError>>,
    failures: nat,
)
    requires
        attempt + failures <= max_retries,
        failures < outcomes.len(),
        forall|i: int| 0 <= i < failures ==> (#[trigger] outcomes[i]).is_err(),
        outcomes[failures as int].is_ok() || attempt + failures == max_retries,
    ensures
        next_step(max_retries, word, (attempt + failures) as u32, outcomes[failures as int])
            matches StepView::Done(end) && fetch_run(max_retries, word, attempt, outcomes) == (
            Some(end),
            (failures * RETRY_DELAY_MS) as nat,
        ),
    decreases failures,
{
    if failures > 0 {
        let rest = outcomes.drop_first();
        assert(outcomes[0].is_err());
        assert forall|i: int| 0 <= i < failures - 1 implies (#[trigger] rest[i]).is_err() by {
            assert(rest[i] == outcomes[i + 1]);
        }
        assert(rest[failures - 1] == outcomes[failures as int]);
        lemma_fetch_from(max_retries, word, (attempt + 1) as u32, rest, (failures - 1) as nat);
        assert(failures * RETRY_DELAY_MS == (failures - 1) * RETRY_DELAY_MS + RETRY_DELAY_MS)
            by (nonlinear_arith);
    }
}

} // verus!

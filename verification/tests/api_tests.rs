use lightning_dictionary::api_client::{
    check_status, unreadable_body, ApiResponse, DefinitionStep, DictionaryApiClient, SearchResult,
    SearchStep, WordDefinition, MAX_RETRIES, REQUEST_TIMEOUT_MS, RETRY_DELAY_MS,
};
use lightning_dictionary::error::DictionaryError;

fn client() -> DictionaryApiClient {
    DictionaryApiClient::new("http://x".to_string())
}

fn greeting() -> WordDefinition {
    WordDefinition {
        rank: 10,
        pos: "noun".to_string(),
        frequency: 500,
        definitions: vec!["a greeting".to_string()],
        pronunciation: Some("/heh-LOH/".to_string()),
        examples: None,
    }
}

fn envelope<T>(success: bool, data: Option<T>, error: Option<&str>) -> ApiResponse<T> {
    ApiResponse { success, data, error: error.map(|e| e.to_string()), timestamp: 1 }
}

fn timeout() -> DictionaryError {
    DictionaryError::NetworkError { message: "Request timed out".to_string(), is_timeout: true }
}

#[test]
fn budget_and_delays_are_fixed() {
    assert_eq!(REQUEST_TIMEOUT_MS, 100);
    assert_eq!(RETRY_DELAY_MS, 50);
    assert_eq!(MAX_RETRIES, 2);
    assert_eq!(client().retry_budget(), 2);
}

#[test]
fn blank_word_is_rejected_before_any_request() {
    for word in ["", " ", "   ", "\t\n ", "\u{a0}\u{2003}"] {
        match client().begin_definition(word) {
            Err(DictionaryError::InvalidInput { message }) => {
                assert_eq!(message, "Word cannot be empty")
            }
            other => panic!("unexpected {:?}", other),
        }
    }
}

#[test]
fn definition_address_is_base_and_word() {
    assert_eq!(client().begin_definition("hello").unwrap(), "http://x/api/v1/define/hello");
    assert_eq!(client().begin_definition(" hi ").unwrap(), "http://x/api/v1/define/ hi ");
    assert_eq!(client().begin_definition("a b").unwrap(), "http://x/api/v1/define/a b");
}

#[test]
fn search_address_is_percent_encoded() {
    assert_eq!(client().begin_search("hello").unwrap(), "http://x/api/v1/search?q=hello");
    assert_eq!(
        client().begin_search("hello world&x=1").unwrap(),
        "http://x/api/v1/search?q=hello%20world%26x%3D1"
    );
    assert_eq!(client().begin_search("é").unwrap(), "http://x/api/v1/search?q=%C3%A9");
    assert_eq!(client().begin_search("a-b_c.d~e").unwrap(), "http://x/api/v1/search?q=a-b_c.d~e");
    assert_eq!(
        client().begin_search("AZaz09 /+%\u{7f}").unwrap(),
        "http://x/api/v1/search?q=AZaz09%20%2F%2B%25%7F"
    );
    assert_eq!(
        client().begin_search("\u{ab}\u{20ac}").unwrap(),
        "http://x/api/v1/search?q=%C2%AB%E2%82%AC"
    );
}

#[test]
fn blank_query_asks_nothing() {
    assert!(client().begin_search("").is_none());
    assert!(client().begin_search("  \n").is_none());
}

#[test]
fn successful_answer_ends_the_fetch() {
    match client().continue_definition("hello", 0, Ok(envelope(true, Some(greeting()), None))) {
        DefinitionStep::Done(Ok(Some(d))) => {
            assert_eq!(d.rank, 10);
            assert_eq!(d.pos, "noun");
            assert_eq!(d.frequency, 500);
            assert_eq!(d.definitions, vec!["a greeting".to_string()]);
            assert_eq!(d.pronunciation, Some("/heh-LOH/".to_string()));
        }
        other => panic!("unexpected {:?}", other),
    }
    match client().continue_definition("hello", 1, Ok(envelope(true, None, None))) {
        DefinitionStep::Done(Ok(None)) => {}
        other => panic!("unexpected {:?}", other),
    }
}

#[test]
fn not_found_answer_names_the_word() {
    let answer = envelope::<WordDefinition>(false, None, Some("Word not found in index"));
    match client().continue_definition("zyx", 0, Ok(answer)) {
        DefinitionStep::Done(Err(DictionaryError::WordNotFound { word })) => assert_eq!(word, "zyx"),
        other => panic!("unexpected {:?}", other),
    }
}

#[test]
fn other_unsuccessful_answer_is_no_definition() {
    for error in [Some("rate limited"), Some("Not Found"), Some("not foun"), None] {
        let answer = envelope(false, Some(greeting()), error);
        match client().continue_definition("zyx", 0, Ok(answer)) {
            DefinitionStep::Done(Ok(None)) => {}
            other => panic!("unexpected {:?}", other),
        }
    }
}

#[test]
fn two_failures_then_success_within_the_budget() {
    let c = client();
    let mut waited = 0;
    let mut attempt = 0;
    let mut requests = 0;
    let mut outcomes = vec![
        Ok(envelope(true, Some(greeting()), None)),
        Err(timeout()),
        Err(DictionaryError::WordNotFound { word: "odd".to_string() }),
    ];
    let result = loop {
        requests += 1;
        match c.continue_definition("hello", attempt, outcomes.pop().unwrap()) {
            DefinitionStep::Done(result) => break result,
            DefinitionStep::Retry { delay_ms, next_attempt } => {
                assert_eq!(next_attempt, attempt + 1);
                waited += delay_ms;
                attempt = next_attempt;
            }
        }
    };
    assert_eq!(requests, 3);
    assert_eq!(waited, 100);
    assert_eq!(result.unwrap().unwrap().definitions, vec!["a greeting".to_string()]);
}

#[test]
fn three_failures_surface_the_last_error() {
    let c = client();
    let mut attempt = 0;
    let mut waited = 0;
    let mut outcomes: Vec<Result<ApiResponse<WordDefinition>, DictionaryError>> = vec![
        Err(DictionaryError::ServiceUnavailable {
            service: "Dictionary API".to_string(),
            retry_after: Some(7),
        }),
        Err(timeout()),
        Err(DictionaryError::ApiError { status_code: Some(404), message: "first".to_string() }),
    ];
    let result = loop {
        match c.continue_definition("hello", attempt, outcomes.pop().unwrap()) {
            DefinitionStep::Done(result) => break result,
            DefinitionStep::Retry { delay_ms, next_attempt } => {
                waited += delay_ms;
                attempt = next_attempt;
            }
        }
    };
    assert!(outcomes.is_empty());
    assert_eq!(waited, 100);
    match result {
        Err(DictionaryError::ServiceUnavailable { service, retry_after }) => {
            assert_eq!(service, "Dictionary API");
            assert_eq!(retry_after, Some(7));
        }
        other => panic!("unexpected {:?}", other),
    }
}

#[test]
fn failure_past_the_budget_is_final() {
    match client().continue_definition("w", 2, Err(timeout())) {
        DefinitionStep::Done(Err(DictionaryError::NetworkError { is_timeout, .. })) => {
            assert!(is_timeout)
        }
        other => panic!("unexpected {:?}", other),
    }
    match client().continue_definition("w", u32::MAX, Err(timeout())) {
        DefinitionStep::Done(Err(_)) => {}
        other => panic!("unexpected {:?}", other),
    }
    match client().continue_definition("w", 1, Err(timeout())) {
        DefinitionStep::Retry { delay_ms, next_attempt } => {
            assert_eq!(delay_ms, 50);
            assert_eq!(next_attempt, 2);
        }
        other => panic!("unexpected {:?}", other),
    }
}

fn candidate(word: &str) -> SearchResult {
    SearchResult { word: word.to_string(), rank: 1, pos: "noun".to_string(), frequency: 2 }
}

#[test]
fn search_answers_end_the_search() {
    let found = vec![candidate("help"), candidate("hello")];
    match client().continue_search(0, Ok(envelope(true, Some(found), None))) {
        SearchStep::Done(results) => {
            assert_eq!(results.len(), 2);
            assert_eq!(results[0].word, "help");
            assert_eq!(results[1].word, "hello");
        }
        other => panic!("unexpected {:?}", other),
    }
    match client().continue_search(0, Ok(envelope(true, None, None))) {
        SearchStep::Done(results) => assert!(results.is_empty()),
        other => panic!("unexpected {:?}", other),
    }
    match client().continue_search(0, Ok(envelope(false, Some(vec![candidate("x")]), Some("no")))) {
        SearchStep::Done(results) => assert!(results.is_empty()),
        other => panic!("unexpected {:?}", other),
    }
}

#[test]
fn search_gives_up_without_candidates() {
    match client().continue_search(0, Err(timeout())) {
        SearchStep::Retry { delay_ms, next_attempt } => {
            assert_eq!(delay_ms, 50);
            assert_eq!(next_attempt, 1);
        }
        other => panic!("unexpected {:?}", other),
    }
    match client().continue_search(2, Err(timeout())) {
        SearchStep::GaveUp(DictionaryError::NetworkError { is_timeout, .. }) => assert!(is_timeout),
        other => panic!("unexpected {:?}", other),
    }
}

#[test]
fn server_errors_are_an_unavailable_service() {
    assert!(check_status(200, None).is_ok());
    assert!(check_status(404, Some("5")).is_ok());
    assert!(check_status(499, None).is_ok());
    assert!(check_status(600, None).is_ok());
    match check_status(503, Some("120")) {
        Err(DictionaryError::ServiceUnavailable { service, retry_after }) => {
            assert_eq!(service, "Dictionary API");
            assert_eq!(retry_after, Some(120));
        }
        other => panic!("unexpected {:?}", other),
    }
    match check_status(500, Some("Wed, 21 Oct 2015 07:28:00 GMT")) {
        Err(DictionaryError::ServiceUnavailable { retry_after, .. }) => assert_eq!(retry_after, None),
        other => panic!("unexpected {:?}", other),
    }
    match check_status(599, None) {
        Err(DictionaryError::ServiceUnavailable { retry_after, .. }) => assert_eq!(retry_after, None),
        other => panic!("unexpected {:?}", other),
    }
}

#[test]
fn unreadable_body_keeps_the_status() {
    match unreadable_body(200, "expected value at line 1") {
        DictionaryError::ApiError { status_code, message } => {
            assert_eq!(status_code, Some(200));
            assert_eq!(message, "Failed to parse API response: expected value at line 1");
        }
        other => panic!("unexpected {:?}", other),
    }
}

#[test]
fn answer_becomes_a_definition() {
    let d = greeting().into_definition();
    assert_eq!(d.word, "");
    assert_eq!(d.pos, "noun");
    assert_eq!(d.definitions, vec!["a greeting".to_string()]);
    assert_eq!(d.pronunciation, Some("/heh-LOH/".to_string()));
    assert_eq!(d.frequency, Some(500));
}

#[test]
fn answer_without_senses_gets_a_summary() {
    let bare = WordDefinition {
        rank: 42,
        pos: "verb".to_string(),
        frequency: 4_294_967_296 + 5,
        definitions: vec![],
        pronunciation: None,
        examples: Some(vec!["x".to_string()]),
    };
    let d = bare.into_definition();
    assert_eq!(d.definitions, vec!["verb (rank: 42, frequency: 4294967301)".to_string()]);
    assert_eq!(d.frequency, Some(5));
    assert_eq!(d.pronunciation, None);
}

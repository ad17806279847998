use lightning_dictionary::error::{DictionaryError, LogLevel, TransportFailure};

fn network(is_timeout: bool) -> DictionaryError {
    DictionaryError::NetworkError { message: "boom".to_string(), is_timeout }
}

fn api(status_code: Option<u16>) -> DictionaryError {
    DictionaryError::ApiError { status_code, message: "bad".to_string() }
}

#[test]
fn user_messages_per_kind() {
    assert_eq!(network(true).user_message(), "Request timed out. Please check your internet connection.");
    assert_eq!(
        network(false).user_message(),
        "Unable to connect to dictionary service. Please check your internet connection."
    );
    assert_eq!(api(Some(429)).user_message(), "Too many requests. Please wait a moment and try again.");
    assert_eq!(
        api(Some(500)).user_message(),
        "Dictionary service is experiencing issues. Please try again later."
    );
    assert_eq!(
        api(Some(599)).user_message(),
        "Dictionary service is experiencing issues. Please try again later."
    );
    assert_eq!(api(Some(600)).user_message(), "Unable to fetch word definition. Please try again.");
    assert_eq!(api(Some(404)).user_message(), "Unable to fetch word definition. Please try again.");
    assert_eq!(api(None).user_message(), "Unable to fetch word definition. Please try again.");
    assert_eq!(
        DictionaryError::CacheError { message: "x".to_string() }.user_message(),
        "Error accessing local cache. The app may run slower than usual."
    );
    assert_eq!(
        DictionaryError::WordNotFound { word: "zyx".to_string() }.user_message(),
        "'zyx' not found in dictionary"
    );
    assert_eq!(
        DictionaryError::ServiceUnavailable { service: "S".to_string(), retry_after: Some(3) }
            .user_message(),
        "Dictionary service is temporarily unavailable. Please try again later."
    );
    assert_eq!(
        DictionaryError::InvalidInput { message: "m".to_string() }.user_message(),
        "Please enter a valid word to look up."
    );
}

#[test]
fn retry_eligibility_per_kind() {
    assert!(network(true).should_retry());
    assert!(network(false).should_retry());
    assert!(api(Some(500)).should_retry());
    assert!(api(Some(599)).should_retry());
    assert!(!api(Some(499)).should_retry());
    assert!(!api(Some(600)).should_retry());
    assert!(!api(Some(429)).should_retry());
    assert!(!api(None).should_retry());
    assert!(DictionaryError::ServiceUnavailable { service: "S".to_string(), retry_after: None }
        .should_retry());
    assert!(!DictionaryError::CacheError { message: "x".to_string() }.should_retry());
    assert!(!DictionaryError::WordNotFound { word: "w".to_string() }.should_retry());
    assert!(!DictionaryError::InvalidInput { message: "m".to_string() }.should_retry());
}

#[test]
fn descriptions_per_kind() {
    assert_eq!(network(true).to_string(), "Network timeout: boom");
    assert_eq!(network(false).to_string(), "Network error: boom");
    assert_eq!(api(Some(404)).to_string(), "API error (404): bad");
    assert_eq!(api(Some(0)).to_string(), "API error (0): bad");
    assert_eq!(api(Some(65535)).to_string(), "API error (65535): bad");
    assert_eq!(api(None).to_string(), "API error: bad");
    assert_eq!(DictionaryError::CacheError { message: "x".to_string() }.to_string(), "Cache error: x");
    assert_eq!(
        DictionaryError::WordNotFound { word: "zyx".to_string() }.to_string(),
        "Word 'zyx' not found in dictionary"
    );
    assert_eq!(
        DictionaryError::ServiceUnavailable { service: "Dictionary API".to_string(), retry_after: Some(120) }
            .to_string(),
        "Dictionary API service temporarily unavailable. Try again in 120 seconds"
    );
    assert_eq!(
        DictionaryError::ServiceUnavailable {
            service: "Dictionary API".to_string(),
            retry_after: Some(u64::MAX)
        }
        .to_string(),
        "Dictionary API service temporarily unavailable. Try again in 18446744073709551615 seconds"
    );
    assert_eq!(
        DictionaryError::ServiceUnavailable { service: "Dictionary API".to_string(), retry_after: None }
            .to_string(),
        "Dictionary API service temporarily unavailable"
    );
    assert_eq!(
        DictionaryError::InvalidInput { message: "Word cannot be empty".to_string() }.to_string(),
        "Invalid input: Word cannot be empty"
    );
}

#[test]
fn log_lines_carry_the_level() {
    assert_eq!(network(false).log_level(), LogLevel::Error);
    assert_eq!(api(None).log_level(), LogLevel::Error);
    assert_eq!(
        DictionaryError::ServiceUnavailable { service: "S".to_string(), retry_after: None }.log_level(),
        LogLevel::Error
    );
    assert_eq!(DictionaryError::CacheError { message: "x".to_string() }.log_level(), LogLevel::Warn);
    assert_eq!(DictionaryError::WordNotFound { word: "w".to_string() }.log_level(), LogLevel::Info);
    assert_eq!(DictionaryError::InvalidInput { message: "m".to_string() }.log_level(), LogLevel::Info);
    assert_eq!(network(true).log_line(), "[ERROR] Network timeout: boom");
    assert_eq!(
        DictionaryError::CacheError { message: "x".to_string() }.log_line(),
        "[WARN] Cache error: x"
    );
    assert_eq!(
        DictionaryError::WordNotFound { word: "w".to_string() }.log_line(),
        "[INFO] Word 'w' not found in dictionary"
    );
}

fn failure(is_timeout: bool, is_connect: bool, status: Option<u16>) -> TransportFailure {
    TransportFailure {
        is_timeout,
        is_connect,
        status,
        status_line: "404 Not Found".to_string(),
        detail: "it broke".to_string(),
    }
}

#[test]
fn transport_failures_are_classified() {
    match DictionaryError::from_transport(failure(true, true, Some(404))) {
        DictionaryError::NetworkError { message, is_timeout } => {
            assert_eq!(message, "Request timed out");
            assert!(is_timeout);
        }
        other => panic!("unexpected {:?}", other),
    }
    match DictionaryError::from_transport(failure(false, true, Some(404))) {
        DictionaryError::NetworkError { message, is_timeout } => {
            assert_eq!(message, "Connection failed: it broke");
            assert!(!is_timeout);
        }
        other => panic!("unexpected {:?}", other),
    }
    match DictionaryError::from_transport(failure(false, false, Some(404))) {
        DictionaryError::ApiError { status_code, message } => {
            assert_eq!(status_code, Some(404));
            assert_eq!(message, "HTTP 404 Not Found: it broke");
        }
        other => panic!("unexpected {:?}", other),
    }
    match DictionaryError::from_transport(failure(false, false, None)) {
        DictionaryError::NetworkError { message, is_timeout } => {
            assert_eq!(message, "it broke");
            assert!(!is_timeout);
        }
        other => panic!("unexpected {:?}", other),
    }
}

#[test]
fn cloned_error_equals_its_source() {
    let e = DictionaryError::ServiceUnavailable { service: "S".to_string(), retry_after: Some(9) };
    assert_eq!(e.clone().to_string(), e.to_string());
    let n = network(true);
    assert_eq!(n.clone().to_string(), "Network timeout: boom");
}

//! The failures a lookup can end in, what the user is told about each, and
//! which of them are worth another attempt.

use crate::text::decimal;
use crate::text::decimal_string;
use crate::text::joined;
use vstd::prelude::*;

verus! {

/// Why a lookup failed.
#[derive(Debug)]
pub enum DictionaryError {
    /// The origin could not be reached, or did not answer in time.
    NetworkError { message: String, is_timeout: bool },
    /// The origin answered, but not with a usable response.
    ApiError { status_code: Option<u16>, message: String },
    /// The local cache could not be used.
    CacheError { message: String },
    /// The dictionary has no entry for the word.
    WordNotFound { word: String },
    /// The origin reported a failure on its side.
    ServiceUnavailable { service: String, retry_after: Option<u64> },
    /// The request was not a word.
    InvalidInput { message: String },
}

/// A `DictionaryError` as plain values.
pub enum ErrorView {
    NetworkError { message: Seq<char>, is_timeout: bool },
    ApiError { status_code: Option<u16>, message: Seq<char> },
    CacheError { message: Seq<char> },
    WordNotFound { word: Seq<char> },
    ServiceUnavailable { service: Seq<char>, retry_after: Option<u64> },
    InvalidInput { message: Seq<char> },
}

impl View for DictionaryError {
    type V = ErrorView;

    open spec fn view(&self) -> ErrorView {
        match self {
            DictionaryError::NetworkError { message, is_timeout } => ErrorView::NetworkError {
                message: message@,
                is_timeout: *is_timeout,
            },
            DictionaryError::ApiError { status_code, message } => ErrorView::ApiError {
                status_code: *status_code,
                message: message@,
            },
            DictionaryError::CacheError { message } => ErrorView::CacheError { message: message@ },
            DictionaryError::WordNotFound { word } => ErrorView::WordNotFound { word: word@ },
            DictionaryError::ServiceUnavailable {
                service,
                retry_after,
            } => ErrorView::ServiceUnavailable { service: service@, retry_after: *retry_after },
            DictionaryError::InvalidInput { message } => ErrorView::InvalidInput {
                message: message@,
            },
        }
    }
}

/// How loudly a failure is reported.
#[derive(Debug, Clone, Copy, PartialEq, Eq, Structural)]
pub enum LogLevel {
    Error,
    Warn,
    Info,
}

/// What is known of a failed HTTP exchange.
#[derive(Debug)]
pub struct TransportFailure {
    /// The request ran out of time.
    pub is_timeout: bool,
    /// No connection could be made.
    pub is_connect: bool,
    /// The status code, when a response came back.
    pub status: Option<u16>,
    /// The status as the transport prints it, such as `404 Not Found`.
    pub status_line: String,
    /// The transport's own description of the failure.
    pub detail: String,
}

impl ErrorView {
    /// The full description of the failure.
    pub open spec fn description(self) -> Seq<char> {
        match self {
            ErrorView::NetworkError { message, is_timeout } => if is_timeout {
                "Network timeout: "@ + message
            } else {
                "Network error: "@ + message
            },
            ErrorView::ApiError { status_code, message } => match status_code {
                Some(code) => "API error ("@ + decimal(code as nat) + "): "@ + message,
                None => "API error: "@ + message,
            },
            ErrorView::CacheError { message } => "Cache error: "@ + message,
            ErrorView::WordNotFound { word } => "Word '"@ + word + "' not found in dictionary"@,
            ErrorView::ServiceUnavailable { service, retry_after } => match retry_after {
                Some(seconds) => service + " service temporarily unavailable. Try again in "@
                    + decimal(seconds as nat) + " seconds"@,
                None => service + " service temporarily unavailable"@,
            },
            ErrorView::InvalidInput { message } => "Invalid input: "@ + message,
        }
    }

    /// What the user is told about the failure.
    pub open spec fn user_message(self) -> Seq<char> {
        match self {
            ErrorView::NetworkError { message, is_timeout } => if is_timeout {
                "Request timed out. Please check your internet connection."@
            } else {
                "Unable to connect to dictionary service. Please check your internet connection."@
            },
            ErrorView::ApiError { status_code, message } => match status_code {
                Some(code) => if code == 429 {
                    "Too many requests. Please wait a moment and try again."@
                } else if 500 <= code <= 599 {
                    "Dictionary service is experiencing issues. Please try again later."@
                } else {
                    "Unable to fetch word definition. Please try again."@
                },
                None => "Unable to fetch word definition. Please try again."@,
            },
            ErrorView::CacheError { message } =>
                "Error accessing local cache. The app may run slower than usual."@,
            ErrorView::WordNotFound { word } => "'"@ + word + "' not found in dictionary"@,
            ErrorView::ServiceUnavailable { service, retry_after } =>
                "Dictionary service is temporarily unavailable. Please try again later."@,
            ErrorView::InvalidInput { message } => "Please enter a valid word to look up."@,
        }
    }

    /// Whether another attempt may succeed: network failures, server-side
    /// status codes and an unavailable service.
    pub open spec fn should_retry(self) -> bool {
        match self {
            ErrorView::NetworkError { message, is_timeout } => true,
            ErrorView::ApiError { status_code, message } => match status_code {
                Some(code) => 500 <= code <= 599,
                None => false,
            },
            ErrorView::ServiceUnavailable { service, retry_after } => true,
            _ => false,
        }
    }

    /// How loudly the failure is reported: trouble with the origin as an
    /// error, trouble with the cache as a warning, a rejected or unknown word
    /// as information.
    pub open spec fn log_level(self) -> LogLevel {
        match self {
            ErrorView::NetworkError { message, is_timeout } => LogLevel::Error,
            ErrorView::ApiError { status_code, message } => LogLevel::Error,
            ErrorView::ServiceUnavailable { service, retry_after } => LogLevel::Error,
            ErrorView::CacheError { message } => LogLevel::Warn,
            _ => LogLevel::Info,
        }
    }

    /// The line that reports the failure: the level in brackets, then the
    /// description.
    pub open spec fn log_line(self) -> Seq<char> {
        (match self.log_level() {
            LogLevel::Error => "[ERROR] "@,
            LogLevel::Warn => "[WARN] "@,
            LogLevel::Info => "[INFO] "@,
        }) + self.description()
    }
}

/// The error that a failed HTTP exchange is reported as: a timeout first,
/// then a failed connection, then a response with a status, and any other
/// failure as a network error.
pub open spec fn transport_error(
    is_timeout: bool,
    is_connect: bool,
    status: Option<u16>,
    status_line: Seq<char>,
    detail: Seq<char>,
) -> ErrorView {
    if is_timeout {
        ErrorView::NetworkError { message: "Request timed out"@, is_timeout: true }
    } else if is_connect {
        ErrorView::NetworkError { message: "Connection failed: "@ + detail, is_timeout: false }
    } else {
        match status {
            Some(code) => ErrorView::ApiError {
                status_code: Some(code),
                message: "HTTP "@ + status_line + ": "@ + detail,
            },
            None => ErrorView::NetworkError { message: detail, is_timeout: false },
        }
    }
}

impl Clone for DictionaryError {
    fn clone(&self) -> (copy: DictionaryError)
        ensures
            copy@ == self@,
    {
        match self {
            DictionaryError::NetworkError { message, is_timeout } => DictionaryError::NetworkError {
                message: message.clone(),
                is_timeout: *is_timeout,
            },
            DictionaryError::ApiError { status_code, message } => DictionaryError::ApiError {
                status_code: *status_code,
                message: message.clone(),
            },
            DictionaryError::CacheError { message } => DictionaryError::CacheError {
                message: message.clone(),
            },
            DictionaryError::WordNotFound { word } => DictionaryError::WordNotFound {
                word: word.clone(),
            },
            DictionaryError::ServiceUnavailable {
                service,
                retry_after,
            } => DictionaryError::ServiceUnavailable {
                service: service.clone(),
                retry_after: *retry_after,
            },
            DictionaryError::InvalidInput { message } => DictionaryError::InvalidInput {
                message: message.clone(),
            },
        }
    }
}

impl DictionaryError {
    /// The full description of the failure.
    pub fn to_string(&self) -> (text: String)
        ensures
            text@ == self@.description(),
    {
        match self {
            DictionaryError::NetworkError { message, is_timeout } => {
                if *is_timeout {
                    joined("Network timeout: ", message.as_str())
                } else {
                    joined("Network error: ", message.as_str())
                }
            },
            DictionaryError::ApiError { status_code, message } => {
                match status_code {
                    Some(code) => {
                        let mut text = joined("API error (", decimal_string(*code as u64).as_str());
                        text.append("): ");
                        text.append(message.as_str());
                        text
                    },
                    None => joined("API error: ", message.as_str()),
                }
            },
            DictionaryError::CacheError { message } => joined("Cache error: ", message.as_str()),
            DictionaryError::WordNotFound { word } => {
                let mut text = joined("Word '", word.as_str());
                text.append("' not found in dictionary");
                text
            },
            DictionaryError::ServiceUnavailable { service, retry_after } => {
                match retry_after {
                    Some(seconds) => {
                        let mut text = joined(
                            service.as_str(),
                            " service temporarily unavailable. Try again in ",
                        );
                        text.append(decimal_string(*seconds).as_str());
                        text.append(" seconds");
                        text
                    },
                    None => joined(service.as_str(), " service temporarily unavailable"),
                }
            },
            DictionaryError::InvalidInput { message } => joined(
                "Invalid input: ",
                message.as_str(),
            ),
        }
    }

    /// What the user is told about the failure.
    pub fn user_message(&self) -> (text: String)
        ensures
            text@ == self@.user_message(),
    {
        match self {
            DictionaryError::NetworkError { is_timeout, .. } => {
                if *is_timeout {
                    "Request timed out. Please check your internet connection.".to_owned()
                } else {
                    "Unable to connect to dictionary service. Please check your internet connection.".to_owned()
                }
            },
            DictionaryError::ApiError { status_code, .. } => {
                match status_code {
                    Some(code) => {
                        if *code == 429 {
                            "Too many requests. Please wait a moment and try again.".to_owned()
                        } else if 500 <= *code && *code <= 599 {
                            "Dictionary service is experiencing issues. Please try again later.".to_owned()
                        } else {
                            "Unable to fetch word definition. Please try again.".to_owned()
                        }
                    },
                    None => "Unable to fetch word definition. Please try again.".to_owned(),
                }
            },
            DictionaryError::CacheError { .. } => {
                "Error accessing local cache. The app may run slower than usual.".to_owned()
            },
            DictionaryError::WordNotFound { word } => {
                let mut text = joined("'", word.as_str());
                text.append("' not found in dictionary");
                text
            },
            DictionaryError::ServiceUnavailable { .. } => {
                "Dictionary service is temporarily unavailable. Please try again later.".to_owned()
            },
            DictionaryError::InvalidInput { .. } => {
                "Please enter a valid word to look up.".to_owned()
            },
        }
    }

    /// Whether another attempt may succeed.
    pub fn should_retry(&self) -> (retry: bool)
        ensures
            retry == self@.should_retry(),
    {
        match self {
            DictionaryError::NetworkError { .. } => true,
            DictionaryError::ApiError { status_code, .. } => {
                match status_code {
                    Some(code) => 500 <= *code && *code <= 599,
                    None => false,
                }
            },
            DictionaryError::ServiceUnavailable { .. } => true,
            _ => false,
        }
    }

    /// How loudly the failure is reported.
    pub fn log_level(&self) -> (level: LogLevel)
        ensures
            level == self@.log_level(),
    {
        match self {
            DictionaryError::NetworkError { .. } => LogLevel::Error,
            DictionaryError::ApiError { .. } => LogLevel::Error,
            DictionaryError::ServiceUnavailable { .. } => LogLevel::Error,
            DictionaryError::CacheError { .. } => LogLevel::Warn,
            _ => LogLevel::Info,
        }
    }

    /// The line that reports the failure.
    pub fn log_line(&self) -> (line: String)
        ensures
            line@ == self@.log_line(),
    {
        let description = self.to_string();
        match self.log_level() {
            LogLevel::Error => joined("[ERROR] ", description.as_str()),
            LogLevel::Warn => joined("[WARN] ", description.as_str()),
            LogLevel::Info => joined("[INFO] ", description.as_str()),
        }
    }

    /// The error that a failed HTTP exchange is reported as.
    pub fn from_transport(failure: TransportFailure) -> (error: DictionaryError)
        ensures
            error@ == transport_error(
                failure.is_timeout,
                failure.is_connect,
                failure.status,
                failure.status_line@,
                failure.detail@,
            ),
    {
        if failure.is_timeout {
            DictionaryError::NetworkError {
                message: "Request timed out".to_owned(),
                is_timeout: true,
            }
        } else if failure.is_connect {
            DictionaryError::NetworkError {
                message: joined("Connection failed: ", failure.detail.as_str()),
                is_timeout: false,
            }
        } else {
            match failure.status {
                Some(code) => {
                    let mut message = joined("HTTP ", failure.status_line.as_str());
                    message.append(": ");
                    message.append(failure.detail.as_str());
                    DictionaryError::ApiError { status_code: Some(code), message }
                },
                None => DictionaryError::NetworkError {
                    message: failure.detail,
                    is_timeout: false,
                },
            }
        }
    }
}

} // verus!

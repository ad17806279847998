//! The replies that the shell shows for a lookup and for a search.

use crate::cache::Definition;
use crate::error::DictionaryError;
use vstd::prelude::*;

verus! {

/// The reply to a lookup.
#[derive(Debug)]
pub struct LookupResult {
    pub success: bool,
    pub data: Option<Definition>,
    /// What the user is told, when the lookup failed.
    pub error: Option<String>,
}

/// The reply to a search.
#[derive(Debug)]
pub struct SearchReply {
    pub success: bool,
    pub data: Vec<String>,
    /// What the user is told, when the search failed.
    pub error: Option<String>,
}

/// The reply for a lookup that ended with `outcome`: the definition, or the
/// message for the user in place of the raw error.
pub fn lookup_reply(outcome: Result<Definition, DictionaryError>) -> (reply: LookupResult)
    ensures
        match outcome {
            Ok(definition) => reply.success && reply.data == Some(definition)
                && reply.error.is_none(),
            Err(e) => !reply.success && reply.data.is_none() && reply.error.is_some()
                && reply.error.unwrap()@ == e@.user_message(),
        },
{
    match outcome {
        Ok(definition) => LookupResult { success: true, data: Some(definition), error: None },
        Err(e) => LookupResult { success: false, data: None, error: Some(e.user_message()) },
    }
}

/// The reply for a search that ended with `outcome`: the words, or no words
/// and the message for the user.
pub fn search_reply(outcome: Result<Vec<String>, DictionaryError>) -> (reply: SearchReply)
    ensures
        match outcome {
            Ok(words) => reply.success && reply.data == words && reply.error.is_none(),
            Err(e) => !reply.success && reply.data@.len() == 0 && reply.error.is_some()
                && reply.error.unwrap()@ == e@.user_message(),
        },
{
    match outcome {
        Ok(words) => SearchReply { success: true, data: words, error: None },
        Err(e) => SearchReply { success: false, data: Vec::new(), error: Some(e.user_message()) },
    }
}

} // verus!

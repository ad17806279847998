//! Word definitions under a latency budget: a bounded least-recently-used
//! cache, the decisions of a retrying origin client, the lookup service that
//! joins the two, a priority-ordered prefetch scheduler and a latency tracker.

pub mod api_client;
pub mod cache;
pub mod clock;
pub mod commands;
pub mod dictionary;
pub mod error;
pub mod hotkey;
pub mod performance;
pub mod prefetch;
pub mod settings;
pub mod text;

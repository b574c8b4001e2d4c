//! The statements by which an SQL engine holds the store.
//!
//! Each statement carries out one operation of the model in this module
//! tree; the rows come back in the order of their ids, which is the order
//! in which the model keeps them.

use vstd::prelude::*;

verus! {

/// All outcomes, oldest id first.
pub const SELECT_PROCESSED: &'static str =
    "SELECT id, url, source, status, fields_filled, error_message, error_category, details, processed_at FROM processed_urls ORDER BY id";

/// Records an outcome.
pub const INSERT_PROCESSED: &'static str =
    "INSERT INTO processed_urls (url, source, status, fields_filled, error_message, error_category, details, processed_at) VALUES (?, ?, ?, ?, ?, ?, ?, ?)";

/// Removes the outcome with a given id.
pub const DELETE_PROCESSED: &'static str = "DELETE FROM processed_urls WHERE id = ?";

/// Removes the outcomes that failed.
pub const DELETE_FAILED: &'static str = "DELETE FROM processed_urls WHERE status = 'failed'";

/// Removes all outcomes.
pub const CLEAR_PROCESSED: &'static str = "DELETE FROM processed_urls";

/// All candidates, oldest id first.
pub const SELECT_SCRAPED: &'static str =
    "SELECT id, url, ad_id, advertiser, scraped_at, processed FROM scraped_urls ORDER BY id";

/// Puts a candidate into the queue.
pub const INSERT_SCRAPED: &'static str =
    "INSERT INTO scraped_urls (url, ad_id, advertiser, scraped_at) VALUES (?, ?, ?, ?)";

/// Removes the candidate with a given id.
pub const DELETE_SCRAPED: &'static str = "DELETE FROM scraped_urls WHERE id = ?";

/// Marks the candidate with a given id as processed or as waiting.
pub const UPDATE_SCRAPED_STATUS: &'static str =
    "UPDATE scraped_urls SET processed = ? WHERE id = ?";

/// Removes all candidates.
pub const CLEAR_SCRAPED: &'static str = "DELETE FROM scraped_urls";

/// All sessions, oldest id first, the cost as text.
pub const SELECT_SESSIONS: &'static str =
    "SELECT id, session_start, model, input_tokens, output_tokens, CAST(cost AS TEXT), api_calls FROM api_sessions ORDER BY id";

/// Appends a session.
pub const INSERT_SESSION: &'static str =
    "INSERT INTO api_sessions (session_start, model, input_tokens, output_tokens, cost, api_calls) VALUES (?, ?, ?, ?, ?, ?)";

/// Removes all sessions.
pub const CLEAR_SESSIONS: &'static str = "DELETE FROM api_sessions";

} // verus!

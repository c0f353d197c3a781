//! Search over session transcripts.
//!
//! Transcripts are the source of truth; the index is a projection of them that
//! is kept for recall across sessions. [`messages`] says what of a transcript
//! line is indexed, [`rows`] how a session's rows change and are shown,
//! [`backfill`] how an index catches up with its transcript, [`sanitize`] and
//! [`query`] how a search is put, and [`discover`] how hits are grouped by
//! session.

pub mod backfill;
pub mod backfill_laws;
pub mod discover;
pub mod index_laws;
pub mod match_laws;
pub mod message_laws;
pub mod messages;
pub mod query;
pub mod query_laws;
pub mod rows;
pub mod sanitize;
pub mod sanitize_laws;

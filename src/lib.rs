//! Net line-diff accounting for the file writes and edits recorded in a
//! session log, with the small pieces of status-line logic around it.
pub mod text;
pub mod differ;
pub mod event;
pub mod ledger;
pub mod cache;
pub mod net;
pub mod laws;
pub mod status;

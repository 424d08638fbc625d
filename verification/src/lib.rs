//! Action dispatch and deferred-completion engine for a counter application.
//!
//! A closed set of user intents is carried on a FIFO action bus to a single
//! consumer, which applies them to the application state: immediate intents
//! mutate a saturating counter, lazy intents record a pending entry and hand
//! back a deferred task whose later resolution is reconciled against the
//! pending queue and appended to a completion log.

pub mod action;
pub mod app;
pub mod laws;

//! A per-destination batching engine for chat-platform webhook deliveries.
//!
//! The library accepts validated webhook submissions addressed to
//! `(webhook_id, webhook_token, query)` destinations, groups
//! near-simultaneous submissions for the same destination into one batch,
//! and merges each batch into a single outbound payload.  The batching
//! rules — the keyed registry of open batches, the sliding flush window,
//! the capacity-triggered early flush, the field-wise payload merge, and
//! the shutdown drain — are verified here.  The surrounding transport
//! (HTTP service, TLS, timers, signal handling) is ordinary code built on
//! top of this crate.

pub mod env;
pub mod err;
pub mod json;
pub mod merge;
pub mod parts;
pub mod path;
pub mod payload;
pub mod registry;

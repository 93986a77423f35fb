//! A pool of canister messages, guaranteed-response and best-effort, with
//! built-in support for time-based expiration and load shedding.
//!
//! Messages are held in a primary store keyed by a generated message id
//! that also encodes the message kind (request or response), context
//! (inbound or outbound) and class (guaranteed response or best effort).
//! Two lazily pruned priority queues index the store: one by effective
//! deadline, for expiration, and one by byte size, for load shedding.
//! Exact memory-accounting statistics are maintained incrementally and can
//! be recomputed from scratch for cross-checking.
//!
//! The [`holders`] module is a small companion: a token holder list with
//! unique accounts, batch upserts and a paginated descending-by-balance
//! listing.

pub mod holders;
pub mod laws;
pub mod message;
pub mod message_id;
pub mod model;
pub mod pool;
pub mod queue;
pub mod stats;
pub mod store;

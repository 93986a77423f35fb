//! The message model: kind, deadline and byte size, plus coarse time.
//!
//! A deadline is a coarse time (whole seconds). The sentinel value
//! [`NO_DEADLINE`] (zero) means "no expiry": a message whose own deadline is
//! `NO_DEADLINE` is of the guaranteed-response class, any other deadline
//! makes it best-effort. Fine time is measured in nanoseconds and is always
//! passed in by the caller; it is floored to whole seconds before any
//! deadline comparison.

use vstd::prelude::*;

verus! {

/// Sentinel coarse time meaning "no expiry".
pub const NO_DEADLINE: u32 = 0;

/// The lifetime of a guaranteed response call request in an output queue,
/// in seconds; its effective deadline is `floor(now) + REQUEST_LIFETIME_SECS`.
pub const REQUEST_LIFETIME_SECS: u32 = 300;

/// Nanoseconds per second, for flooring fine time to coarse time.
pub const NANOS_PER_SEC: u64 = 1_000_000_000;

/// Nominal maximum byte size of an inter-canister response. A
/// guaranteed-response request larger than this counts its excess towards
/// `oversized_guaranteed_requests_extra_bytes`.
pub const MAX_RESPONSE_COUNT_BYTES: usize = 2 * 1024 * 1024;

/// Floors a fine time (nanoseconds) to a coarse time (whole seconds),
/// saturating at the largest representable coarse time.
pub open spec fn coarse_floor_spec(now_nanos: u64) -> u32 {
    if now_nanos / NANOS_PER_SEC > u32::MAX {
        u32::MAX
    } else {
        (now_nanos / NANOS_PER_SEC) as u32
    }
}

/// Floors a fine time (nanoseconds) to a coarse time (whole seconds),
/// saturating at the largest representable coarse time.
#[verifier::when_used_as_spec(coarse_floor_spec)]
pub fn coarse_floor(now_nanos: u64) -> (r: u32)
    ensures
        r == coarse_floor_spec(now_nanos),
{
    let secs: u64 = now_nanos / NANOS_PER_SEC;
    if secs > u32::MAX as u64 {
        u32::MAX
    } else {
        secs as u32
    }
}

/// A canister message: a request or a response, with its deadline and its
/// serialized byte size. Payload contents are not the pool's concern; a
/// message is characterized by exactly the attributes the pool reads.
#[derive(Clone, Copy, Debug, PartialEq, Eq, Structural)]
pub enum Message {
    Request { deadline: u32, size_bytes: usize },
    Response { deadline: u32, size_bytes: usize },
}

impl Message {
    /// The message's own deadline attribute.
    pub open spec fn spec_deadline(&self) -> u32 {
        match *self {
            Message::Request { deadline, .. } => deadline,
            Message::Response { deadline, .. } => deadline,
        }
    }

    /// The message's serialized byte size.
    pub open spec fn spec_size_bytes(&self) -> usize {
        match *self {
            Message::Request { size_bytes, .. } => size_bytes,
            Message::Response { size_bytes, .. } => size_bytes,
        }
    }

    /// Whether the message is a response.
    pub open spec fn spec_is_response(&self) -> bool {
        match self {
            Message::Request { .. } => false,
            Message::Response { .. } => true,
        }
    }

    /// Whether the message is best-effort, i.e. has a non-zero deadline.
    pub open spec fn spec_is_best_effort(&self) -> bool {
        self.spec_deadline() != NO_DEADLINE
    }

    /// The message's own deadline attribute.
    #[verifier::when_used_as_spec(spec_deadline)]
    pub fn deadline(&self) -> (r: u32)
        ensures
            r == self.spec_deadline(),
    {
        match self {
            Message::Request { deadline, .. } => *deadline,
            Message::Response { deadline, .. } => *deadline,
        }
    }

    /// The message's serialized byte size.
    #[verifier::when_used_as_spec(spec_size_bytes)]
    pub fn count_bytes(&self) -> (r: usize)
        ensures
            r == self.spec_size_bytes(),
    {
        match self {
            Message::Request { size_bytes, .. } => *size_bytes,
            Message::Response { size_bytes, .. } => *size_bytes,
        }
    }

    /// Whether the message is a response.
    #[verifier::when_used_as_spec(spec_is_response)]
    pub fn is_response(&self) -> (r: bool)
        ensures
            r == self.spec_is_response(),
    {
        match self {
            Message::Request { .. } => false,
            Message::Response { .. } => true,
        }
    }

    /// Whether the message is best-effort, i.e. has a non-zero deadline.
    #[verifier::when_used_as_spec(spec_is_best_effort)]
    pub fn is_best_effort(&self) -> (r: bool)
        ensures
            r == self.spec_is_best_effort(),
    {
        self.deadline() != NO_DEADLINE
    }
}

} // verus!

//! Running memory utilization stats for all messages in a pool.
//!
//! Four byte counters, each exactly maintainable in constant time per
//! mutation: the pool adds a message's stats delta on insert and subtracts
//! it on removal, and the running value always equals what a recomputation
//! from scratch over the store would produce.

use vstd::prelude::*;

use crate::message::MAX_RESPONSE_COUNT_BYTES;
use crate::message::Message;
use crate::message::NO_DEADLINE;

verus! {

/// The mathematical reading of a stats value: the four counters as
/// unbounded integers.
#[verifier::ext_equal]
pub ghost struct StatsModel {
    pub best_effort: int,
    pub guaranteed_responses: int,
    pub oversized_extra: int,
    pub size: int,
}

impl StatsModel {
    /// The all-zero stats value.
    pub open spec fn zero() -> StatsModel {
        StatsModel { best_effort: 0, guaranteed_responses: 0, oversized_extra: 0, size: 0 }
    }

    /// Component-wise sum.
    pub open spec fn plus(self, other: StatsModel) -> StatsModel {
        StatsModel {
            best_effort: self.best_effort + other.best_effort,
            guaranteed_responses: self.guaranteed_responses + other.guaranteed_responses,
            oversized_extra: self.oversized_extra + other.oversized_extra,
            size: self.size + other.size,
        }
    }

    /// Component-wise difference.
    pub open spec fn minus(self, other: StatsModel) -> StatsModel {
        StatsModel {
            best_effort: self.best_effort - other.best_effort,
            guaranteed_responses: self.guaranteed_responses - other.guaranteed_responses,
            oversized_extra: self.oversized_extra - other.oversized_extra,
            size: self.size - other.size,
        }
    }
}

/// The change in stats caused by inserting (added) or removing (subtracted)
/// the given message:
/// - a guaranteed-response request counts its size, and its excess over
///   `MAX_RESPONSE_COUNT_BYTES` as oversized extra bytes;
/// - a guaranteed response counts its size twice: as total and as
///   guaranteed-response bytes;
/// - any best-effort message counts its size as total and as best-effort
///   bytes.
pub open spec fn message_stats_delta(m: Message) -> StatsModel {
    let size = m.spec_size_bytes() as int;
    if m.spec_deadline() == NO_DEADLINE {
        if m.spec_is_response() {
            StatsModel { best_effort: 0, guaranteed_responses: size, oversized_extra: 0, size }
        } else {
            StatsModel {
                best_effort: 0,
                guaranteed_responses: 0,
                oversized_extra: if size > MAX_RESPONSE_COUNT_BYTES {
                    size - MAX_RESPONSE_COUNT_BYTES
                } else {
                    0
                },
                size,
            }
        }
    } else {
        StatsModel { best_effort: size, guaranteed_responses: 0, oversized_extra: 0, size }
    }
}

/// The stats of a whole store, recomputed from scratch: the sum of the
/// deltas of every message in it.
pub open spec fn sum_stats(entries: Seq<(u64, Message)>) -> StatsModel
    decreases entries.len(),
{
    if entries.len() == 0 {
        StatsModel::zero()
    } else {
        sum_stats(entries.drop_last()).plus(message_stats_delta(entries.last().1))
    }
}

/// Running memory utilization stats for all messages in a message pool.
#[derive(Clone, Copy, Debug, PartialEq, Eq, Structural)]
pub struct MemoryUsageStats {
    /// Sum total of the byte size of all best-effort messages in the pool.
    pub best_effort_message_bytes: usize,

    /// Sum total of the byte size of all guaranteed responses in the pool.
    pub guaranteed_responses_size_bytes: usize,

    /// Sum total of bytes above `MAX_RESPONSE_COUNT_BYTES` per oversized
    /// guaranteed-response call request.
    pub oversized_guaranteed_requests_extra_bytes: usize,

    /// Total size of all messages in the pool, in bytes.
    pub size_bytes: usize,
}

impl View for MemoryUsageStats {
    type V = StatsModel;

    open spec fn view(&self) -> StatsModel {
        StatsModel {
            best_effort: self.best_effort_message_bytes as int,
            guaranteed_responses: self.guaranteed_responses_size_bytes as int,
            oversized_extra: self.oversized_guaranteed_requests_extra_bytes as int,
            size: self.size_bytes as int,
        }
    }
}

impl Default for MemoryUsageStats {
    /// The all-zero stats value.
    fn default() -> (r: Self)
        ensures
            r@ == StatsModel::zero(),
    {
        MemoryUsageStats {
            best_effort_message_bytes: 0,
            guaranteed_responses_size_bytes: 0,
            oversized_guaranteed_requests_extra_bytes: 0,
            size_bytes: 0,
        }
    }
}

impl MemoryUsageStats {
    /// Returns the memory usage of the guaranteed response messages in the
    /// pool: guaranteed-response bytes plus oversized-request extra bytes.
    pub fn memory_usage(&self) -> (r: usize)
        requires
            self.guaranteed_responses_size_bytes + self.oversized_guaranteed_requests_extra_bytes
                <= usize::MAX,
        ensures
            r == self@.guaranteed_responses + self@.oversized_extra,
    {
        self.guaranteed_responses_size_bytes + self.oversized_guaranteed_requests_extra_bytes
    }

    /// The change in stats caused by pushing (added) or popping
    /// (subtracted) the given message.
    pub fn stats_delta(msg: &Message) -> (r: MemoryUsageStats)
        ensures
            r@ == message_stats_delta(*msg),
    {
        match msg {
            Message::Request { .. } => Self::request_stats_delta(msg),
            Message::Response { .. } => Self::response_stats_delta(msg),
        }
    }

    /// The stats delta of a request.
    fn request_stats_delta(msg: &Message) -> (r: MemoryUsageStats)
        requires
            !msg.spec_is_response(),
        ensures
            r@ == message_stats_delta(*msg),
    {
        let size_bytes = msg.count_bytes();
        if msg.deadline() == NO_DEADLINE {
            MemoryUsageStats {
                best_effort_message_bytes: 0,
                guaranteed_responses_size_bytes: 0,
                oversized_guaranteed_requests_extra_bytes: if size_bytes
                    > MAX_RESPONSE_COUNT_BYTES {
                    size_bytes - MAX_RESPONSE_COUNT_BYTES
                } else {
                    0
                },
                size_bytes,
            }
        } else {
            MemoryUsageStats {
                best_effort_message_bytes: size_bytes,
                guaranteed_responses_size_bytes: 0,
                oversized_guaranteed_requests_extra_bytes: 0,
                size_bytes,
            }
        }
    }

    /// The stats delta of a response.
    fn response_stats_delta(msg: &Message) -> (r: MemoryUsageStats)
        requires
            msg.spec_is_response(),
        ensures
            r@ == message_stats_delta(*msg),
    {
        let size_bytes = msg.count_bytes();
        if msg.deadline() == NO_DEADLINE {
            MemoryUsageStats {
                best_effort_message_bytes: 0,
                guaranteed_responses_size_bytes: size_bytes,
                oversized_guaranteed_requests_extra_bytes: 0,
                size_bytes,
            }
        } else {
            MemoryUsageStats {
                best_effort_message_bytes: size_bytes,
                guaranteed_responses_size_bytes: 0,
                oversized_guaranteed_requests_extra_bytes: 0,
                size_bytes,
            }
        }
    }

    /// Adds the given delta to every counter.
    pub fn add_assign(&mut self, rhs: MemoryUsageStats)
        requires
            old(self).best_effort_message_bytes + rhs.best_effort_message_bytes <= usize::MAX,
            old(self).guaranteed_responses_size_bytes + rhs.guaranteed_responses_size_bytes
                <= usize::MAX,
            old(self).oversized_guaranteed_requests_extra_bytes
                + rhs.oversized_guaranteed_requests_extra_bytes <= usize::MAX,
            old(self).size_bytes + rhs.size_bytes <= usize::MAX,
        ensures
            final(self)@ == old(self)@.plus(rhs@),
    {
        self.best_effort_message_bytes = self.best_effort_message_bytes
            + rhs.best_effort_message_bytes;
        self.guaranteed_responses_size_bytes = self.guaranteed_responses_size_bytes
            + rhs.guaranteed_responses_size_bytes;
        self.oversized_guaranteed_requests_extra_bytes =
            self.oversized_guaranteed_requests_extra_bytes
            + rhs.oversized_guaranteed_requests_extra_bytes;
        self.size_bytes = self.size_bytes + rhs.size_bytes;
    }

    /// Subtracts the given delta from every counter.
    pub fn sub_assign(&mut self, rhs: MemoryUsageStats)
        requires
            rhs.best_effort_message_bytes <= old(self).best_effort_message_bytes,
            rhs.guaranteed_responses_size_bytes <= old(self).guaranteed_responses_size_bytes,
            rhs.oversized_guaranteed_requests_extra_bytes <= old(
                self,
            ).oversized_guaranteed_requests_extra_bytes,
            rhs.size_bytes <= old(self).size_bytes,
        ensures
            final(self)@ == old(self)@.minus(rhs@),
    {
        self.best_effort_message_bytes = self.best_effort_message_bytes
            - rhs.best_effort_message_bytes;
        self.guaranteed_responses_size_bytes = self.guaranteed_responses_size_bytes
            - rhs.guaranteed_responses_size_bytes;
        self.oversized_guaranteed_requests_extra_bytes =
            self.oversized_guaranteed_requests_extra_bytes
            - rhs.oversized_guaranteed_requests_extra_bytes;
        self.size_bytes = self.size_bytes - rhs.size_bytes;
    }
}

} // verus!

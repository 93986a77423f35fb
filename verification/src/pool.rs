//! A pool of canister messages with expiration and load shedding.
//!
//! The pool assigns each inserted message a fresh [`MessageId`], keeps the
//! primary store authoritative, and maintains two lazily pruned priority
//! queues plus exact running memory stats. Every operation's effect is
//! stated against the pool's model (see [`crate::model`]), so replaying
//! one operation sequence always produces one pool value.

use vstd::prelude::*;

use crate::message::Message;
use crate::message::NANOS_PER_SEC;
use crate::message::NO_DEADLINE;
use crate::message::REQUEST_LIFETIME_SECS;
use crate::message::coarse_floor;
use crate::message::coarse_floor_spec;
use crate::message_id::Class;
use crate::message_id::Context;
use crate::message_id::Kind;
use crate::message_id::MAX_GENERATION;
use crate::message_id::MessageId;
use crate::message_id::ResponsePlaceholder;
use crate::message_id::raw_generation;
use crate::message_id::raw_is_best_effort;
use crate::message_id::raw_is_response;
use crate::model::PoolModel;
use crate::model::empty_pool;
use crate::model::expire_model;
use crate::model::has_best_effort;
use crate::model::has_expired_model;
use crate::model::insert_model;
use crate::model::lemma_drop_deadline_head_wf;
use crate::model::lemma_insert_model_wf;
use crate::model::lemma_replace_model_wf;
use crate::model::lemma_reserve_model_wf;
use crate::model::lemma_shed_model_wf;
use crate::model::lemma_sum_stats_bounds;
use crate::model::lemma_sum_stats_concat;
use crate::model::lemma_sum_stats_singleton;
use crate::model::lemma_sum_stats_store_remove;
use crate::model::lemma_trim_queue_len;
use crate::model::next_raw_id;
use crate::model::pool_wf;
use crate::model::replace_model;
use crate::model::reserve_model;
use crate::model::shed_model;
use crate::model::take_model;
use crate::model::trim_queue;
use crate::queue::PriorityQueue;
use crate::queue::entries_contain_id;
use crate::stats::MemoryUsageStats;
use crate::stats::sum_stats;
use crate::store::lemma_lookup_unique;
use crate::store::lemma_store_remove_at;
use crate::store::store_contains_id;
use crate::store::store_find;
use crate::store::store_lookup;

verus! {

/// The lifetime of a guaranteed response call request in an output queue,
/// in nanoseconds of fine time.
pub const REQUEST_LIFETIME_NANOS: u64 = 300_000_000_000;

/// The effective deadline of an outbound request inserted at fine time
/// `now`: its own deadline if best-effort, `floor(now + REQUEST_LIFETIME)`
/// for a guaranteed response call request.
pub open spec fn outbound_request_deadline(request: Message, now: u64) -> u32 {
    if request.spec_deadline() == NO_DEADLINE {
        coarse_floor_spec((now + REQUEST_LIFETIME_NANOS) as u64)
    } else {
        request.spec_deadline()
    }
}

/// The effective deadline of an inbound message: a request's own deadline;
/// `NO_DEADLINE` for a response, because responses already enqueued
/// inbound never expire.
pub open spec fn inbound_effective_deadline(msg: Message) -> u32 {
    if msg.spec_is_response() {
        NO_DEADLINE
    } else {
        msg.spec_deadline()
    }
}

/// A pool of canister messages, guaranteed response and best effort, with
/// built-in support for time-based expiration and load shedding.
#[derive(Debug)]
pub struct MessagePool {
    /// Pool contents, sorted by strictly ascending id.
    messages: Vec<(u64, Message)>,

    /// Running memory usage stats for the pool.
    memory_usage_stats: MemoryUsageStats,

    /// Deadline priority queue, earliest deadlines first; ids break ties.
    deadline_queue: PriorityQueue,

    /// Load shedding priority queue, largest message last; ids break ties.
    size_queue: PriorityQueue,

    /// A monotonically increasing counter used to generate unique ids.
    next_message_id_generator: u64,
}

impl View for MessagePool {
    type V = PoolModel;

    closed spec fn view(&self) -> PoolModel {
        PoolModel {
            messages: self.messages@,
            stats: self.memory_usage_stats@,
            deadline_queue: self.deadline_queue@,
            size_queue: self.size_queue@,
            generator: self.next_message_id_generator,
        }
    }
}

impl Default for MessagePool {
    /// The empty pool.
    fn default() -> (r: Self)
        ensures
            r@ == empty_pool(),
            r.well_formed(),
    {
        MessagePool::new()
    }
}

impl MessagePool {
    /// The pool's invariant: it holds after construction and after every
    /// operation.
    pub open spec fn well_formed(&self) -> bool {
        pool_wf(self@)
    }

    /// An empty pool.
    pub fn new() -> (r: Self)
        ensures
            r@ == empty_pool(),
            r.well_formed(),
    {
        let r = MessagePool {
            messages: Vec::new(),
            memory_usage_stats: MemoryUsageStats::default(),
            deadline_queue: PriorityQueue::new(),
            size_queue: PriorityQueue::new(),
            next_message_id_generator: 0,
        };
        proof {
            assert(r@ =~= empty_pool());
        }
        r
    }

    /// Reserves and returns a fresh message id.
    fn next_message_id(&mut self, kind: Kind, context: Context, class: Class) -> (r: MessageId)
        requires
            old(self)@.generator < MAX_GENERATION,
        ensures
            r.0 == next_raw_id(old(self)@, kind, context, class),
            final(self)@ == (PoolModel { generator: (old(self)@.generator + 1) as u64, ..old(
                self,
            )@ }),
    {
        let id = MessageId::new(kind, context, class, self.next_message_id_generator);
        self.next_message_id_generator = self.next_message_id_generator + 1;
        proof {
            assert(self@ =~= (PoolModel { generator: (old(self)@.generator + 1) as u64, ..old(
                self,
            )@ }));
        }
        id
    }

    /// Inserts the given message with the provided effective deadline
    /// (rather than the message's own deadline: outgoing guaranteed
    /// response call requests expire, incoming best-effort responses do
    /// not). Returns the id assigned to the message.
    fn insert_impl(&mut self, msg: Message, deadline: u32, context: Context) -> (r: MessageId)
        requires
            old(self).well_formed(),
            old(self)@.generator < MAX_GENERATION,
            msg.spec_is_best_effort() ==> deadline == msg.spec_deadline() || deadline
                == NO_DEADLINE,
            !msg.spec_is_best_effort() && deadline != NO_DEADLINE ==> !msg.spec_is_response()
                && context is Outbound,
            old(self)@.stats.size + msg.spec_size_bytes() <= usize::MAX,
        ensures
            final(self).well_formed(),
            final(self)@ == insert_model(old(self)@, msg, deadline, context).0,
            r.0 == insert_model(old(self)@, msg, deadline, context).1,
            raw_generation(r.0) == old(self)@.generator,
            final(self)@.generator == old(self)@.generator + 1,
    {
        proof {
            lemma_insert_model_wf(old(self)@, msg, deadline, context);
            lemma_sum_stats_bounds(old(self)@.messages);
        }
        let kind = if msg.is_response() {
            Kind::Response
        } else {
            Kind::Request
        };
        let class = if msg.is_best_effort() {
            Class::BestEffort
        } else {
            Class::GuaranteedResponse
        };
        let id = self.next_message_id(kind, context, class);

        let size_bytes = msg.count_bytes();
        let is_best_effort = msg.is_best_effort();

        // Update memory usage stats.
        let delta = MemoryUsageStats::stats_delta(&msg);
        self.memory_usage_stats.add_assign(delta);

        // Insert; the fresh id is greater than every present id.
        self.messages.push((id.0, msg));

        // Record in the deadline queue iff a deadline was provided.
        if deadline != NO_DEADLINE {
            self.deadline_queue.push(deadline as u64, id.0);
        }

        // Record in the load shedding queue iff it is a best-effort message.
        if is_best_effort {
            self.size_queue.push(size_bytes as u64, id.0);
        }

        proof {
            assert(self@ =~= insert_model(old(self)@, msg, deadline, context).0);
        }
        id
    }

    /// Inserts an inbound message (one that is to be enqueued in an input
    /// queue) into the pool. Returns the id assigned to the message.
    ///
    /// The message enters the deadline queue iff it is a best-effort
    /// request: best-effort responses that already made it into an input
    /// queue do not expire. It enters the load shedding queue iff it is
    /// best-effort.
    pub fn insert_inbound(&mut self, msg: Message) -> (r: MessageId)
        requires
            old(self).well_formed(),
            old(self)@.generator < MAX_GENERATION,
            old(self)@.stats.size + msg.spec_size_bytes() <= usize::MAX,
        ensures
            final(self).well_formed(),
            final(self)@ == insert_model(
                old(self)@,
                msg,
                inbound_effective_deadline(msg),
                Context::Inbound,
            ).0,
            r.0 == insert_model(
                old(self)@,
                msg,
                inbound_effective_deadline(msg),
                Context::Inbound,
            ).1,
            raw_generation(r.0) == old(self)@.generator,
            final(self)@.generator == old(self)@.generator + 1,
    {
        let deadline = match &msg {
            Message::Request { .. } => msg.deadline(),
            // Never expire responses already enqueued in an input queue.
            Message::Response { .. } => NO_DEADLINE,
        };
        self.insert_impl(msg, deadline, Context::Inbound)
    }

    /// Inserts an outbound request (one that is to be enqueued in an
    /// output queue) into the pool. Returns the id assigned to the
    /// request.
    ///
    /// The request always enters the deadline queue: a best-effort request
    /// under its explicit deadline, a guaranteed response call request
    /// under `floor(now + REQUEST_LIFETIME)`. It enters the load shedding
    /// queue iff it is best-effort.
    pub fn insert_outbound_request(&mut self, request: Message, now: u64) -> (r: MessageId)
        requires
            old(self).well_formed(),
            !request.spec_is_response(),
            old(self)@.generator < MAX_GENERATION,
            old(self)@.stats.size + request.spec_size_bytes() <= usize::MAX,
            now <= u64::MAX - REQUEST_LIFETIME_NANOS,
        ensures
            final(self).well_formed(),
            final(self)@ == insert_model(
                old(self)@,
                request,
                outbound_request_deadline(request, now),
                Context::Outbound,
            ).0,
            r.0 == insert_model(
                old(self)@,
                request,
                outbound_request_deadline(request, now),
                Context::Outbound,
            ).1,
            raw_generation(r.0) == old(self)@.generator,
            final(self)@.generator == old(self)@.generator + 1,
            entries_contain_id(final(self)@.deadline_queue, r.0),
    {
        let deadline: u32 = if request.deadline() == NO_DEADLINE {
            // Guaranteed response call requests in output queues expire
            // after `REQUEST_LIFETIME`.
            let fine: u64 = now + REQUEST_LIFETIME_NANOS;
            proof {
                vstd::arithmetic::div_mod::lemma_div_is_ordered(
                    REQUEST_LIFETIME_NANOS as int,
                    fine as int,
                    NANOS_PER_SEC as int,
                );
                assert(REQUEST_LIFETIME_NANOS as int / NANOS_PER_SEC as int
                    == REQUEST_LIFETIME_SECS as int);
            }
            coarse_floor(fine)
        } else {
            // Best-effort requests expire as per their specified deadline.
            request.deadline()
        };
        assert(deadline != NO_DEADLINE);
        proof {
            lemma_insert_model_wf(old(self)@, request, deadline, Context::Outbound);
        }
        let id = self.insert_impl(request, deadline, Context::Outbound);
        id
    }

    /// Inserts an outbound response (one that is to be enqueued in an
    /// output queue) into the pool. Returns the id assigned to the
    /// response.
    ///
    /// The response enters both the deadline queue and the load shedding
    /// queue iff it is best-effort.
    pub fn insert_outbound_response(&mut self, response: Message) -> (r: MessageId)
        requires
            old(self).well_formed(),
            response.spec_is_response(),
            old(self)@.generator < MAX_GENERATION,
            old(self)@.stats.size + response.spec_size_bytes() <= usize::MAX,
        ensures
            final(self).well_formed(),
            final(self)@ == insert_model(
                old(self)@,
                response,
                response.spec_deadline(),
                Context::Outbound,
            ).0,
            r.0 == insert_model(
                old(self)@,
                response,
                response.spec_deadline(),
                Context::Outbound,
            ).1,
            raw_generation(r.0) == old(self)@.generator,
            final(self)@.generator == old(self)@.generator + 1,
    {
        let deadline = response.deadline();
        self.insert_impl(response, deadline, Context::Outbound)
    }

    /// Prepares a placeholder for a potential late inbound best-effort
    /// response: reserves an id without touching store, stats or queues.
    pub fn insert_inbound_timeout_response(&mut self) -> (r: ResponsePlaceholder)
        requires
            old(self).well_formed(),
            old(self)@.generator < MAX_GENERATION,
        ensures
            final(self).well_formed(),
            final(self)@ == reserve_model(old(self)@).0,
            r.spec_id().0 == reserve_model(old(self)@).1,
            raw_generation(r.spec_id().0) == old(self)@.generator,
            raw_is_response(r.spec_id().0),
            raw_is_best_effort(r.spec_id().0),
            !store_contains_id(final(self)@.messages, r.spec_id().0),
            !entries_contain_id(final(self)@.deadline_queue, r.spec_id().0),
            !entries_contain_id(final(self)@.size_queue, r.spec_id().0),
    {
        proof {
            lemma_reserve_model_wf(old(self)@);
        }
        let id = self.next_message_id(Kind::Response, Context::Inbound, Class::BestEffort);
        ResponsePlaceholder::reserve(id)
    }

    /// Inserts a late inbound best-effort response into a response
    /// placeholder. The message must be a best-effort response, and the
    /// reserved id must still be unused everywhere in the pool (it always
    /// is when the placeholder came from this pool: ids are never reused).
    pub fn replace_inbound_timeout_response(
        &mut self,
        placeholder: ResponsePlaceholder,
        msg: Message,
    )
        requires
            old(self).well_formed(),
            msg.spec_is_response(),
            msg.spec_is_best_effort(),
            raw_is_response(placeholder.spec_id().0),
            raw_is_best_effort(placeholder.spec_id().0),
            raw_generation(placeholder.spec_id().0) < old(self)@.generator,
            !store_contains_id(old(self)@.messages, placeholder.spec_id().0),
            !entries_contain_id(old(self)@.deadline_queue, placeholder.spec_id().0),
            !entries_contain_id(old(self)@.size_queue, placeholder.spec_id().0),
            old(self)@.stats.size + msg.spec_size_bytes() <= usize::MAX,
        ensures
            final(self).well_formed(),
            final(self)@ == replace_model(old(self)@, placeholder.spec_id().0, msg),
    {
        let id = placeholder.id();
        proof {
            lemma_replace_model_wf(old(self)@, id.0, msg);
            lemma_sum_stats_bounds(old(self)@.messages);
        }
        let size_bytes = msg.count_bytes();

        // Update memory usage stats.
        let delta = MemoryUsageStats::stats_delta(&msg);
        self.memory_usage_stats.add_assign(delta);

        // Insert at the id's sorted position; it cannot conflict because
        // the placeholder is consumed on use and ids are never reused.
        let ghost s = self.messages@;
        let mut i: usize = 0;
        while i < self.messages.len()
            invariant
                self.messages@ == s,
                i <= s.len(),
                !store_contains_id(s, id.0),
                forall|k: int| 0 <= k < i ==> s[k].0 < id.0,
            ensures
                self.messages@ == s,
                i <= s.len(),
                forall|k: int| 0 <= k < i ==> s[k].0 < id.0,
                i == s.len() || s[i as int].0 > id.0,
            decreases s.len() - i,
        {
            let cur = self.messages[i].0;
            if cur >= id.0 {
                proof {
                    if cur == id.0 {
                        assert(store_contains_id(s, id.0));
                    }
                }
                break ;
            }
            i = i + 1;
        }
        proof {
            crate::store::lemma_store_insert_at(s, id.0, msg, i as int);
        }
        self.messages.insert(i, (id.0, msg));
        proof {
            assert(self.messages@ =~= s.take(i as int) + seq![(id.0, msg)] + s.skip(i as int));
        }

        // Record in the load shedding queue only.
        self.size_queue.push(size_bytes as u64, id.0);
        proof {
            assert(self@ =~= replace_model(old(self)@, id.0, msg));
        }
    }

    /// Retrieves the request with the given id; the id must have been
    /// generated for a request.
    pub fn get_request(&self, id: MessageId) -> (r: Option<&Message>)
        requires
            self.well_formed(),
            !id.spec_is_response(),
        ensures
            r is Some <==> store_contains_id(self@.messages, id.0),
            r matches Some(m) ==> *m == store_lookup(self@.messages, id.0)
                && !m.spec_is_response(),
    {
        let r = self.get(id);
        proof {
            if store_contains_id(self@.messages, id.0) {
                let k = choose|k: int| 0 <= k < self@.messages.len() && self@.messages[k].0 == id.0;
                lemma_lookup_unique(self@.messages, id.0, k, self@.messages[k].1);
            }
        }
        r
    }

    /// Retrieves the response with the given id; the id must have been
    /// generated for a response.
    pub fn get_response(&self, id: MessageId) -> (r: Option<&Message>)
        requires
            self.well_formed(),
            id.spec_is_response(),
        ensures
            r is Some <==> store_contains_id(self@.messages, id.0),
            r matches Some(m) ==> *m == store_lookup(self@.messages, id.0)
                && m.spec_is_response(),
    {
        let r = self.get(id);
        proof {
            if store_contains_id(self@.messages, id.0) {
                let k = choose|k: int| 0 <= k < self@.messages.len() && self@.messages[k].0 == id.0;
                lemma_lookup_unique(self@.messages, id.0, k, self@.messages[k].1);
            }
        }
        r
    }

    /// Retrieves the message with the given id, if present.
    pub fn get(&self, id: MessageId) -> (r: Option<&Message>)
        requires
            self.well_formed(),
        ensures
            r is Some <==> store_contains_id(self@.messages, id.0),
            r matches Some(m) ==> *m == store_lookup(self@.messages, id.0),
    {
        match store_find(&self.messages, id.0) {
            Some(i) => {
                proof {
                    lemma_lookup_unique(self@.messages, id.0, i as int, self@.messages[i as int].1);
                }
                let entry = &self.messages[i];
                Some(&entry.1)
            },
            None => None,
        }
    }

    /// Removes the message with the given id from the pool, if present:
    /// updates the stats and prunes whichever queue the removal left
    /// over-long. Stale queue entries are not touched here; they are
    /// discarded lazily on observation.
    pub fn take(&mut self, id: MessageId) -> (r: Option<Message>)
        requires
            old(self).well_formed(),
        ensures
            final(self).well_formed(),
            final(self)@ == take_model(old(self)@, id.0).0,
            r == take_model(old(self)@, id.0).1,
            r is Some <==> store_contains_id(old(self)@.messages, id.0),
            r matches Some(m) ==> m == store_lookup(old(self)@.messages, id.0),
    {
        proof {
            crate::model::lemma_take_model_wf(old(self)@, id.0);
        }
        self.take_impl(id.0)
    }

    /// The shared removal path. Its precondition allows the one state in
    /// which the load shedding queue is momentarily missing the entry of
    /// the very message being removed (during shedding).
    fn take_impl(&mut self, id: u64) -> (r: Option<Message>)
        requires
            crate::model::store_ok(old(self)@),
            crate::model::stats_ok(old(self)@),
            crate::model::deadline_queue_ok(old(self)@),
            crate::model::size_queue_entries_ok(old(self)@),
            crate::model::bounds_ok(old(self)@),
            forall|k: int|
                0 <= k < old(self)@.messages.len() && (#[trigger] old(
                    self,
                )@.messages[k]).1.spec_is_best_effort() && old(self)@.messages[k].0 != id ==> old(
                    self,
                )@.size_queue.contains(
                    (
                        old(self)@.messages[k].1.spec_size_bytes() as u64,
                        old(self)@.messages[k].0,
                    ),
                ),
        ensures
            final(self).well_formed(),
            final(self)@ == take_model(old(self)@, id).0,
            r == take_model(old(self)@, id).1,
    {
        proof {
            crate::model::lemma_take_model_wf(old(self)@, id);
        }
        let i = match store_find(&self.messages, id) {
            Some(i) => i,
            None => {
                return None;
            },
        };
        proof {
            lemma_lookup_unique(self@.messages, id, i as int, self@.messages[i as int].1);
            lemma_store_remove_at(self@.messages, id, i as int);
            lemma_sum_stats_store_remove(self@.messages, id);
            lemma_sum_stats_bounds(crate::store::store_remove(self@.messages, id));
        }
        let entry = self.messages.remove(i);
        let msg = entry.1;
        proof {
            assert(self.messages@ =~= crate::store::store_remove(old(self)@.messages, id));
        }

        let delta = MemoryUsageStats::stats_delta(&msg);
        self.memory_usage_stats.sub_assign(delta);

        self.maybe_trim_queues();

        proof {
            assert(self@ =~= take_model(old(self)@, id).0);
        }
        Some(msg)
    }

    /// Queries whether the deadline at the head of the deadline queue has
    /// expired at fine time `now`. A fast check that may produce false
    /// positives when the head entry is stale; callers treat it as a hint.
    pub fn has_expired_deadlines(&self, now: u64) -> (r: bool)
        ensures
            r == has_expired_model(self@, coarse_floor_spec(now)),
    {
        match self.deadline_queue.first() {
            Some(entry) => {
                let t = coarse_floor(now);
                entry.0 < t as u64
            },
            None => false,
        }
    }

    /// Removes and returns all messages whose effective deadline lies
    /// strictly before `floor(now)`, earliest deadline first, ties broken
    /// by ascending id; stale deadline queue entries are silently dropped.
    pub fn expire_messages(&mut self, now: u64) -> (r: Vec<(MessageId, Message)>)
        requires
            old(self).well_formed(),
        ensures
            final(self).well_formed(),
            final(self)@ == expire_model(old(self)@, coarse_floor_spec(now)).0,
            r@.len() == expire_model(old(self)@, coarse_floor_spec(now)).1.len(),
            forall|k: int|
                0 <= k < r@.len() ==> (#[trigger] r@[k]).0.0 == expire_model(
                    old(self)@,
                    coarse_floor_spec(now),
                ).1[k].0 && r@[k].1 == expire_model(old(self)@, coarse_floor_spec(now)).1[k].1,
            !has_expired_model(old(self)@, coarse_floor_spec(now)) ==> r@.len() == 0
                && final(self)@ == old(self)@,
    {
        let t = coarse_floor(now);
        let ghost t_spec = coarse_floor_spec(now);
        let mut expired: Vec<(MessageId, Message)> = Vec::new();
        let ghost mut collected: Seq<(u64, Message)> = Seq::empty();
        proof {
            assert(collected + expire_model(self@, t_spec).1 =~= expire_model(self@, t_spec).1);
        }
        loop
            invariant
                self.well_formed(),
                t == t_spec,
                expire_model(old(self)@, t_spec).0 == expire_model(self@, t_spec).0,
                expire_model(old(self)@, t_spec).1 == collected + expire_model(self@, t_spec).1,
                expired@.len() == collected.len(),
                forall|k: int|
                    0 <= k < collected.len() ==> (#[trigger] expired@[k]).0.0 == collected[k].0
                        && expired@[k].1 == collected[k].1,
            ensures
                self.well_formed(),
                expire_model(old(self)@, t_spec).0 == expire_model(self@, t_spec).0,
                expire_model(old(self)@, t_spec).1 == collected + expire_model(self@, t_spec).1,
                expired@.len() == collected.len(),
                forall|k: int|
                    0 <= k < collected.len() ==> (#[trigger] expired@[k]).0.0 == collected[k].0
                        && expired@[k].1 == collected[k].1,
                self@.deadline_queue.len() == 0 || self@.deadline_queue[0].0 >= t_spec as u64,
            decreases self@.deadline_queue.len(),
        {
            let head = match self.deadline_queue.first() {
                Some(head) => head,
                None => { break ; },
            };
            if head.0 >= t as u64 {
                break ;
            }
            let ghost p0 = self@;
            let (_, raw) = self.deadline_queue.pop_first();
            proof {
                lemma_drop_deadline_head_wf(p0);
                assert(self@ =~= (PoolModel {
                    deadline_queue: p0.deadline_queue.drop_first(),
                    ..p0
                }));
            }
            let ghost p1 = self@;
            let taken = self.take(MessageId(raw));
            proof {
                lemma_trim_queue_len(self@.deadline_queue, p1.deadline_queue, self@.messages);
            }
            match taken {
                Some(msg) => {
                    expired.push((MessageId(raw), msg));
                    proof {
                        collected = collected + seq![(raw, msg)];
                        assert(expire_model(p0, t_spec).1 =~= seq![(raw, msg)] + expire_model(
                            self@,
                            t_spec,
                        ).1);
                        assert(expire_model(old(self)@, t_spec).1 =~= collected + expire_model(
                            self@,
                            t_spec,
                        ).1);
                    }
                },
                None => {},
            }
        }
        proof {
            assert(expire_model(self@, t_spec).1 =~= Seq::<(u64, Message)>::empty());
            assert(expire_model(old(self)@, t_spec).1 =~= collected);
        }
        expired
    }

    /// Removes and returns the largest best-effort message in the pool,
    /// if any: the one with the greatest byte size, ties broken by the
    /// greater id. Guaranteed-response messages are never shed.
    pub fn shed_largest_message(&mut self) -> (r: Option<(MessageId, Message)>)
        requires
            old(self).well_formed(),
        ensures
            final(self).well_formed(),
            final(self)@ == shed_model(old(self)@).0,
            r is Some <==> shed_model(old(self)@).1 is Some,
            r is Some <==> has_best_effort(old(self)@.messages),
            r matches Some((id, m)) ==> Some((id.0, m)) == shed_model(old(self)@).1
                && m.spec_is_best_effort() && id.spec_is_best_effort()
                && store_contains_id(old(self)@.messages, id.0)
                && m == store_lookup(old(self)@.messages, id.0),
            r matches Some((id, m)) ==> forall|k: int|
                0 <= k < old(self)@.messages.len() && (#[trigger] old(
                    self,
                )@.messages[k]).1.spec_is_best_effort() ==> (old(self)@.messages[k].0 == id.0
                    || crate::queue::entry_lt(
                    (
                        old(self)@.messages[k].1.spec_size_bytes() as u64,
                        old(self)@.messages[k].0,
                    ),
                    (m.spec_size_bytes() as u64, id.0),
                )),
    {
        proof {
            lemma_shed_model_wf(old(self)@);
        }
        loop
            invariant
                self.well_formed(),
                old(self).well_formed(),
                shed_model(old(self)@) == shed_model(self@),
                self@.messages == old(self)@.messages,
                has_best_effort(old(self)@.messages) == has_best_effort(self@.messages),
            ensures
                self.well_formed(),
                shed_model(old(self)@) == shed_model(self@),
                has_best_effort(old(self)@.messages) == has_best_effort(self@.messages),
                self@.size_queue.len() == 0,
            decreases self@.size_queue.len(),
        {
            let ghost p0 = self@;
            let tail = match self.size_queue.pop_last() {
                Some(tail) => tail,
                None => { break ; },
            };
            let ghost p1 = (PoolModel { size_queue: p0.size_queue.drop_last(), ..p0 });
            proof {
                assert(self@ =~= p1);
                lemma_shed_model_wf(p0);
                assert(forall|k: int|
                    0 <= k < p1.size_queue.len() ==> #[trigger] p1.size_queue[k]
                        == p0.size_queue[k]);
                // Every best-effort message other than the popped entry's
                // keeps its queue entry, which sits below the tail.
                assert forall|k: int|
                    0 <= k < p1.messages.len() && (#[trigger] p1.messages[
                        k
                    ]).1.spec_is_best_effort() && p1.messages[k].0 != tail.1 implies
                    p1.size_queue.contains(
                    (p1.messages[k].1.spec_size_bytes() as u64, p1.messages[k].0),
                ) by {
                    let e = (p1.messages[k].1.spec_size_bytes() as u64, p1.messages[k].0);
                    assert(p0.size_queue.contains(e));
                    let j = choose|j: int| 0 <= j < p0.size_queue.len() && p0.size_queue[j] == e;
                    if j == p0.size_queue.len() - 1 {
                        assert(e == p0.size_queue.last());
                    } else {
                        assert(p1.size_queue[j] == e);
                    }
                }
            }
            let taken = self.take_impl(tail.1);
            match taken {
                Some(msg) => {
                    proof {
                        assert(shed_model(p0) == (take_model(p1, tail.1).0, Some((tail.1, msg))));
                        lemma_shed_model_wf(old(self)@);
                    }
                    return Some((MessageId(tail.1), msg));
                },
                None => {},
            }
        }
        // Nothing to shed: the queue was exhausted without a live entry.
        proof {
            lemma_shed_model_wf(old(self)@);
        }
        None
    }

    /// Returns the number of messages in the pool.
    pub fn len(&self) -> (r: usize)
        ensures
            r == self@.messages.len(),
    {
        self.messages.len()
    }

    /// Returns a reference to the pool's memory usage stats.
    pub fn memory_usage_stats(&self) -> (r: &MemoryUsageStats)
        ensures
            r@ == self@.stats,
    {
        &self.memory_usage_stats
    }

    /// The current length of the deadline queue, stale entries included.
    pub fn deadline_queue_len(&self) -> (r: usize)
        ensures
            r == self@.deadline_queue.len(),
    {
        self.deadline_queue.len()
    }

    /// The current length of the load shedding queue, stale entries
    /// included.
    pub fn size_queue_len(&self) -> (r: usize)
        ensures
            r == self@.size_queue.len(),
    {
        self.size_queue.len()
    }

    /// Prunes stale entries from a priority queue when they could make up
    /// more than half of it, keeping both queues within twice the store's
    /// size plus two.
    fn maybe_trim_queues(&mut self)
        ensures
            final(self)@.messages == old(self)@.messages,
            final(self)@.stats == old(self)@.stats,
            final(self)@.generator == old(self)@.generator,
            final(self)@.deadline_queue == trim_queue(
                old(self)@.deadline_queue,
                old(self)@.messages,
            ),
            final(self)@.size_queue == trim_queue(old(self)@.size_queue, old(self)@.messages),
    {
        let len = self.messages.len();
        let threshold_ok = len <= (usize::MAX - 2) / 2;

        let dql = self.deadline_queue.len();
        if threshold_ok && dql > 2 * len + 2 {
            self.deadline_queue.retain_live(&self.messages);
        } else {
            proof {
                if !threshold_ok {
                    assert(2 * old(self)@.messages.len() + 2 > usize::MAX);
                }
            }
        }

        let sql = self.size_queue.len();
        if threshold_ok && sql > 2 * len + 2 {
            self.size_queue.retain_live(&self.messages);
        } else {
            proof {
                if !threshold_ok {
                    assert(2 * old(self)@.messages.len() + 2 > usize::MAX);
                }
            }
        }
    }

    /// Computes the memory usage stats from scratch by walking the store;
    /// the running stats always equal this recomputation.
    pub fn calculate_memory_usage_stats(&self) -> (r: MemoryUsageStats)
        requires
            self.well_formed(),
        ensures
            r@ == sum_stats(self@.messages),
            r@ == self@.stats,
    {
        proof {
            lemma_sum_stats_bounds(self@.messages);
        }
        let mut stats = MemoryUsageStats::default();
        let mut i: usize = 0;
        while i < self.messages.len()
            invariant
                self.well_formed(),
                i <= self@.messages.len(),
                stats@ == sum_stats(self@.messages.take(i as int)),
            decreases self@.messages.len() - i,
        {
            let entry = &self.messages[i];
            let delta = MemoryUsageStats::stats_delta(&entry.1);
            proof {
                assert(self@.messages.take(i + 1 as int).drop_last() =~= self@.messages.take(
                    i as int,
                ));
                assert(self@.messages.take(i + 1 as int).last() == self@.messages[i as int]);
                lemma_sum_stats_concat(
                    self@.messages.take(i as int),
                    self@.messages.skip(i as int),
                );
                assert(self@.messages.take(i as int) + self@.messages.skip(i as int)
                    =~= self@.messages);
                lemma_sum_stats_concat(
                    seq![self@.messages[i as int]],
                    self@.messages.skip(i + 1 as int),
                );
                assert(seq![self@.messages[i as int]] + self@.messages.skip(i + 1 as int)
                    =~= self@.messages.skip(i as int));
                lemma_sum_stats_singleton(self@.messages[i as int]);
                lemma_sum_stats_bounds(self@.messages.take(i as int));
                lemma_sum_stats_bounds(self@.messages.skip(i + 1 as int));
                lemma_sum_stats_bounds(self@.messages);
            }
            stats.add_assign(delta);
            i = i + 1;
        }
        proof {
            assert(self@.messages.take(self@.messages.len() as int) =~= self@.messages);
        }
        stats
    }

    /// Whether two pools hold the same store, stats, queue layouts and
    /// generator state. Two pools built by replaying the same operation
    /// sequence are equal.
    fn pools_equal(&self, other: &Self) -> (r: bool)
        ensures
            r == (self@ == other@),
    {
        if self.messages.len() != other.messages.len() {
            proof {
                assert(self@.messages.len() != other@.messages.len());
            }
            return false;
        }
        let mut i: usize = 0;
        while i < self.messages.len()
            invariant
                i <= self@.messages.len(),
                self@.messages.len() == other@.messages.len(),
                forall|k: int| 0 <= k < i ==> self@.messages[k] == other@.messages[k],
            ensures
                i <= self@.messages.len(),
                forall|k: int| 0 <= k < i ==> self@.messages[k] == other@.messages[k],
                i == self@.messages.len() || self@.messages[i as int] != other@.messages[
                    i as int
                ],
            decreases self@.messages.len() - i,
        {
            let a = &self.messages[i];
            let b = &other.messages[i];
            if a.0 != b.0 || a.1 != b.1 {
                break ;
            }
            i = i + 1;
        }
        if i < self.messages.len() {
            proof {
                if self@.messages =~= other@.messages {
                    assert(false);
                }
            }
            return false;
        }
        proof {
            assert(self@.messages =~= other@.messages);
        }
        let stats_eq = self.memory_usage_stats == other.memory_usage_stats;
        if !stats_eq {
            return false;
        }
        if !self.deadline_queue.same_entries(&other.deadline_queue) {
            return false;
        }
        if !self.size_queue.same_entries(&other.size_queue) {
            return false;
        }
        if self.next_message_id_generator != other.next_message_id_generator {
            return false;
        }
        proof {
            assert(self@ =~= other@);
        }
        true
    }
}

impl PartialEq for MessagePool {
    /// Pool equality: equal stores, stats, queue layouts and generators.
    fn eq(&self, other: &Self) -> (r: bool) {
        self.pools_equal(other)
    }
}

impl vstd::std_specs::cmp::PartialEqSpecImpl for MessagePool {
    open spec fn obeys_eq_spec() -> bool {
        true
    }

    open spec fn eq_spec(&self, other: &Self) -> bool {
        self@ == other@
    }
}

impl Eq for MessagePool {

}

impl Clone for MessagePool {
    /// An independent pool holding the same state.
    fn clone(&self) -> (r: Self)
        ensures
            r@ == self@,
    {
        let mut messages: Vec<(u64, Message)> = Vec::new();
        let mut i: usize = 0;
        while i < self.messages.len()
            invariant
                i <= self.messages@.len(),
                messages@ == self.messages@.take(i as int),
            decreases self.messages@.len() - i,
        {
            messages.push(self.messages[i]);
            proof {
                assert(messages@ =~= self.messages@.take(i + 1 as int));
            }
            i = i + 1;
        }
        proof {
            assert(self.messages@.take(self.messages@.len() as int) =~= self.messages@);
        }
        let r = MessagePool {
            messages,
            memory_usage_stats: self.memory_usage_stats,
            deadline_queue: self.deadline_queue.clone(),
            size_queue: self.size_queue.clone(),
            next_message_id_generator: self.next_message_id_generator,
        };
        proof {
            assert(r@ =~= self@);
        }
        r
    }
}

} // verus!

//! Pool-wide laws, stated over the model and proved once and for all.
//!
//! The pool's public operations are each specified as a model transition;
//! this module closes the loop: it defines replaying an arbitrary sequence
//! of operations and proves the properties that hold along every such
//! sequence — the invariants never break, the stats always equal a
//! recomputation, ids only grow, a round trip through the store returns
//! the same message, replaying is deterministic, and a message whose
//! effective deadline was `NO_DEADLINE` can never be expired.

use vstd::prelude::*;

use crate::message::Message;
use crate::message::NO_DEADLINE;
use crate::message_id::Context;
use crate::message_id::MAX_GENERATION;
use crate::message_id::lemma_generation_order;
use crate::message_id::raw_generation;
use crate::model::PoolModel;
use crate::model::expire_model;
use crate::model::insert_model;
use crate::model::lemma_expire_model_wf;
use crate::model::lemma_insert_model_wf;
use crate::model::lemma_replace_model_wf;
use crate::model::lemma_reserve_model_wf;
use crate::model::lemma_shed_model_wf;
use crate::model::lemma_take_model_wf;
use crate::model::out_has_id;
use crate::model::pool_wf;
use crate::model::replace_model;
use crate::model::reserve_model;
use crate::model::shed_model;
use crate::model::take_model;
use crate::model::queued_before;
use crate::pool::REQUEST_LIFETIME_NANOS;
use crate::pool::outbound_request_deadline;
use crate::queue::entries_contain_id;
use crate::stats::sum_stats;
use crate::store::store_contains_id;
use crate::store::store_lookup;

verus! {

/// One public pool operation, as a value: what a caller could do next.
pub ghost enum PoolOp {
    InsertInbound(Message),
    InsertOutboundRequest(Message, u64),
    InsertOutboundResponse(Message),
    Reserve,
    Replace(u64, Message),
    Take(u64),
    Expire(u64),
    Shed,
}

/// Whether the operation's precondition holds in the given pool state;
/// replaying applies an operation only when it does, exactly as a caller
/// could only perform it then.
pub open spec fn op_enabled(p: PoolModel, op: PoolOp) -> bool {
    match op {
        PoolOp::InsertInbound(m) => p.generator < MAX_GENERATION && p.stats.size
            + m.spec_size_bytes() <= usize::MAX,
        PoolOp::InsertOutboundRequest(m, now) => p.generator < MAX_GENERATION && p.stats.size
            + m.spec_size_bytes() <= usize::MAX && !m.spec_is_response() && now <= u64::MAX
            - REQUEST_LIFETIME_NANOS,
        PoolOp::InsertOutboundResponse(m) => p.generator < MAX_GENERATION && p.stats.size
            + m.spec_size_bytes() <= usize::MAX && m.spec_is_response(),
        PoolOp::Reserve => p.generator < MAX_GENERATION,
        PoolOp::Replace(id, m) => m.spec_is_response() && m.spec_is_best_effort()
            && crate::message_id::raw_is_response(id) && crate::message_id::raw_is_best_effort(id)
            && raw_generation(id) < p.generator && !store_contains_id(p.messages, id)
            && !entries_contain_id(p.deadline_queue, id) && !entries_contain_id(p.size_queue, id)
            && p.stats.size + m.spec_size_bytes() <= usize::MAX,
        PoolOp::Take(_) => true,
        PoolOp::Expire(_) => true,
        PoolOp::Shed => true,
    }
}

/// The pool after one operation: the operation's model transition when it
/// is enabled, the unchanged pool otherwise.
pub open spec fn step(p: PoolModel, op: PoolOp) -> PoolModel {
    if op_enabled(p, op) {
        match op {
            PoolOp::InsertInbound(m) => insert_model(
                p,
                m,
                crate::pool::inbound_effective_deadline(m),
                Context::Inbound,
            ).0,
            PoolOp::InsertOutboundRequest(m, now) => insert_model(
                p,
                m,
                outbound_request_deadline(m, now),
                Context::Outbound,
            ).0,
            PoolOp::InsertOutboundResponse(m) => insert_model(
                p,
                m,
                m.spec_deadline(),
                Context::Outbound,
            ).0,
            PoolOp::Reserve => reserve_model(p).0,
            PoolOp::Replace(id, m) => replace_model(p, id, m),
            PoolOp::Take(id) => take_model(p, id).0,
            PoolOp::Expire(now) => expire_model(p, crate::message::coarse_floor_spec(now)).0,
            PoolOp::Shed => shed_model(p).0,
        }
    } else {
        p
    }
}

/// The pool after a whole sequence of operations, applied left to right.
pub open spec fn replay(p: PoolModel, ops: Seq<PoolOp>) -> PoolModel
    decreases ops.len(),
{
    if ops.len() == 0 {
        p
    } else {
        replay(step(p, ops[0]), ops.drop_first())
    }
}

/// Every single operation preserves the pool invariant — so after it the
/// stats still equal a recomputation over the store and neither queue
/// exceeds twice the store's size plus two — and never moves the id
/// generator backwards.
pub proof fn lemma_step_wf(p: PoolModel, op: PoolOp)
    requires
        pool_wf(p),
    ensures
        pool_wf(step(p, op)),
        step(p, op).stats == sum_stats(step(p, op).messages),
        step(p, op).deadline_queue.len() <= 2 * step(p, op).messages.len() + 2,
        step(p, op).size_queue.len() <= 2 * step(p, op).messages.len() + 2,
        p.generator <= step(p, op).generator,
{
    if op_enabled(p, op) {
        match op {
            PoolOp::InsertInbound(m) => {
                lemma_insert_model_wf(
                    p,
                    m,
                    crate::pool::inbound_effective_deadline(m),
                    Context::Inbound,
                );
            },
            PoolOp::InsertOutboundRequest(m, now) => {
                lemma_insert_model_wf(p, m, outbound_request_deadline(m, now), Context::Outbound);
            },
            PoolOp::InsertOutboundResponse(m) => {
                lemma_insert_model_wf(p, m, m.spec_deadline(), Context::Outbound);
            },
            PoolOp::Reserve => {
                lemma_reserve_model_wf(p);
            },
            PoolOp::Replace(id, m) => {
                lemma_replace_model_wf(p, id, m);
            },
            PoolOp::Take(id) => {
                lemma_take_model_wf(p, id);
            },
            PoolOp::Expire(now) => {
                lemma_expire_model_wf(p, crate::message::coarse_floor_spec(now));
            },
            PoolOp::Shed => {
                lemma_shed_model_wf(p);
            },
        }
    }
}

/// After any sequence of operations on a well-formed pool, the pool is
/// still well formed: in particular the running stats equal what
/// recomputing them over the store yields, and neither queue's length
/// exceeds twice the store's size plus two. The generator never shrinks.
pub proof fn lemma_replay_wf(p: PoolModel, ops: Seq<PoolOp>)
    requires
        pool_wf(p),
    ensures
        pool_wf(replay(p, ops)),
        replay(p, ops).stats == sum_stats(replay(p, ops).messages),
        replay(p, ops).deadline_queue.len() <= 2 * replay(p, ops).messages.len() + 2,
        replay(p, ops).size_queue.len() <= 2 * replay(p, ops).messages.len() + 2,
        p.generator <= replay(p, ops).generator,
    decreases ops.len(),
{
    if ops.len() > 0 {
        lemma_step_wf(p, ops[0]);
        lemma_replay_wf(step(p, ops[0]), ops.drop_first());
    }
}

/// Replaying is deterministic: two pools that start equal and see the
/// same operation sequence end equal. (Each transition is a function of
/// the pool value and the operation alone; no clock or randomness enters.)
pub proof fn lemma_replay_deterministic(a: PoolModel, b: PoolModel, ops: Seq<PoolOp>)
    requires
        a == b,
    ensures
        replay(a, ops) == replay(b, ops),
{
}

/// Ids only grow: an id composed at an earlier generation is strictly
/// smaller than one composed at a later generation, whatever their flag
/// bits. Together with the insert contracts (each returned id carries the
/// generation at insertion time, and every operation moves the generator
/// forwards only), every id the pool returns is strictly greater than
/// every id returned before it.
pub proof fn lemma_later_ids_greater(id1: u64, id2: u64)
    requires
        raw_generation(id1) < raw_generation(id2),
    ensures
        id1 < id2,
{
    lemma_generation_order(id1, id2);
}

/// Round trip: inserting a message and immediately taking its id returns
/// exactly that message, and a second take of the same id returns
/// nothing.
pub proof fn lemma_insert_take_round_trip(p: PoolModel, m: Message, eff: u32, context: Context)
    requires
        pool_wf(p),
        p.generator < MAX_GENERATION,
        p.stats.size + m.spec_size_bytes() <= usize::MAX,
        m.spec_is_best_effort() ==> eff == m.spec_deadline() || eff == NO_DEADLINE,
        !m.spec_is_best_effort() && eff != NO_DEADLINE ==> !m.spec_is_response() && context
            is Outbound,
    ensures
        ({
            let (p1, id) = insert_model(p, m, eff, context);
            let (p2, r1) = take_model(p1, id);
            &&& r1 == Some(m)
            &&& take_model(p2, id).1 is None
            &&& take_model(p2, id).0 == p2
        }),
{
    let (p1, id) = insert_model(p, m, eff, context);
    lemma_insert_model_wf(p, m, eff, context);
    lemma_take_model_wf(p1, id);
    let (p2, r1) = take_model(p1, id);
    assert(!store_contains_id(p2.messages, id));
}

/// No operation can put an id into the deadline queue after the fact:
/// once the generator has moved past an id's generation and the id is not
/// in the deadline queue, it never appears there. (Only an insertion
/// records an id in the deadline queue, and it records the id it assigns,
/// whose generation equals the generator at that moment.)
pub proof fn lemma_step_preserves_unqueued(p: PoolModel, op: PoolOp, x: u64)
    requires
        pool_wf(p),
        raw_generation(x) < p.generator,
        !entries_contain_id(p.deadline_queue, x),
    ensures
        pool_wf(step(p, op)),
        raw_generation(x) < step(p, op).generator,
        !entries_contain_id(step(p, op).deadline_queue, x),
{
    lemma_step_wf(p, op);
    if op_enabled(p, op) {
        match op {
            PoolOp::InsertInbound(m) => {
                lemma_insert_model_wf(
                    p,
                    m,
                    crate::pool::inbound_effective_deadline(m),
                    Context::Inbound,
                );
            },
            PoolOp::InsertOutboundRequest(m, now) => {
                lemma_insert_model_wf(p, m, outbound_request_deadline(m, now), Context::Outbound);
            },
            PoolOp::InsertOutboundResponse(m) => {
                lemma_insert_model_wf(p, m, m.spec_deadline(), Context::Outbound);
            },
            PoolOp::Reserve => {
                lemma_reserve_model_wf(p);
            },
            PoolOp::Replace(id, m) => {
                lemma_replace_model_wf(p, id, m);
            },
            PoolOp::Take(id) => {
                lemma_take_model_wf(p, id);
            },
            PoolOp::Expire(now) => {
                lemma_expire_model_wf(p, crate::message::coarse_floor_spec(now));
            },
            PoolOp::Shed => {
                lemma_shed_model_wf(p);
            },
        }
    }
}

/// An id that never sits in the deadline queue is never expired: the
/// expiration output draws its ids from the deadline queue alone. With
/// the previous lemma this says that a message inserted with effective
/// deadline `NO_DEADLINE` — an inbound response, an inbound
/// guaranteed-response request, or an outbound guaranteed response — is
/// never returned by expiration, however the pool is used in between.
pub proof fn lemma_unqueued_never_expired(p: PoolModel, ops: Seq<PoolOp>, now: u64, x: u64)
    requires
        pool_wf(p),
        raw_generation(x) < p.generator,
        !entries_contain_id(p.deadline_queue, x),
    ensures
        !out_has_id(
            expire_model(replay(p, ops), crate::message::coarse_floor_spec(now)).1,
            x,
        ),
    decreases ops.len(),
{
    if ops.len() == 0 {
        lemma_expire_model_wf(p, crate::message::coarse_floor_spec(now));
        let out = expire_model(p, crate::message::coarse_floor_spec(now)).1;
        if out_has_id(out, x) {
            let k = choose|k: int| 0 <= k < out.len() && out[k].0 == x;
            assert(queued_before(p, crate::message::coarse_floor_spec(now), out[k].0));
            let j = choose|j: int|
                0 <= j < p.deadline_queue.len() && (#[trigger] p.deadline_queue[j]).1 == x
                    && p.deadline_queue[j].0 < crate::message::coarse_floor_spec(now) as u64;
            assert(entries_contain_id(p.deadline_queue, x));
        }
    } else {
        lemma_step_preserves_unqueued(p, ops[0], x);
        lemma_unqueued_never_expired(step(p, ops[0]), ops.drop_first(), now, x);
    }
}

/// The id, if any, that an operation adds to the store.
pub open spec fn op_inserted_id(p: PoolModel, op: PoolOp) -> Option<u64> {
    if op_enabled(p, op) {
        match op {
            PoolOp::InsertInbound(m) => Some(
                insert_model(p, m, crate::pool::inbound_effective_deadline(m), Context::Inbound).1,
            ),
            PoolOp::InsertOutboundRequest(m, now) => Some(
                insert_model(p, m, outbound_request_deadline(m, now), Context::Outbound).1,
            ),
            PoolOp::InsertOutboundResponse(m) => Some(
                insert_model(p, m, m.spec_deadline(), Context::Outbound).1,
            ),
            PoolOp::Replace(id, _) => Some(id),
            _ => None,
        }
    } else {
        None
    }
}

/// Whether an operation removes the given id from the store.
pub open spec fn op_removes_id(p: PoolModel, op: PoolOp, x: u64) -> bool {
    match op {
        PoolOp::Take(id) => x == id,
        PoolOp::Expire(now) => out_has_id(
            expire_model(p, crate::message::coarse_floor_spec(now)).1,
            x,
        ),
        PoolOp::Shed => match shed_model(p).1 {
            Some((id, _)) => id == x,
            None => false,
        },
        _ => false,
    }
}

/// What any single operation does to the store's membership: an id
/// resolves afterwards iff it resolved before or was just inserted, and
/// was not removed — so a lookup succeeds from an id's insertion exactly
/// until a take, an expiration or a shed removes it, and the message
/// found under it never changes while it is there.
pub proof fn lemma_step_membership(p: PoolModel, op: PoolOp, x: u64)
    requires
        pool_wf(p),
    ensures
        store_contains_id(step(p, op).messages, x) == ((store_contains_id(p.messages, x)
            || op_inserted_id(p, op) == Some(x)) && !op_removes_id(p, op, x)),
        store_contains_id(step(p, op).messages, x) && store_contains_id(p.messages, x)
            ==> store_lookup(step(p, op).messages, x) == store_lookup(p.messages, x),
{
    lemma_step_wf(p, op);
    if op_enabled(p, op) {
        match op {
            PoolOp::InsertInbound(m) => {
                lemma_insert_model_wf(
                    p,
                    m,
                    crate::pool::inbound_effective_deadline(m),
                    Context::Inbound,
                );
            },
            PoolOp::InsertOutboundRequest(m, now) => {
                lemma_insert_model_wf(p, m, outbound_request_deadline(m, now), Context::Outbound);
            },
            PoolOp::InsertOutboundResponse(m) => {
                lemma_insert_model_wf(p, m, m.spec_deadline(), Context::Outbound);
            },
            PoolOp::Reserve => {
                lemma_reserve_model_wf(p);
            },
            PoolOp::Replace(id, m) => {
                lemma_replace_model_wf(p, id, m);
            },
            PoolOp::Take(id) => {
                lemma_take_model_wf(p, id);
            },
            PoolOp::Expire(now) => {
                lemma_expire_model_wf(p, crate::message::coarse_floor_spec(now));
            },
            PoolOp::Shed => {
                lemma_shed_model_wf(p);
            },
        }
    }
}

} // verus!

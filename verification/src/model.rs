//! The mathematical model of the message pool.
//!
//! A pool value is read as a [`PoolModel`]: the store entries, the stats,
//! the two priority queues and the id generator. Every public pool
//! operation is specified as a function from model to model, so that two
//! pools fed the same operations end in the same model, and every
//! well-formedness invariant is spelled out here and proved preserved by
//! each transition.

use vstd::prelude::*;

use crate::message::Message;
use crate::message::NO_DEADLINE;
use crate::message_id::Class;
use crate::message_id::Context;
use crate::message_id::Kind;
use crate::message_id::MAX_GENERATION;
use crate::message_id::class_bit;
use crate::message_id::compose_raw;
use crate::message_id::context_bit;
use crate::message_id::flags_value;
use crate::message_id::lemma_compose_parts;
use crate::message_id::lemma_flags_decompose;
use crate::message_id::kind_bit;
use crate::message_id::lemma_generation_order;
use crate::message_id::raw_generation;
use crate::message_id::raw_is_best_effort;
use crate::message_id::raw_is_outbound;
use crate::message_id::raw_is_response;
use crate::queue::entries_contain_id;
use crate::queue::entries_sorted;
use crate::queue::entry_ids_distinct;
use crate::queue::insert_entry;
use crate::queue::lemma_insert_entry_facts;
use crate::queue::lemma_live_entries_facts;
use crate::queue::live_entries;
use crate::stats::StatsModel;
use crate::stats::message_stats_delta;
use crate::stats::sum_stats;
use crate::store::ids_sorted;
use crate::store::lemma_store_insert_facts;
use crate::store::lemma_store_insert_greatest;
use crate::store::lemma_store_remove_at;
use crate::store::lemma_store_remove_facts;
use crate::store::store_contains_id;
use crate::store::store_insert;
use crate::store::store_lookup;
use crate::store::store_remove;

verus! {

/// The model of a whole pool: store, stats, the two queues and the id
/// generator.
#[verifier::ext_equal]
pub ghost struct PoolModel {
    /// Store entries `(raw id, message)`, sorted by strictly ascending id.
    pub messages: Seq<(u64, Message)>,
    /// The running memory usage stats.
    pub stats: StatsModel,
    /// Deadline queue entries `(effective deadline, raw id)`.
    pub deadline_queue: Seq<(u64, u64)>,
    /// Load shedding queue entries `(byte size, raw id)`.
    pub size_queue: Seq<(u64, u64)>,
    /// The next generation count to be handed out.
    pub generator: u64,
}

/// The store's own invariants: ids strictly ascending, every id generated
/// before the generator's present value, and the kind and class flag bits
/// of every id agreeing with the stored message.
pub open spec fn store_ok(p: PoolModel) -> bool {
    &&& ids_sorted(p.messages)
    &&& forall|k: int|
        0 <= k < p.messages.len() ==> raw_generation(#[trigger] p.messages[k].0) < p.generator
    &&& forall|k: int|
        0 <= k < p.messages.len() ==> raw_is_response(#[trigger] p.messages[k].0)
            == p.messages[k].1.spec_is_response()
    &&& forall|k: int|
        0 <= k < p.messages.len() ==> raw_is_best_effort(#[trigger] p.messages[k].0)
            == p.messages[k].1.spec_is_best_effort()
}

/// The stats always equal what a recomputation from scratch over the store
/// would produce.
pub open spec fn stats_ok(p: PoolModel) -> bool {
    p.stats == sum_stats(p.messages)
}

/// The deadline queue's invariants: sorted entries with distinct ids, all
/// generated before the present generator value, never the `NO_DEADLINE`
/// key; an entry whose id still resolves belongs to a best-effort message
/// recorded under its own deadline, or to an outbound guaranteed-response
/// call request (the only guaranteed-response messages that expire).
pub open spec fn deadline_queue_ok(p: PoolModel) -> bool {
    &&& entries_sorted(p.deadline_queue)
    &&& entry_ids_distinct(p.deadline_queue)
    &&& forall|k: int| 0 <= k < p.deadline_queue.len() ==> (#[trigger] p.deadline_queue[k]).0 != 0
    &&& forall|k: int|
        0 <= k < p.deadline_queue.len() ==> raw_generation((#[trigger] p.deadline_queue[k]).1)
            < p.generator
    &&& forall|k: int|
        0 <= k < p.deadline_queue.len() && store_contains_id(
            p.messages,
            (#[trigger] p.deadline_queue[k]).1,
        ) ==> {
            let m = store_lookup(p.messages, p.deadline_queue[k].1);
            if m.spec_is_best_effort() {
                p.deadline_queue[k].0 == m.spec_deadline()
            } else {
                !raw_is_response(p.deadline_queue[k].1) && raw_is_outbound(p.deadline_queue[k].1)
            }
        }
}

/// The load shedding queue's entry invariants: sorted entries with
/// distinct ids, all generated before the present generator value and all
/// flagged best-effort; an entry whose id still resolves is keyed by the
/// stored message's byte size.
pub open spec fn size_queue_entries_ok(p: PoolModel) -> bool {
    &&& entries_sorted(p.size_queue)
    &&& entry_ids_distinct(p.size_queue)
    &&& forall|k: int|
        0 <= k < p.size_queue.len() ==> raw_generation((#[trigger] p.size_queue[k]).1)
            < p.generator
    &&& forall|k: int|
        0 <= k < p.size_queue.len() ==> raw_is_best_effort((#[trigger] p.size_queue[k]).1)
    &&& forall|k: int|
        0 <= k < p.size_queue.len() && store_contains_id(
            p.messages,
            (#[trigger] p.size_queue[k]).1,
        ) ==> (#[trigger] p.size_queue[k]).0 == store_lookup(
            p.messages,
            p.size_queue[k].1,
        ).spec_size_bytes() as u64
}

/// Every best-effort message in the store has its `(byte size, id)` entry
/// in the load shedding queue.
pub open spec fn size_queue_complete(p: PoolModel) -> bool {
    forall|k: int|
        0 <= k < p.messages.len() && (#[trigger] p.messages[k]).1.spec_is_best_effort()
            ==> p.size_queue.contains(
            (p.messages[k].1.spec_size_bytes() as u64, p.messages[k].0),
        )
}

/// The load shedding queue's full invariant.
pub open spec fn size_queue_ok(p: PoolModel) -> bool {
    &&& size_queue_entries_ok(p)
    &&& size_queue_complete(p)
}

/// Neither queue ever exceeds twice the store's size plus two.
pub open spec fn bounds_ok(p: PoolModel) -> bool {
    &&& p.deadline_queue.len() <= 2 * p.messages.len() + 2
    &&& p.size_queue.len() <= 2 * p.messages.len() + 2
}

/// The pool's full well-formedness invariant; it holds after every public
/// operation.
pub open spec fn pool_wf(p: PoolModel) -> bool {
    &&& store_ok(p)
    &&& stats_ok(p)
    &&& deadline_queue_ok(p)
    &&& size_queue_ok(p)
    &&& bounds_ok(p)
}

/// The empty pool.
pub open spec fn empty_pool() -> PoolModel {
    PoolModel {
        messages: Seq::empty(),
        stats: StatsModel::zero(),
        deadline_queue: Seq::empty(),
        size_queue: Seq::empty(),
        generator: 0,
    }
}

/// The kind of a message.
pub open spec fn kind_of(m: Message) -> Kind {
    if m.spec_is_response() {
        Kind::Response
    } else {
        Kind::Request
    }
}

/// The class of a message, derived from its own deadline.
pub open spec fn class_of(m: Message) -> Class {
    if m.spec_is_best_effort() {
        Class::BestEffort
    } else {
        Class::GuaranteedResponse
    }
}

/// The raw id the pool assigns next for the given attributes.
pub open spec fn next_raw_id(p: PoolModel, kind: Kind, context: Context, class: Class) -> u64 {
    compose_raw(flags_value(kind, context, class), p.generator)
}

/// The common insert transition: assign the next id, add the message to
/// the store and the stats, record the effective deadline (when non-zero)
/// in the deadline queue and the size (when best-effort) in the load
/// shedding queue, and advance the generator.
pub open spec fn insert_model(p: PoolModel, m: Message, eff: u32, context: Context) -> (
    PoolModel,
    u64,
) {
    let id = next_raw_id(p, kind_of(m), context, class_of(m));
    let q = PoolModel {
        messages: store_insert(p.messages, id, m),
        stats: p.stats.plus(message_stats_delta(m)),
        deadline_queue: if eff != NO_DEADLINE {
            insert_entry(p.deadline_queue, (eff as u64, id))
        } else {
            p.deadline_queue
        },
        size_queue: if m.spec_is_best_effort() {
            insert_entry(p.size_queue, (m.spec_size_bytes() as u64, id))
        } else {
            p.size_queue
        },
        generator: (p.generator + 1) as u64,
    };
    (q, id)
}

/// The placeholder reservation transition: only the generator advances.
pub open spec fn reserve_model(p: PoolModel) -> (PoolModel, u64) {
    let id = next_raw_id(p, Kind::Response, Context::Inbound, Class::BestEffort);
    (PoolModel { generator: (p.generator + 1) as u64, ..p }, id)
}

/// The placeholder fulfillment transition: the message enters the store,
/// the stats and the load shedding queue under the reserved id; the
/// deadline queue is not touched and the generator does not move.
pub open spec fn replace_model(p: PoolModel, id: u64, m: Message) -> PoolModel {
    PoolModel {
        messages: store_insert(p.messages, id, m),
        stats: p.stats.plus(message_stats_delta(m)),
        deadline_queue: p.deadline_queue,
        size_queue: insert_entry(p.size_queue, (m.spec_size_bytes() as u64, id)),
        generator: p.generator,
    }
}

/// A queue after the trim check: rebuilt from its live entries when its
/// length exceeds twice the store's size plus two, untouched otherwise.
pub open spec fn trim_queue(q: Seq<(u64, u64)>, store: Seq<(u64, Message)>) -> Seq<(u64, u64)> {
    if q.len() > 2 * store.len() + 2 {
        live_entries(q, store)
    } else {
        q
    }
}

/// The take transition: remove the id's entry from the store, subtract its
/// stats delta, and prune whichever queue the removal left over-long.
/// Absent ids leave the pool untouched.
pub open spec fn take_model(p: PoolModel, id: u64) -> (PoolModel, Option<Message>) {
    if store_contains_id(p.messages, id) {
        let m = store_lookup(p.messages, id);
        let rest = store_remove(p.messages, id);
        let q = PoolModel {
            messages: rest,
            stats: p.stats.minus(message_stats_delta(m)),
            deadline_queue: trim_queue(p.deadline_queue, rest),
            size_queue: trim_queue(p.size_queue, rest),
            generator: p.generator,
        };
        (q, Some(m))
    } else {
        (p, None)
    }
}

/// Whether the deadline at the head of the deadline queue is strictly
/// before the given coarse time. May hold even when the head entry is
/// stale: a false positive the caller treats as a hint.
pub open spec fn has_expired_model(p: PoolModel, t: u32) -> bool {
    p.deadline_queue.len() > 0 && p.deadline_queue[0].0 < t as u64
}

/// The expiration transition: pop deadline queue heads strictly before
/// `t`; each one whose id still resolves is taken from the pool and
/// appended to the output, stale heads are silently dropped.
pub open spec fn expire_model(p: PoolModel, t: u32) -> (PoolModel, Seq<(u64, Message)>)
    decreases p.deadline_queue.len(),
{
    if p.deadline_queue.len() == 0 || p.deadline_queue[0].0 >= t as u64 {
        (p, Seq::empty())
    } else {
        let head = p.deadline_queue[0];
        let p1 = PoolModel { deadline_queue: p.deadline_queue.drop_first(), ..p };
        if store_contains_id(p1.messages, head.1) {
            let m = store_lookup(p1.messages, head.1);
            let p2 = take_model(p1, head.1).0;
            proof {
                lemma_trim_queue_len(p2.deadline_queue, p1.deadline_queue, p2.messages);
            }
            let (p3, rest) = expire_model(p2, t);
            (p3, seq![(head.1, m)] + rest)
        } else {
            expire_model(p1, t)
        }
    }
}

/// The load shedding transition: pop load shedding queue tails until one
/// resolves in the store; take that message (the largest best-effort one)
/// or report none once the queue is exhausted.
pub open spec fn shed_model(p: PoolModel) -> (PoolModel, Option<(u64, Message)>)
    decreases p.size_queue.len(),
{
    if p.size_queue.len() == 0 {
        (p, None)
    } else {
        let tail = p.size_queue.last();
        let p1 = PoolModel { size_queue: p.size_queue.drop_last(), ..p };
        if store_contains_id(p1.messages, tail.1) {
            let m = store_lookup(p1.messages, tail.1);
            (take_model(p1, tail.1).0, Some((tail.1, m)))
        } else {
            shed_model(p1)
        }
    }
}

/// A trimmed queue never grows: needed to see that expiration terminates.
pub proof fn lemma_trim_queue_len(
    trimmed: Seq<(u64, u64)>,
    q: Seq<(u64, u64)>,
    store: Seq<(u64, Message)>,
)
    requires
        trimmed == trim_queue(q, store),
    ensures
        trimmed.len() <= q.len(),
{
    lemma_live_entries_len(q, store);
}

/// Pruning only ever drops entries.
pub proof fn lemma_live_entries_len(s: Seq<(u64, u64)>, store: Seq<(u64, Message)>)
    ensures
        live_entries(s, store).len() <= s.len(),
    decreases s.len(),
{
    if s.len() > 0 {
        lemma_live_entries_len(s.drop_last(), store);
    }
}

/// The stats of a one-entry store are that message's delta.
pub proof fn lemma_sum_stats_singleton(e: (u64, Message))
    ensures
        sum_stats(seq![e]) == StatsModel::zero().plus(message_stats_delta(e.1)),
{
    reveal_with_fuel(sum_stats, 2);
    assert(seq![e].drop_last() =~= Seq::<(u64, Message)>::empty());
    assert(seq![e].last() == e);
}

/// Summing stats distributes over concatenation.
pub proof fn lemma_sum_stats_concat(a: Seq<(u64, Message)>, b: Seq<(u64, Message)>)
    ensures
        sum_stats(a + b) == sum_stats(a).plus(sum_stats(b)),
    decreases b.len(),
{
    if b.len() == 0 {
        assert(a + b =~= a);
        assert(sum_stats(a).plus(StatsModel::zero()) == sum_stats(a));
    } else {
        lemma_sum_stats_concat(a, b.drop_last());
        assert((a + b).drop_last() =~= a + b.drop_last());
        assert((a + b).last() == b.last());
    }
}

/// Every component of a recomputed stats value is non-negative; the
/// best-effort bytes never exceed the total, and the guaranteed-response
/// bytes and the oversized extra bytes together never exceed the total.
pub proof fn lemma_sum_stats_bounds(s: Seq<(u64, Message)>)
    ensures
        0 <= sum_stats(s).best_effort,
        0 <= sum_stats(s).guaranteed_responses,
        0 <= sum_stats(s).oversized_extra,
        sum_stats(s).best_effort <= sum_stats(s).size,
        sum_stats(s).guaranteed_responses + sum_stats(s).oversized_extra <= sum_stats(s).size,
    decreases s.len(),
{
    if s.len() > 0 {
        lemma_sum_stats_bounds(s.drop_last());
    }
}

/// Inserting an entry at its sorted position adds exactly its stats delta.
pub proof fn lemma_sum_stats_store_insert(s: Seq<(u64, Message)>, id: u64, m: Message)
    ensures
        sum_stats(store_insert(s, id, m)) == sum_stats(s).plus(message_stats_delta(m)),
    decreases s.len(),
{
    if s.len() == 0 {
        assert(store_insert(s, id, m) =~= seq![(id, m)]);
        lemma_sum_stats_singleton((id, m));
        assert(sum_stats(s) == StatsModel::zero());
    } else if id < s[0].0 {
        lemma_sum_stats_concat(seq![(id, m)], s);
        lemma_sum_stats_singleton((id, m));
    } else {
        lemma_sum_stats_store_insert(s.drop_first(), id, m);
        lemma_sum_stats_concat(seq![s[0]], store_insert(s.drop_first(), id, m));
        lemma_sum_stats_concat(seq![s[0]], s.drop_first());
        assert(seq![s[0]] + s.drop_first() =~= s);
        lemma_sum_stats_singleton(s[0]);
    }
}

/// Removing a present entry subtracts exactly its stats delta.
pub proof fn lemma_sum_stats_store_remove(s: Seq<(u64, Message)>, id: u64)
    requires
        ids_sorted(s),
        store_contains_id(s, id),
    ensures
        sum_stats(s) == sum_stats(store_remove(s, id)).plus(
            message_stats_delta(store_lookup(s, id)),
        ),
{
    let k = choose|k: int| 0 <= k < s.len() && s[k].0 == id;
    crate::store::lemma_lookup_unique(s, id, k, s[k].1);
    lemma_store_remove_at(s, id, k);
    let rest = s.take(k) + s.skip(k + 1);
    lemma_sum_stats_concat(s.take(k), s.skip(k + 1));
    lemma_sum_stats_concat(s.take(k), seq![s[k]] + s.skip(k + 1));
    lemma_sum_stats_concat(seq![s[k]], s.skip(k + 1));
    assert(s.take(k) + (seq![s[k]] + s.skip(k + 1)) =~= s);
    lemma_sum_stats_singleton(s[k]);
}

/// A pruned queue with distinct ids is no longer than the store it was
/// pruned against: each live entry names a distinct store id.
pub proof fn lemma_live_entries_count(q: Seq<(u64, u64)>, store: Seq<(u64, Message)>)
    requires
        entries_sorted(q),
        entry_ids_distinct(q),
        ids_sorted(store),
    ensures
        live_entries(q, store).len() <= store.len(),
{
    broadcast use vstd::seq_lib::seq_to_set_is_finite;

    lemma_live_entries_facts(q, store);
    let l = live_entries(q, store);
    let l_ids = l.map_values(|e: (u64, u64)| e.1);
    let s_ids = store.map_values(|e: (u64, Message)| e.0);
    assert(l_ids.no_duplicates()) by {
        assert(forall|i: int, j: int|
            0 <= i < j < l.len() ==> l_ids[i] == l[i].1 && l_ids[j] == l[j].1);
    }
    assert(s_ids.no_duplicates()) by {
        assert(forall|i: int, j: int|
            0 <= i < j < store.len() ==> s_ids[i] == store[i].0 && s_ids[j] == store[j].0);
    }
    l_ids.unique_seq_to_set();
    s_ids.unique_seq_to_set();
    assert(l_ids.to_set().subset_of(s_ids.to_set())) by {
        assert forall|x: u64| l_ids.to_set().contains(x) implies s_ids.to_set().contains(x) by {
            let i = choose|i: int| 0 <= i < l_ids.len() && l_ids[i] == x;
            assert(l.contains(l[i]));
            assert(store_contains_id(store, l[i].1));
            let k = choose|k: int| 0 <= k < store.len() && store[k].0 == x;
            assert(s_ids[k] == x);
            assert(s_ids.contains(x));
        }
    }
    vstd::set_lib::lemma_len_subset(l_ids.to_set(), s_ids.to_set());
}

/// What the common insert transition guarantees: the assigned id is fresh,
/// carries the right flags, and the new pool is well formed with the
/// message added everywhere it belongs.
pub proof fn lemma_insert_model_wf(p: PoolModel, m: Message, eff: u32, context: Context)
    requires
        pool_wf(p),
        p.generator < MAX_GENERATION,
        m.spec_is_best_effort() ==> eff == m.spec_deadline() || eff == NO_DEADLINE,
        !m.spec_is_best_effort() && eff != NO_DEADLINE ==> !m.spec_is_response() && context
            is Outbound,
    ensures
        ({
            let (q, id) = insert_model(p, m, eff, context);
            &&& pool_wf(q)
            &&& raw_generation(id) == p.generator
            &&& raw_is_response(id) == m.spec_is_response()
            &&& raw_is_outbound(id) == (context is Outbound)
            &&& raw_is_best_effort(id) == m.spec_is_best_effort()
            &&& !store_contains_id(p.messages, id)
            &&& q.messages == p.messages.push((id, m))
            &&& forall|x: u64| #[trigger]
                store_contains_id(q.messages, x) == (store_contains_id(p.messages, x) || x == id)
            &&& store_lookup(q.messages, id) == m
            &&& forall|x: u64|
                store_contains_id(p.messages, x) ==> #[trigger] store_lookup(q.messages, x)
                    == store_lookup(p.messages, x)
            &&& q.generator == p.generator + 1
            &&& forall|x: u64| #[trigger]
                entries_contain_id(q.deadline_queue, x) == (entries_contain_id(
                    p.deadline_queue,
                    x,
                ) || (eff != NO_DEADLINE && x == id))
            &&& forall|x: u64| #[trigger]
                entries_contain_id(q.size_queue, x) == (entries_contain_id(p.size_queue, x) || (
                m.spec_is_best_effort() && x == id))
            &&& !p.deadline_queue.contains((eff as u64, id))
            &&& !p.size_queue.contains((m.spec_size_bytes() as u64, id))
        }),
{
    let kind = kind_of(m);
    let class = class_of(m);
    let flags = flags_value(kind, context, class);
    let id = compose_raw(flags, p.generator);
    let (q, id2) = insert_model(p, m, eff, context);
    assert(id2 == id);
    assert(flags < 8);
    lemma_compose_parts(flags, p.generator);
    assert(raw_generation(id) == p.generator);
    let b0 = kind_bit(kind);
    let b1 = context_bit(context) / 2;
    let b2 = class_bit(class) / 4;
    lemma_flags_decompose(b0, b1, b2, id);
    assert(raw_is_response(id) == m.spec_is_response());
    assert(raw_is_outbound(id) == (context is Outbound));
    assert(raw_is_best_effort(id) == m.spec_is_best_effort());

    // The id is fresh: everything recorded anywhere was generated earlier.
    assert forall|k: int| 0 <= k < p.messages.len() implies p.messages[k].0 != id by {
        assert(raw_generation(p.messages[k].0) < p.generator);
    }
    assert(!store_contains_id(p.messages, id));
    assert forall|k: int| 0 <= k < p.messages.len() implies p.messages[k].0 < id by {
        lemma_generation_order(p.messages[k].0, id);
    }
    lemma_store_insert_greatest(p.messages, id, m);
    assert(q.messages == p.messages.push((id, m)));
    lemma_store_insert_facts(p.messages, id, m);

    // Stats: the sum over the extended store gains exactly the delta.
    assert(q.messages.drop_last() =~= p.messages);
    assert(q.messages.last() == (id, m));
    assert(stats_ok(q));

    // Store invariants for the extended store.
    assert(store_ok(q)) by {
        assert(forall|k: int|
            0 <= k < p.messages.len() ==> #[trigger] q.messages[k] == p.messages[k]);
        assert(q.messages[p.messages.len() as int] == (id, m));
    }

    // Queue pushes: the pushed entry and its id are new to each queue.
    let de = (eff as u64, id);
    let se = (m.spec_size_bytes() as u64, id);
    assert(!entries_contain_id(p.deadline_queue, id)) by {
        if entries_contain_id(p.deadline_queue, id) {
            let k = choose|k: int|
                0 <= k < p.deadline_queue.len() && p.deadline_queue[k].1 == id;
            assert(raw_generation(p.deadline_queue[k].1) < p.generator);
        }
    }
    assert(!entries_contain_id(p.size_queue, id)) by {
        if entries_contain_id(p.size_queue, id) {
            let k = choose|k: int| 0 <= k < p.size_queue.len() && p.size_queue[k].1 == id;
            assert(raw_generation(p.size_queue[k].1) < p.generator);
        }
    }
    assert(!p.deadline_queue.contains(de)) by {
        if p.deadline_queue.contains(de) {
            let k = choose|k: int| 0 <= k < p.deadline_queue.len() && p.deadline_queue[k] == de;
            assert(p.deadline_queue[k].1 == id);
            assert(entries_contain_id(p.deadline_queue, id));
        }
    }
    assert(!p.size_queue.contains(se)) by {
        if p.size_queue.contains(se) {
            let k = choose|k: int| 0 <= k < p.size_queue.len() && p.size_queue[k] == se;
            assert(p.size_queue[k].1 == id);
            assert(entries_contain_id(p.size_queue, id));
        }
    }
    if eff != NO_DEADLINE {
        lemma_insert_entry_facts(p.deadline_queue, de);
    }
    if m.spec_is_best_effort() {
        lemma_insert_entry_facts(p.size_queue, se);
    }

    // Deadline queue invariants.
    assert(deadline_queue_ok(q)) by {
        assert forall|k: int| 0 <= k < q.deadline_queue.len() implies {
            &&& (#[trigger] q.deadline_queue[k]).0 != 0
            &&& raw_generation(q.deadline_queue[k].1) < q.generator
            &&& store_contains_id(q.messages, q.deadline_queue[k].1) ==> {
                let mm = store_lookup(q.messages, q.deadline_queue[k].1);
                if mm.spec_is_best_effort() {
                    q.deadline_queue[k].0 == mm.spec_deadline()
                } else {
                    !raw_is_response(q.deadline_queue[k].1) && raw_is_outbound(
                        q.deadline_queue[k].1,
                    )
                }
            }
        } by {
            let e = q.deadline_queue[k];
            assert(q.deadline_queue.contains(e));
            if eff != NO_DEADLINE && e == de {
                assert(e.0 == eff as u64);
                assert(store_lookup(q.messages, id) == m);
                if m.spec_is_best_effort() {
                    assert(eff == m.spec_deadline());
                }
            } else {
                assert(p.deadline_queue.contains(e));
                let k2 = choose|k2: int|
                    0 <= k2 < p.deadline_queue.len() && p.deadline_queue[k2] == e;
                assert(e.1 != id) by {
                    assert(raw_generation(p.deadline_queue[k2].1) < p.generator);
                }
                if store_contains_id(q.messages, e.1) {
                    assert(store_contains_id(p.messages, e.1));
                    assert(store_lookup(q.messages, e.1) == store_lookup(p.messages, e.1));
                }
            }
        }
    }

    // Load shedding queue invariants.
    assert(size_queue_ok(q)) by {
        assert forall|k: int| 0 <= k < q.size_queue.len() implies {
            &&& raw_generation((#[trigger] q.size_queue[k]).1) < q.generator
            &&& raw_is_best_effort(q.size_queue[k].1)
            &&& store_contains_id(q.messages, q.size_queue[k].1) ==> q.size_queue[k].0
                == store_lookup(q.messages, q.size_queue[k].1).spec_size_bytes() as u64
        } by {
            let e = q.size_queue[k];
            assert(q.size_queue.contains(e));
            if m.spec_is_best_effort() && e == se {
                assert(store_lookup(q.messages, id) == m);
            } else {
                assert(p.size_queue.contains(e));
                let k2 = choose|k2: int| 0 <= k2 < p.size_queue.len() && p.size_queue[k2] == e;
                assert(e.1 != id) by {
                    assert(raw_generation(p.size_queue[k2].1) < p.generator);
                }
                if store_contains_id(q.messages, e.1) {
                    assert(store_contains_id(p.messages, e.1));
                    assert(store_lookup(q.messages, e.1) == store_lookup(p.messages, e.1));
                }
            }
        }
        assert forall|k: int|
            0 <= k < q.messages.len() && (#[trigger] q.messages[k]).1.spec_is_best_effort()
                implies q.size_queue.contains(
            (q.messages[k].1.spec_size_bytes() as u64, q.messages[k].0),
        ) by {
            if k < p.messages.len() {
                assert(q.messages[k] == p.messages[k]);
                assert(p.size_queue.contains(
                    (p.messages[k].1.spec_size_bytes() as u64, p.messages[k].0),
                ));
            } else {
                assert(q.messages[k] == (id, m));
            }
        }
    }

    // Queue id membership, as the callers see it.
    assert forall|x: u64| #[trigger]
        entries_contain_id(q.deadline_queue, x) == (entries_contain_id(p.deadline_queue, x) || (
        eff != NO_DEADLINE && x == id)) by {
        if eff != NO_DEADLINE {
            if entries_contain_id(q.deadline_queue, x) {
                let k = choose|k: int|
                    0 <= k < q.deadline_queue.len() && q.deadline_queue[k].1 == x;
                assert(q.deadline_queue.contains(q.deadline_queue[k]));
                if q.deadline_queue[k] != de {
                    assert(p.deadline_queue.contains(q.deadline_queue[k]));
                    let k2 = choose|k2: int|
                        0 <= k2 < p.deadline_queue.len() && p.deadline_queue[k2]
                            == q.deadline_queue[k];
                    assert(p.deadline_queue[k2].1 == x);
                }
            }
            if entries_contain_id(p.deadline_queue, x) {
                let k = choose|k: int|
                    0 <= k < p.deadline_queue.len() && p.deadline_queue[k].1 == x;
                assert(p.deadline_queue.contains(p.deadline_queue[k]));
                assert(q.deadline_queue.contains(p.deadline_queue[k]));
                let k3 = choose|k3: int|
                    0 <= k3 < q.deadline_queue.len() && q.deadline_queue[k3]
                        == p.deadline_queue[k];
                assert(q.deadline_queue[k3].1 == x);
            }
            if x == id {
                assert(q.deadline_queue.contains(de));
                let k4 = choose|k4: int|
                    0 <= k4 < q.deadline_queue.len() && q.deadline_queue[k4] == de;
                assert(q.deadline_queue[k4].1 == x);
            }
        }
    }
    assert forall|x: u64| #[trigger]
        entries_contain_id(q.size_queue, x) == (entries_contain_id(p.size_queue, x) || (
        m.spec_is_best_effort() && x == id)) by {
        if m.spec_is_best_effort() {
            if entries_contain_id(q.size_queue, x) {
                let k = choose|k: int| 0 <= k < q.size_queue.len() && q.size_queue[k].1 == x;
                assert(q.size_queue.contains(q.size_queue[k]));
                if q.size_queue[k] != se {
                    assert(p.size_queue.contains(q.size_queue[k]));
                    let k2 = choose|k2: int|
                        0 <= k2 < p.size_queue.len() && p.size_queue[k2] == q.size_queue[k];
                    assert(p.size_queue[k2].1 == x);
                }
            }
            if entries_contain_id(p.size_queue, x) {
                let k = choose|k: int| 0 <= k < p.size_queue.len() && p.size_queue[k].1 == x;
                assert(p.size_queue.contains(p.size_queue[k]));
                assert(q.size_queue.contains(p.size_queue[k]));
                let k3 = choose|k3: int|
                    0 <= k3 < q.size_queue.len() && q.size_queue[k3] == p.size_queue[k];
                assert(q.size_queue[k3].1 == x);
            }
            if x == id {
                assert(q.size_queue.contains(se));
                let k4 = choose|k4: int| 0 <= k4 < q.size_queue.len() && q.size_queue[k4] == se;
                assert(q.size_queue[k4].1 == x);
            }
        }
    }
}

/// Reserving a placeholder only advances the generator, which weakens no
/// invariant, and the reserved id is fresh everywhere.
pub proof fn lemma_reserve_model_wf(p: PoolModel)
    requires
        pool_wf(p),
        p.generator < MAX_GENERATION,
    ensures
        ({
            let (q, id) = reserve_model(p);
            &&& pool_wf(q)
            &&& q.messages == p.messages
            &&& q.deadline_queue == p.deadline_queue
            &&& q.size_queue == p.size_queue
            &&& q.stats == p.stats
            &&& q.generator == p.generator + 1
            &&& raw_generation(id) == p.generator
            &&& raw_is_response(id)
            &&& !raw_is_outbound(id)
            &&& raw_is_best_effort(id)
            &&& !store_contains_id(p.messages, id)
            &&& !entries_contain_id(p.deadline_queue, id)
            &&& !entries_contain_id(p.size_queue, id)
        }),
{
    let flags = flags_value(Kind::Response, Context::Inbound, Class::BestEffort);
    let (q, id) = reserve_model(p);
    assert(flags < 8);
    lemma_compose_parts(flags, p.generator);
    lemma_flags_decompose(
        kind_bit(Kind::Response),
        context_bit(Context::Inbound) / 2,
        class_bit(Class::BestEffort) / 4,
        id,
    );
    assert(!store_contains_id(p.messages, id)) by {
        if store_contains_id(p.messages, id) {
            let k = choose|k: int| 0 <= k < p.messages.len() && p.messages[k].0 == id;
            assert(raw_generation(p.messages[k].0) < p.generator);
        }
    }
    assert(!entries_contain_id(p.deadline_queue, id)) by {
        if entries_contain_id(p.deadline_queue, id) {
            let k = choose|k: int| 0 <= k < p.deadline_queue.len() && p.deadline_queue[k].1 == id;
            assert(raw_generation(p.deadline_queue[k].1) < p.generator);
        }
    }
    assert(!entries_contain_id(p.size_queue, id)) by {
        if entries_contain_id(p.size_queue, id) {
            let k = choose|k: int| 0 <= k < p.size_queue.len() && p.size_queue[k].1 == id;
            assert(raw_generation(p.size_queue[k].1) < p.generator);
        }
    }
}

/// What fulfilling a placeholder guarantees: with a reserved id that is
/// still absent everywhere and a best-effort response for it, the new pool
/// is well formed with the message added to the store, the stats and the
/// load shedding queue, the deadline queue untouched.
pub proof fn lemma_replace_model_wf(p: PoolModel, id: u64, m: Message)
    requires
        pool_wf(p),
        m.spec_is_response(),
        m.spec_is_best_effort(),
        raw_is_response(id),
        raw_is_best_effort(id),
        raw_generation(id) < p.generator,
        !store_contains_id(p.messages, id),
        !entries_contain_id(p.deadline_queue, id),
        !entries_contain_id(p.size_queue, id),
    ensures
        ({
            let q = replace_model(p, id, m);
            &&& pool_wf(q)
            &&& q.messages.len() == p.messages.len() + 1
            &&& forall|x: u64| #[trigger]
                store_contains_id(q.messages, x) == (store_contains_id(p.messages, x) || x == id)
            &&& store_lookup(q.messages, id) == m
            &&& forall|x: u64|
                store_contains_id(p.messages, x) ==> #[trigger] store_lookup(q.messages, x)
                    == store_lookup(p.messages, x)
            &&& forall|x: u64| #[trigger]
                entries_contain_id(q.size_queue, x) == (entries_contain_id(p.size_queue, x) || x
                    == id)
            &&& !p.size_queue.contains((m.spec_size_bytes() as u64, id))
        }),
{
    let q = replace_model(p, id, m);
    lemma_store_insert_facts(p.messages, id, m);
    lemma_sum_stats_store_insert(p.messages, id, m);
    let se = (m.spec_size_bytes() as u64, id);
    assert(!p.size_queue.contains(se)) by {
        if p.size_queue.contains(se) {
            let k = choose|k: int| 0 <= k < p.size_queue.len() && p.size_queue[k] == se;
            assert(p.size_queue[k].1 == id);
        }
    }
    lemma_insert_entry_facts(p.size_queue, se);

    // Store invariants: each entry of the new store is an old entry or the
    // new one.
    assert(store_ok(q)) by {
        assert forall|k: int| 0 <= k < q.messages.len() implies {
            &&& raw_generation((#[trigger] q.messages[k]).0) < q.generator
            &&& raw_is_response(q.messages[k].0) == q.messages[k].1.spec_is_response()
            &&& raw_is_best_effort(q.messages[k].0) == q.messages[k].1.spec_is_best_effort()
        } by {
            let x = q.messages[k].0;
            crate::store::lemma_lookup_unique(q.messages, x, k, q.messages[k].1);
            if x == id {
                assert(q.messages[k].1 == m);
            } else {
                assert(store_contains_id(p.messages, x));
                let k2 = choose|k2: int| 0 <= k2 < p.messages.len() && p.messages[k2].0 == x;
                crate::store::lemma_lookup_unique(p.messages, x, k2, p.messages[k2].1);
                assert(q.messages[k].1 == p.messages[k2].1);
            }
        }
    }

    // Deadline queue: untouched; liveness of its entries is unchanged
    // because the reserved id was never recorded there.
    assert(deadline_queue_ok(q)) by {
        assert forall|k: int|
            0 <= k < q.deadline_queue.len() && store_contains_id(
                q.messages,
                (#[trigger] q.deadline_queue[k]).1,
            ) implies {
            let mm = store_lookup(q.messages, q.deadline_queue[k].1);
            if mm.spec_is_best_effort() {
                q.deadline_queue[k].0 == mm.spec_deadline()
            } else {
                !raw_is_response(q.deadline_queue[k].1) && raw_is_outbound(q.deadline_queue[k].1)
            }
        } by {
            let e = q.deadline_queue[k];
            assert(e.1 != id);
            assert(store_contains_id(p.messages, e.1));
            assert(store_lookup(q.messages, e.1) == store_lookup(p.messages, e.1));
        }
    }

    // Load shedding queue invariants.
    assert(size_queue_ok(q)) by {
        assert forall|k: int| 0 <= k < q.size_queue.len() implies {
            &&& raw_generation((#[trigger] q.size_queue[k]).1) < q.generator
            &&& raw_is_best_effort(q.size_queue[k].1)
            &&& store_contains_id(q.messages, q.size_queue[k].1) ==> q.size_queue[k].0
                == store_lookup(q.messages, q.size_queue[k].1).spec_size_bytes() as u64
        } by {
            let e = q.size_queue[k];
            assert(q.size_queue.contains(e));
            if e == se {
                assert(store_lookup(q.messages, id) == m);
            } else {
                assert(p.size_queue.contains(e));
                let k2 = choose|k2: int| 0 <= k2 < p.size_queue.len() && p.size_queue[k2] == e;
                assert(e.1 != id);
                if store_contains_id(q.messages, e.1) {
                    assert(store_contains_id(p.messages, e.1));
                    assert(store_lookup(q.messages, e.1) == store_lookup(p.messages, e.1));
                }
            }
        }
        assert forall|k: int|
            0 <= k < q.messages.len() && (#[trigger] q.messages[k]).1.spec_is_best_effort()
                implies q.size_queue.contains(
            (q.messages[k].1.spec_size_bytes() as u64, q.messages[k].0),
        ) by {
            let x = q.messages[k].0;
            crate::store::lemma_lookup_unique(q.messages, x, k, q.messages[k].1);
            if x == id {
                assert(q.messages[k].1 == m);
                assert(q.size_queue.contains(se));
            } else {
                assert(store_contains_id(p.messages, x));
                let k2 = choose|k2: int| 0 <= k2 < p.messages.len() && p.messages[k2].0 == x;
                crate::store::lemma_lookup_unique(p.messages, x, k2, p.messages[k2].1);
                assert(q.messages[k].1 == p.messages[k2].1);
                assert(p.size_queue.contains(
                    (p.messages[k2].1.spec_size_bytes() as u64, p.messages[k2].0),
                ));
                assert(q.size_queue.contains((q.messages[k].1.spec_size_bytes() as u64, x)));
            }
        }
    }

    // Membership of the load shedding queue by id.
    assert forall|x: u64| #[trigger]
        entries_contain_id(q.size_queue, x) == (entries_contain_id(p.size_queue, x) || x == id) by {
        if entries_contain_id(q.size_queue, x) {
            let k = choose|k: int| 0 <= k < q.size_queue.len() && q.size_queue[k].1 == x;
            assert(q.size_queue.contains(q.size_queue[k]));
            if q.size_queue[k] != se {
                assert(p.size_queue.contains(q.size_queue[k]));
                let k2 = choose|k2: int|
                    0 <= k2 < p.size_queue.len() && p.size_queue[k2] == q.size_queue[k];
                assert(p.size_queue[k2].1 == x);
            }
        }
        if entries_contain_id(p.size_queue, x) {
            let k = choose|k: int| 0 <= k < p.size_queue.len() && p.size_queue[k].1 == x;
            assert(p.size_queue.contains(p.size_queue[k]));
            assert(q.size_queue.contains(p.size_queue[k]));
            let k3 = choose|k3: int|
                0 <= k3 < q.size_queue.len() && q.size_queue[k3] == p.size_queue[k];
            assert(q.size_queue[k3].1 == x);
        }
        if x == id {
            assert(q.size_queue.contains(se));
            let k4 = choose|k4: int| 0 <= k4 < q.size_queue.len() && q.size_queue[k4] == se;
            assert(q.size_queue[k4].1 == x);
        }
    }
}

/// A helper for both queues after a removal: whether trimmed or not, the
/// resulting queue keeps its structural invariants against the smaller
/// store, stays within the bound, and holds only entries of the old queue.
pub proof fn lemma_trim_queue_wf(q: Seq<(u64, u64)>, store: Seq<(u64, Message)>)
    requires
        entries_sorted(q),
        entry_ids_distinct(q),
        ids_sorted(store),
    ensures
        entries_sorted(trim_queue(q, store)),
        entry_ids_distinct(trim_queue(q, store)),
        trim_queue(q, store).len() <= 2 * store.len() + 2,
        forall|x: (u64, u64)| #[trigger]
            trim_queue(q, store).contains(x) ==> q.contains(x),
        forall|x: (u64, u64)|
            q.contains(x) && store_contains_id(store, x.1) ==> #[trigger] trim_queue(
                q,
                store,
            ).contains(x),
        forall|x: u64| #[trigger]
            entries_contain_id(trim_queue(q, store), x) ==> entries_contain_id(q, x),
{
    lemma_live_entries_facts(q, store);
    lemma_live_entries_count(q, store);
    if q.len() > 2 * store.len() + 2 {
        assert forall|x: u64| #[trigger]
            entries_contain_id(trim_queue(q, store), x) implies entries_contain_id(q, x) by {
            let t = trim_queue(q, store);
            let k = choose|k: int| 0 <= k < t.len() && t[k].1 == x;
            assert(t.contains(t[k]));
        }
    }
}

/// What the take transition guarantees: a present id comes out with its
/// message, leaves a well-formed pool with that entry gone from the store
/// and the stats, and neither queue gains an entry; an absent id leaves
/// the pool untouched.
pub proof fn lemma_take_model_wf(p: PoolModel, id: u64)
    requires
        store_ok(p),
        stats_ok(p),
        deadline_queue_ok(p),
        size_queue_entries_ok(p),
        bounds_ok(p),
        forall|k: int|
            0 <= k < p.messages.len() && (#[trigger] p.messages[k]).1.spec_is_best_effort()
                && p.messages[k].0 != id ==> p.size_queue.contains(
                (p.messages[k].1.spec_size_bytes() as u64, p.messages[k].0),
            ),
    ensures
        ({
            let (q, r) = take_model(p, id);
            &&& pool_wf(q)
            &&& q.generator == p.generator
            &&& (r is Some <==> store_contains_id(p.messages, id))
            &&& store_contains_id(p.messages, id) ==> r == Some(store_lookup(p.messages, id))
                && q.messages.len() == p.messages.len() - 1
            &&& !store_contains_id(p.messages, id) ==> q == p
            &&& forall|x: u64| #[trigger]
                store_contains_id(q.messages, x) == (store_contains_id(p.messages, x) && !(r
                    is Some && x == id))
            &&& forall|x: u64|
                store_contains_id(q.messages, x) ==> #[trigger] store_lookup(q.messages, x)
                    == store_lookup(p.messages, x)
            &&& forall|x: u64| #[trigger]
                entries_contain_id(q.deadline_queue, x) ==> entries_contain_id(
                    p.deadline_queue,
                    x,
                )
            &&& forall|x: u64| #[trigger]
                entries_contain_id(q.size_queue, x) ==> entries_contain_id(p.size_queue, x)
        }),
{
    if !store_contains_id(p.messages, id) {
        assert(size_queue_complete(p)) by {
            assert forall|k: int|
                0 <= k < p.messages.len() && (#[trigger] p.messages[k]).1.spec_is_best_effort()
                    implies p.size_queue.contains(
                (p.messages[k].1.spec_size_bytes() as u64, p.messages[k].0),
            ) by {
                assert(p.messages[k].0 != id);
            }
        }
    } else {
        let (q, r) = take_model(p, id);
        let m = store_lookup(p.messages, id);
        let rest = store_remove(p.messages, id);
        lemma_store_remove_facts(p.messages, id);
        lemma_sum_stats_store_remove(p.messages, id);
        lemma_trim_queue_wf(p.deadline_queue, rest);
        lemma_trim_queue_wf(p.size_queue, rest);

        // Store invariants carry over entry by entry.
        assert(store_ok(q)) by {
            assert forall|k: int| 0 <= k < q.messages.len() implies {
                &&& raw_generation((#[trigger] q.messages[k]).0) < q.generator
                &&& raw_is_response(q.messages[k].0) == q.messages[k].1.spec_is_response()
                &&& raw_is_best_effort(q.messages[k].0) == q.messages[k].1.spec_is_best_effort()
            } by {
                let x = q.messages[k].0;
                crate::store::lemma_lookup_unique(q.messages, x, k, q.messages[k].1);
                assert(store_contains_id(p.messages, x));
                let k2 = choose|k2: int| 0 <= k2 < p.messages.len() && p.messages[k2].0 == x;
                crate::store::lemma_lookup_unique(p.messages, x, k2, p.messages[k2].1);
                assert(q.messages[k].1 == p.messages[k2].1);
            }
        }

        // Queue bounds hold in both the trimmed and the untrimmed branch.
        assert(bounds_ok(q)) by {
            if p.deadline_queue.len() <= 2 * rest.len() + 2 {
                assert(q.deadline_queue == p.deadline_queue);
            }
            if p.size_queue.len() <= 2 * rest.len() + 2 {
                assert(q.size_queue == p.size_queue);
            }
        }

        // Deadline queue invariants against the smaller store.
        assert(deadline_queue_ok(q)) by {
            assert forall|k: int| 0 <= k < q.deadline_queue.len() implies {
                &&& (#[trigger] q.deadline_queue[k]).0 != 0
                &&& raw_generation(q.deadline_queue[k].1) < q.generator
                &&& store_contains_id(q.messages, q.deadline_queue[k].1) ==> {
                    let mm = store_lookup(q.messages, q.deadline_queue[k].1);
                    if mm.spec_is_best_effort() {
                        q.deadline_queue[k].0 == mm.spec_deadline()
                    } else {
                        !raw_is_response(q.deadline_queue[k].1) && raw_is_outbound(
                            q.deadline_queue[k].1,
                        )
                    }
                }
            } by {
                let e = q.deadline_queue[k];
                assert(q.deadline_queue.contains(e));
                assert(p.deadline_queue.contains(e));
                let k2 = choose|k2: int| 0 <= k2 < p.deadline_queue.len() && p.deadline_queue[k2] == e;
                if store_contains_id(q.messages, e.1) {
                    assert(store_contains_id(p.messages, e.1));
                    assert(store_lookup(q.messages, e.1) == store_lookup(p.messages, e.1));
                }
            }
        }

        // Load shedding queue invariants against the smaller store.
        assert(size_queue_ok(q)) by {
            assert forall|k: int| 0 <= k < q.size_queue.len() implies {
                &&& raw_generation((#[trigger] q.size_queue[k]).1) < q.generator
                &&& raw_is_best_effort(q.size_queue[k].1)
                &&& store_contains_id(q.messages, q.size_queue[k].1) ==> q.size_queue[k].0
                    == store_lookup(q.messages, q.size_queue[k].1).spec_size_bytes() as u64
            } by {
                let e = q.size_queue[k];
                assert(q.size_queue.contains(e));
                assert(p.size_queue.contains(e));
                let k2 = choose|k2: int| 0 <= k2 < p.size_queue.len() && p.size_queue[k2] == e;
                if store_contains_id(q.messages, e.1) {
                    assert(store_contains_id(p.messages, e.1));
                    assert(store_lookup(q.messages, e.1) == store_lookup(p.messages, e.1));
                }
            }
            assert forall|k: int|
                0 <= k < q.messages.len() && (#[trigger] q.messages[k]).1.spec_is_best_effort()
                    implies q.size_queue.contains(
                (q.messages[k].1.spec_size_bytes() as u64, q.messages[k].0),
            ) by {
                let x = q.messages[k].0;
                crate::store::lemma_lookup_unique(q.messages, x, k, q.messages[k].1);
                assert(store_contains_id(p.messages, x) && x != id);
                let k2 = choose|k2: int| 0 <= k2 < p.messages.len() && p.messages[k2].0 == x;
                crate::store::lemma_lookup_unique(p.messages, x, k2, p.messages[k2].1);
                assert(q.messages[k].1 == p.messages[k2].1);
                let se = (p.messages[k2].1.spec_size_bytes() as u64, p.messages[k2].0);
                assert(p.size_queue.contains(se));
                assert(store_contains_id(rest, se.1));
                assert(q.size_queue.contains(se));
            }
        }
    }
}

/// Whether the expiration output carries the given id.
pub open spec fn out_has_id(out: Seq<(u64, Message)>, x: u64) -> bool {
    exists|k: int| 0 <= k < out.len() && out[k].0 == x
}

/// Whether the deadline queue holds the given id under a deadline
/// strictly before `t`.
pub open spec fn queued_before(p: PoolModel, t: u32, x: u64) -> bool {
    exists|j: int|
        0 <= j < p.deadline_queue.len() && (#[trigger] p.deadline_queue[j]).1 == x
            && p.deadline_queue[j].0 < t as u64
}

/// Dropping the head of the deadline queue preserves every invariant.
pub proof fn lemma_drop_deadline_head_wf(p: PoolModel)
    requires
        pool_wf(p),
        p.deadline_queue.len() > 0,
    ensures
        pool_wf(PoolModel { deadline_queue: p.deadline_queue.drop_first(), ..p }),
{
    let p1 = PoolModel { deadline_queue: p.deadline_queue.drop_first(), ..p };
    assert(forall|k: int|
        0 <= k < p1.deadline_queue.len() ==> #[trigger] p1.deadline_queue[k]
            == p.deadline_queue[k + 1]);
}

/// What the expiration transition guarantees: a well-formed pool with the
/// same generator; every output element was a live store message whose id
/// sat in the deadline queue under a deadline strictly before `t`; every
/// live deadline-queue entry strictly before `t` makes it into the output;
/// and the store afterwards holds exactly the messages that did not
/// expire, unchanged.
pub proof fn lemma_expire_model_wf(p: PoolModel, t: u32)
    requires
        pool_wf(p),
    ensures
        ({
            let (q, out) = expire_model(p, t);
            &&& pool_wf(q)
            &&& q.generator == p.generator
            &&& forall|k: int|
                0 <= k < out.len() ==> store_contains_id(p.messages, (#[trigger] out[k]).0)
                    && out[k].1 == store_lookup(p.messages, out[k].0)
            &&& forall|k: int|
                0 <= k < out.len() ==> queued_before(p, t, (#[trigger] out[k]).0)
            &&& forall|j: int|
                0 <= j < p.deadline_queue.len() && (#[trigger] p.deadline_queue[j]).0 < t as u64
                    && store_contains_id(p.messages, p.deadline_queue[j].1) ==> out_has_id(
                    out,
                    p.deadline_queue[j].1,
                )
            &&& forall|x: u64| #[trigger]
                store_contains_id(q.messages, x) == (store_contains_id(p.messages, x)
                    && !out_has_id(out, x))
            &&& forall|x: u64|
                store_contains_id(q.messages, x) ==> #[trigger] store_lookup(q.messages, x)
                    == store_lookup(p.messages, x)
            &&& forall|x: u64| #[trigger]
                entries_contain_id(q.deadline_queue, x) ==> entries_contain_id(
                    p.deadline_queue,
                    x,
                )
        }),
    decreases p.deadline_queue.len(),
{
    let (q, out) = expire_model(p, t);
    if p.deadline_queue.len() == 0 || p.deadline_queue[0].0 >= t as u64 {
        assert(out =~= Seq::<(u64, Message)>::empty());
        assert forall|j: int|
            0 <= j < p.deadline_queue.len() implies (#[trigger] p.deadline_queue[j]).0
            >= t as u64 by {
            if j > 0 {
                assert(crate::queue::entry_lt(p.deadline_queue[0], p.deadline_queue[j]));
            }
        }
    } else {
        let head = p.deadline_queue[0];
        let p1 = PoolModel { deadline_queue: p.deadline_queue.drop_first(), ..p };
        lemma_drop_deadline_head_wf(p);
        assert(forall|k: int|
            0 <= k < p1.deadline_queue.len() ==> #[trigger] p1.deadline_queue[k]
                == p.deadline_queue[k + 1]);
        if store_contains_id(p1.messages, head.1) {
            let m = store_lookup(p1.messages, head.1);
            let p2 = take_model(p1, head.1).0;
            lemma_take_model_wf(p1, head.1);
            lemma_trim_queue_len(p2.deadline_queue, p1.deadline_queue, p2.messages);
            lemma_expire_model_wf(p2, t);
            let (p3, rest) = expire_model(p2, t);
            assert(q == p3);
            assert(out =~= seq![(head.1, m)] + rest);
            assert(out[0] == (head.1, m));
            assert(forall|k: int| 1 <= k < out.len() ==> out[k] == rest[k - 1]);

            // Each output element resolves in the starting store under its
            // stored message, and its id sat in the queue before `t`.
            assert forall|k: int| 0 <= k < out.len() implies store_contains_id(
                p.messages,
                (#[trigger] out[k]).0,
            ) && out[k].1 == store_lookup(p.messages, out[k].0) by {
                if k >= 1 {
                    assert(store_contains_id(p2.messages, rest[k - 1].0));
                }
            }
            assert forall|k: int| 0 <= k < out.len() implies queued_before(
                p,
                t,
                (#[trigger] out[k]).0,
            ) by {
                if k == 0 {
                    assert(p.deadline_queue[0].1 == out[0].0 && p.deadline_queue[0].0 < t as u64);
                } else {
                    assert(queued_before(p2, t, rest[k - 1].0));
                    let j2 = choose|j2: int|
                        0 <= j2 < p2.deadline_queue.len() && (#[trigger] p2.deadline_queue[j2]).1
                            == rest[k - 1].0 && p2.deadline_queue[j2].0 < t as u64;
                    let e = p2.deadline_queue[j2];
                    assert(p2.deadline_queue.contains(e)) by {
                        assert(p2.deadline_queue[j2] == e);
                    }
                    assert(p1.deadline_queue.contains(e)) by {
                        if p1.deadline_queue.len() > 2 * p2.messages.len() + 2 {
                            lemma_live_entries_facts(p1.deadline_queue, p2.messages);
                        }
                    }
                    let j1 = choose|j1: int|
                        0 <= j1 < p1.deadline_queue.len() && p1.deadline_queue[j1] == e;
                    assert(p.deadline_queue[j1 + 1] == e);
                }
            }

            // Every live entry before `t` expires.
            assert forall|j: int|
                0 <= j < p.deadline_queue.len() && (#[trigger] p.deadline_queue[j]).0 < t as u64
                    && store_contains_id(p.messages, p.deadline_queue[j].1) implies out_has_id(
                out,
                p.deadline_queue[j].1,
            ) by {
                let e = p.deadline_queue[j];
                if j == 0 {
                    assert(out[0].0 == e.1);
                } else {
                    assert(e == p1.deadline_queue[j - 1]);
                    assert(e.1 != head.1);
                    assert(store_contains_id(p2.messages, e.1));
                    assert(p2.deadline_queue.contains(e)) by {
                        assert(p1.deadline_queue.contains(e)) by {
                            assert(p1.deadline_queue[j - 1] == e);
                        }
                        if p1.deadline_queue.len() > 2 * p2.messages.len() + 2 {
                            lemma_live_entries_facts(p1.deadline_queue, p2.messages);
                        }
                    }
                    let j2 = choose|j2: int|
                        0 <= j2 < p2.deadline_queue.len() && p2.deadline_queue[j2] == e;
                    assert(out_has_id(rest, e.1));
                    let k2 = choose|k2: int| 0 <= k2 < rest.len() && rest[k2].0 == e.1;
                    assert(out[k2 + 1].0 == e.1);
                }
            }

            // The store afterwards: everything but the expired ids, unchanged.
            assert forall|x: u64| #[trigger]
                store_contains_id(q.messages, x) == (store_contains_id(p.messages, x) && !out_has_id(
                    out,
                    x,
                )) by {
                if out_has_id(out, x) {
                    let k = choose|k: int| 0 <= k < out.len() && out[k].0 == x;
                    if k == 0 {
                        assert(!store_contains_id(p2.messages, x));
                    } else {
                        assert(out_has_id(rest, x)) by {
                            assert(rest[k - 1].0 == x);
                        }
                    }
                } else {
                    assert(!out_has_id(rest, x)) by {
                        if out_has_id(rest, x) {
                            let k = choose|k: int| 0 <= k < rest.len() && rest[k].0 == x;
                            assert(out[k + 1].0 == x);
                        }
                    }
                    assert(x != head.1) by {
                        if x == head.1 {
                            assert(out[0].0 == x);
                        }
                    }
                }
            }
            assert forall|x: u64| #[trigger]
                entries_contain_id(q.deadline_queue, x) implies entries_contain_id(
                p.deadline_queue,
                x,
            ) by {
                assert(entries_contain_id(p2.deadline_queue, x));
                assert(entries_contain_id(p1.deadline_queue, x));
                let j = choose|j: int| 0 <= j < p1.deadline_queue.len() && p1.deadline_queue[j].1 == x;
                assert(p.deadline_queue[j + 1].1 == x);
            }
        } else {
            lemma_expire_model_wf(p1, t);
            let (p3, rest) = expire_model(p1, t);
            assert(q == p3 && out == rest);
            assert forall|k: int| 0 <= k < out.len() implies queued_before(
                p,
                t,
                (#[trigger] out[k]).0,
            ) by {
                assert(queued_before(p1, t, out[k].0));
                let j1 = choose|j1: int|
                    0 <= j1 < p1.deadline_queue.len() && (#[trigger] p1.deadline_queue[j1]).1
                        == out[k].0 && p1.deadline_queue[j1].0 < t as u64;
                assert(p.deadline_queue[j1 + 1] == p1.deadline_queue[j1]);
            }
            assert forall|j: int|
                0 <= j < p.deadline_queue.len() && (#[trigger] p.deadline_queue[j]).0 < t as u64
                    && store_contains_id(p.messages, p.deadline_queue[j].1) implies out_has_id(
                out,
                p.deadline_queue[j].1,
            ) by {
                if j > 0 {
                    assert(p1.deadline_queue[j - 1] == p.deadline_queue[j]);
                }
            }
            assert forall|x: u64| #[trigger]
                entries_contain_id(q.deadline_queue, x) implies entries_contain_id(
                p.deadline_queue,
                x,
            ) by {
                assert(entries_contain_id(p1.deadline_queue, x));
                let j = choose|j: int| 0 <= j < p1.deadline_queue.len() && p1.deadline_queue[j].1 == x;
                assert(p.deadline_queue[j + 1].1 == x);
            }
        }
    }
}

/// Whether the store holds any best-effort message.
pub open spec fn has_best_effort(store: Seq<(u64, Message)>) -> bool {
    exists|k: int| 0 <= k < store.len() && (#[trigger] store[k]).1.spec_is_best_effort()
}

/// What the load shedding transition guarantees: it returns a message
/// exactly when the pool holds a best-effort one, and then it is the
/// largest best-effort message (ties broken by the larger id), removed
/// from a pool that stays well formed; without best-effort messages the
/// pool keeps its store and stats and merely empties the stale queue.
pub proof fn lemma_shed_model_wf(p: PoolModel)
    requires
        pool_wf(p),
    ensures
        ({
            let (q, r) = shed_model(p);
            &&& pool_wf(q)
            &&& q.generator == p.generator
            &&& forall|x: u64| #[trigger]
                entries_contain_id(q.deadline_queue, x) ==> entries_contain_id(
                    p.deadline_queue,
                    x,
                )
            &&& (r is Some <==> has_best_effort(p.messages))
            &&& (r is None ==> q.messages == p.messages && q.stats == p.stats
                && q.deadline_queue == p.deadline_queue)
            &&& (r matches Some((id, m)) ==> {
                &&& store_contains_id(p.messages, id)
                &&& m == store_lookup(p.messages, id)
                &&& m.spec_is_best_effort()
                &&& raw_is_best_effort(id)
                &&& forall|k: int|
                    0 <= k < p.messages.len() && (#[trigger] p.messages[k]).1.spec_is_best_effort()
                        ==> (p.messages[k].0 == id || crate::queue::entry_lt(
                        (p.messages[k].1.spec_size_bytes() as u64, p.messages[k].0),
                        (m.spec_size_bytes() as u64, id),
                    ))
                &&& forall|x: u64| #[trigger]
                    store_contains_id(q.messages, x) == (store_contains_id(p.messages, x) && x
                        != id)
                &&& forall|x: u64|
                    store_contains_id(q.messages, x) ==> #[trigger] store_lookup(q.messages, x)
                        == store_lookup(p.messages, x)
            })
        }),
    decreases p.size_queue.len(),
{
    let (q, r) = shed_model(p);
    if p.size_queue.len() == 0 {
        assert(!has_best_effort(p.messages)) by {
            if has_best_effort(p.messages) {
                let k = choose|k: int|
                    0 <= k < p.messages.len() && (#[trigger] p.messages[k]).1.spec_is_best_effort();
                assert(p.size_queue.contains(
                    (p.messages[k].1.spec_size_bytes() as u64, p.messages[k].0),
                ));
            }
        }
    } else {
        let tail = p.size_queue.last();
        let p1 = PoolModel { size_queue: p.size_queue.drop_last(), ..p };
        assert(forall|k: int|
            0 <= k < p1.size_queue.len() ==> #[trigger] p1.size_queue[k] == p.size_queue[k]);
        if store_contains_id(p1.messages, tail.1) {
            let m = store_lookup(p1.messages, tail.1);
            let id = tail.1;
            assert(tail.0 == m.spec_size_bytes() as u64) by {
                assert(p.size_queue[p.size_queue.len() - 1] == tail);
            }
            assert(raw_is_best_effort(id)) by {
                assert(p.size_queue[p.size_queue.len() - 1] == tail);
            }
            assert(m.spec_is_best_effort()) by {
                let k = choose|k: int| 0 <= k < p.messages.len() && p.messages[k].0 == id;
                crate::store::lemma_lookup_unique(p.messages, id, k, p.messages[k].1);
            }
            assert(has_best_effort(p.messages)) by {
                let k = choose|k: int| 0 <= k < p.messages.len() && p.messages[k].0 == id;
                crate::store::lemma_lookup_unique(p.messages, id, k, p.messages[k].1);
            }
            // The popped live entry is the queue's maximum, so its message is
            // the largest best-effort message.
            assert forall|k: int|
                0 <= k < p.messages.len() && (#[trigger] p.messages[k]).1.spec_is_best_effort()
                    implies (p.messages[k].0 == id || crate::queue::entry_lt(
                (p.messages[k].1.spec_size_bytes() as u64, p.messages[k].0),
                (m.spec_size_bytes() as u64, id),
            )) by {
                let e = (p.messages[k].1.spec_size_bytes() as u64, p.messages[k].0);
                assert(p.size_queue.contains(e));
                let j = choose|j: int| 0 <= j < p.size_queue.len() && p.size_queue[j] == e;
                if j < p.size_queue.len() - 1 {
                    assert(crate::queue::entry_lt(p.size_queue[j], tail));
                } else {
                    assert(e == tail);
                    assert(p.messages[k].0 == id);
                }
            }
            // Taking the message leaves a well-formed pool: every other
            // best-effort message keeps its queue entry.
            assert forall|k: int|
                0 <= k < p1.messages.len() && (#[trigger] p1.messages[k]).1.spec_is_best_effort()
                    && p1.messages[k].0 != id implies p1.size_queue.contains(
                (p1.messages[k].1.spec_size_bytes() as u64, p1.messages[k].0),
            ) by {
                let e = (p1.messages[k].1.spec_size_bytes() as u64, p1.messages[k].0);
                assert(p.size_queue.contains(e));
                let j = choose|j: int| 0 <= j < p.size_queue.len() && p.size_queue[j] == e;
                if j == p.size_queue.len() - 1 {
                    assert(e == tail);
                } else {
                    assert(p1.size_queue[j] == e);
                }
            }
            lemma_take_model_wf(p1, id);
        } else {
            // A stale tail: dropping it preserves every invariant, in
            // particular completeness, since live entries sit further down.
            assert(size_queue_complete(p1)) by {
                assert forall|k: int|
                    0 <= k < p1.messages.len() && (#[trigger] p1.messages[k]).1.spec_is_best_effort()
                        implies p1.size_queue.contains(
                    (p1.messages[k].1.spec_size_bytes() as u64, p1.messages[k].0),
                ) by {
                    let e = (p1.messages[k].1.spec_size_bytes() as u64, p1.messages[k].0);
                    assert(p.size_queue.contains(e));
                    let j = choose|j: int| 0 <= j < p.size_queue.len() && p.size_queue[j] == e;
                    if j == p.size_queue.len() - 1 {
                        assert(store_contains_id(p1.messages, tail.1)) by {
                            crate::store::lemma_lookup_unique(
                                p1.messages,
                                p1.messages[k].0,
                                k,
                                p1.messages[k].1,
                            );
                        }
                    } else {
                        assert(p1.size_queue[j] == e);
                    }
                }
            }
            lemma_shed_model_wf(p1);
        }
    }
}

/// The deadline under which the queue holds the given id (meaningful only
/// when present).
pub open spec fn entry_key(q: Seq<(u64, u64)>, id: u64) -> u64 {
    q[choose|j: int| 0 <= j < q.len() && q[j].1 == id].0
}

/// With distinct ids, any entry carrying the id settles its key.
pub proof fn lemma_entry_key_unique(q: Seq<(u64, u64)>, id: u64, j: int)
    requires
        entry_ids_distinct(q),
        0 <= j < q.len(),
        q[j].1 == id,
    ensures
        entries_contain_id(q, id),
        entry_key(q, id) == q[j].0,
{
    let j2 = choose|j2: int| 0 <= j2 < q.len() && q[j2].1 == id;
    if j2 != j {
        if j2 < j {
            assert(q[j2].1 != q[j].1);
        } else {
            assert(q[j].1 != q[j2].1);
        }
    }
}

/// The expiration output is ordered: of two expired messages, the earlier
/// one sat in the deadline queue under the strictly smaller
/// `(deadline, id)` pair — earliest deadline first, ties broken by
/// ascending id.
pub proof fn lemma_expire_output_ordered(p: PoolModel, t: u32)
    requires
        pool_wf(p),
    ensures
        ({
            let out = expire_model(p, t).1;
            forall|j: int, k: int|
                0 <= j < k < out.len() ==> crate::queue::entry_lt(
                    (entry_key(p.deadline_queue, (#[trigger] out[j]).0), out[j].0),
                    (entry_key(p.deadline_queue, (#[trigger] out[k]).0), out[k].0),
                )
        }),
    decreases p.deadline_queue.len(),
{
    let out = expire_model(p, t).1;
    lemma_expire_model_wf(p, t);
    if p.deadline_queue.len() == 0 || p.deadline_queue[0].0 >= t as u64 {
        // Nothing expires.
    } else {
        let head = p.deadline_queue[0];
        let p1 = PoolModel { deadline_queue: p.deadline_queue.drop_first(), ..p };
        lemma_drop_deadline_head_wf(p);
        assert(forall|i: int|
            0 <= i < p1.deadline_queue.len() ==> #[trigger] p1.deadline_queue[i]
                == p.deadline_queue[i + 1]);
        if store_contains_id(p1.messages, head.1) {
            let p2 = take_model(p1, head.1).0;
            lemma_take_model_wf(p1, head.1);
            lemma_trim_queue_len(p2.deadline_queue, p1.deadline_queue, p2.messages);
            lemma_expire_model_wf(p2, t);
            lemma_expire_output_ordered(p2, t);
            let rest = expire_model(p2, t).1;
            assert(out[0] == (head.1, store_lookup(p1.messages, head.1)));
            assert(forall|k: int| 1 <= k < out.len() ==> out[k] == rest[k - 1]);

            // Each later output id keeps, in the full queue, the entry
            // it had in the smaller queue, strictly above the head.
            assert forall|k: int| 1 <= k < out.len() implies {
                &&& entries_contain_id(p.deadline_queue, out[k].0)
                &&& entry_key(p.deadline_queue, out[k].0) == entry_key(
                    p2.deadline_queue,
                    out[k].0,
                )
                &&& crate::queue::entry_lt(
                    head,
                    (entry_key(p.deadline_queue, out[k].0), out[k].0),
                )
            } by {
                assert(queued_before(p2, t, rest[k - 1].0));
                let j2 = choose|j2: int|
                    0 <= j2 < p2.deadline_queue.len() && (#[trigger] p2.deadline_queue[j2]).1
                        == rest[k - 1].0 && p2.deadline_queue[j2].0 < t as u64;
                let e = p2.deadline_queue[j2];
                lemma_entry_key_unique(p2.deadline_queue, out[k].0, j2);
                assert(p1.deadline_queue.contains(e)) by {
                    assert(p2.deadline_queue.contains(e));
                    if p1.deadline_queue.len() > 2 * p2.messages.len() + 2 {
                        lemma_live_entries_facts(p1.deadline_queue, p2.messages);
                    }
                }
                let j1 = choose|j1: int|
                    0 <= j1 < p1.deadline_queue.len() && p1.deadline_queue[j1] == e;
                assert(p.deadline_queue[j1 + 1] == e);
                lemma_entry_key_unique(p.deadline_queue, out[k].0, j1 + 1);
                assert(crate::queue::entry_lt(p.deadline_queue[0], p.deadline_queue[j1 + 1]));
            }
            lemma_entry_key_unique(p.deadline_queue, head.1, 0);
            assert forall|j: int, k: int| 0 <= j < k < out.len() implies crate::queue::entry_lt(
                (entry_key(p.deadline_queue, (#[trigger] out[j]).0), out[j].0),
                (entry_key(p.deadline_queue, (#[trigger] out[k]).0), out[k].0),
            ) by {
                if j == 0 {
                    assert((entry_key(p.deadline_queue, out[0].0), out[0].0) == head);
                } else {
                    assert(crate::queue::entry_lt(
                        (entry_key(p2.deadline_queue, out[j].0), out[j].0),
                        (entry_key(p2.deadline_queue, out[k].0), out[k].0),
                    ));
                }
            }
        } else {
            lemma_expire_model_wf(p1, t);
            lemma_expire_output_ordered(p1, t);
            assert(out == expire_model(p1, t).1);

            // The keys agree between the full queue and the one with
            // its stale head dropped.
            assert forall|k: int| 0 <= k < out.len() implies entry_key(
                p.deadline_queue,
                (#[trigger] out[k]).0,
            ) == entry_key(p1.deadline_queue, out[k].0) by {
                assert(queued_before(p1, t, out[k].0));
                let j1 = choose|j1: int|
                    0 <= j1 < p1.deadline_queue.len() && (#[trigger] p1.deadline_queue[j1]).1
                        == out[k].0 && p1.deadline_queue[j1].0 < t as u64;
                lemma_entry_key_unique(p1.deadline_queue, out[k].0, j1);
                assert(p.deadline_queue[j1 + 1] == p1.deadline_queue[j1]);
                lemma_entry_key_unique(p.deadline_queue, out[k].0, j1 + 1);
            }
        }
    }
}

} // verus!

use message_pool::message::MAX_RESPONSE_COUNT_BYTES;
use message_pool::message::Message;
use message_pool::pool::MessagePool;

fn secs(s: u64) -> u64 {
    s * 1_000_000_000
}

fn be_request(deadline: u32, size_bytes: usize) -> Message {
    Message::Request { deadline, size_bytes }
}

fn gr_request(size_bytes: usize) -> Message {
    Message::Request { deadline: 0, size_bytes }
}

fn be_response(deadline: u32, size_bytes: usize) -> Message {
    Message::Response { deadline, size_bytes }
}

fn gr_response(size_bytes: usize) -> Message {
    Message::Response { deadline: 0, size_bytes }
}

#[test]
fn expire_single_best_effort_inbound_request() {
    let mut pool = MessagePool::new();
    let id = pool.insert_inbound(be_request(10, 100));
    assert!(id.is_best_effort());
    assert!(!id.is_response());
    assert!(!id.is_outbound());

    assert!(!pool.has_expired_deadlines(secs(9)));
    assert!(pool.has_expired_deadlines(secs(11)));

    let expired = pool.expire_messages(secs(11));
    assert_eq!(expired.len(), 1);
    assert_eq!(expired[0].0, id);
    assert_eq!(expired[0].1, be_request(10, 100));

    assert_eq!(pool.len(), 0);
    let stats = pool.memory_usage_stats();
    assert_eq!(stats.best_effort_message_bytes, 0);
    assert_eq!(stats.guaranteed_responses_size_bytes, 0);
    assert_eq!(stats.oversized_guaranteed_requests_extra_bytes, 0);
    assert_eq!(stats.size_bytes, 0);
}

#[test]
fn guaranteed_inbound_response_in_neither_queue() {
    let mut pool = MessagePool::new();
    let id = pool.insert_inbound(gr_response(500));
    assert!(id.is_response());
    assert!(!id.is_best_effort());

    assert_eq!(pool.deadline_queue_len(), 0);
    assert_eq!(pool.size_queue_len(), 0);

    assert!(pool.shed_largest_message().is_none());
    assert!(pool.expire_messages(u64::MAX).is_empty());
    assert_eq!(pool.len(), 1);
    assert_eq!(pool.memory_usage_stats().guaranteed_responses_size_bytes, 500);
    assert_eq!(pool.memory_usage_stats().size_bytes, 500);
}

#[test]
fn outbound_guaranteed_request_expires_after_lifetime() {
    let mut pool = MessagePool::new();
    let size = MAX_RESPONSE_COUNT_BYTES + 7;
    let id = pool.insert_outbound_request(gr_request(size), 0);
    assert!(id.is_outbound());
    assert!(!id.is_response());
    assert!(!id.is_best_effort());

    assert_eq!(pool.memory_usage_stats().oversized_guaranteed_requests_extra_bytes, 7);

    assert!(pool.expire_messages(secs(299)).is_empty());
    let expired = pool.expire_messages(secs(301));
    assert_eq!(expired.len(), 1);
    assert_eq!(expired[0].0, id);
    assert_eq!(expired[0].1, gr_request(size));
    assert_eq!(pool.memory_usage_stats().oversized_guaranteed_requests_extra_bytes, 0);
    assert_eq!(pool.len(), 0);
}

#[test]
fn shed_returns_largest_first() {
    let mut pool = MessagePool::new();
    let id_small = pool.insert_outbound_response(be_response(1000, 10));
    let id_large = pool.insert_outbound_response(be_response(1000, 300));
    let id_mid = pool.insert_outbound_response(be_response(1000, 50));

    let (id1, m1) = pool.shed_largest_message().unwrap();
    assert_eq!(id1, id_large);
    assert_eq!(m1, be_response(1000, 300));

    let (id2, m2) = pool.shed_largest_message().unwrap();
    assert_eq!(id2, id_mid);
    assert_eq!(m2, be_response(1000, 50));

    let (id3, m3) = pool.shed_largest_message().unwrap();
    assert_eq!(id3, id_small);
    assert_eq!(m3, be_response(1000, 10));

    assert!(pool.shed_largest_message().is_none());
    assert_eq!(pool.len(), 0);
}

#[test]
fn shed_breaks_size_ties_by_newest_id() {
    let mut pool = MessagePool::new();
    let id_old = pool.insert_outbound_response(be_response(1000, 64));
    let id_new = pool.insert_outbound_response(be_response(2000, 64));

    let (first, _) = pool.shed_largest_message().unwrap();
    assert_eq!(first, id_new);
    let (second, _) = pool.shed_largest_message().unwrap();
    assert_eq!(second, id_old);
}

#[test]
fn placeholder_reserves_id_and_is_fulfilled_once() {
    let mut pool = MessagePool::new();
    let placeholder = pool.insert_inbound_timeout_response();
    let reserved = placeholder.id();
    assert!(reserved.is_response());
    assert!(!reserved.is_outbound());
    assert!(reserved.is_best_effort());
    assert_eq!(pool.len(), 0);

    let a = pool.insert_inbound(gr_request(11));
    let b = pool.insert_inbound(gr_response(22));
    assert!(reserved < a);
    assert!(a < b);

    let dq_before = pool.deadline_queue_len();
    let sq_before = pool.size_queue_len();
    pool.replace_inbound_timeout_response(placeholder, be_response(77, 42));
    assert_eq!(pool.deadline_queue_len(), dq_before);
    assert_eq!(pool.size_queue_len(), sq_before + 1);

    let got = pool.get(reserved).unwrap();
    assert_eq!(*got, be_response(77, 42));
    assert_eq!(pool.len(), 3);
}

#[test]
fn queues_are_compacted_after_takes() {
    let mut pool = MessagePool::new();
    let mut ids = Vec::new();
    for k in 0..10u32 {
        ids.push(pool.insert_inbound(be_request(100 + k, 10 + k as usize)));
    }
    assert_eq!(pool.deadline_queue_len(), 10);
    assert_eq!(pool.size_queue_len(), 10);

    for id in ids.iter().take(9) {
        assert!(pool.take(*id).is_some());
    }
    assert_eq!(pool.len(), 1);
    assert!(pool.deadline_queue_len() <= 4);
    assert!(pool.size_queue_len() <= 4);

    // The one message left is still there, untouched.
    assert!(pool.get(ids[9]).is_some());
}

#[test]
fn oversized_request_accounting_edge() {
    let mut pool = MessagePool::new();
    pool.insert_inbound(gr_request(MAX_RESPONSE_COUNT_BYTES));
    assert_eq!(pool.memory_usage_stats().oversized_guaranteed_requests_extra_bytes, 0);

    pool.insert_inbound(gr_request(MAX_RESPONSE_COUNT_BYTES + 1));
    assert_eq!(pool.memory_usage_stats().oversized_guaranteed_requests_extra_bytes, 1);

    let usage = pool.memory_usage_stats().memory_usage();
    assert_eq!(usage, 1);
}

#[test]
fn stats_match_recomputation_at_every_step() {
    let mut pool = MessagePool::new();
    let check = |pool: &MessagePool| {
        let recomputed = pool.calculate_memory_usage_stats();
        assert_eq!(recomputed, *pool.memory_usage_stats());
    };
    check(&pool);
    let a = pool.insert_inbound(be_request(5, 100));
    check(&pool);
    pool.insert_outbound_request(gr_request(MAX_RESPONSE_COUNT_BYTES + 9), secs(1));
    check(&pool);
    pool.insert_outbound_response(be_response(9, 250));
    check(&pool);
    pool.take(a);
    check(&pool);
    pool.expire_messages(secs(7));
    check(&pool);
    pool.shed_largest_message();
    check(&pool);
    let placeholder = pool.insert_inbound_timeout_response();
    check(&pool);
    pool.replace_inbound_timeout_response(placeholder, be_response(3, 17));
    check(&pool);
}

#[test]
fn ids_strictly_increase() {
    let mut pool = MessagePool::new();
    let mut last = pool.insert_inbound(be_request(5, 10));
    for k in 0..20u32 {
        let id = if k % 3 == 0 {
            pool.insert_inbound(gr_response(40))
        } else if k % 3 == 1 {
            pool.insert_outbound_request(be_request(9, 30), secs(2))
        } else {
            pool.insert_inbound_timeout_response().id()
        };
        assert!(last < id);
        last = id;
    }
}

#[test]
fn get_and_take_round_trip() {
    let mut pool = MessagePool::new();
    let m = be_request(44, 123);
    let id = pool.insert_inbound(m);

    assert_eq!(*pool.get(id).unwrap(), m);
    assert_eq!(*pool.get_request(id).unwrap(), m);

    let taken = pool.take(id).unwrap();
    assert_eq!(taken, m);

    assert!(pool.take(id).is_none());
    assert!(pool.get(id).is_none());
}

#[test]
fn get_response_sees_responses() {
    let mut pool = MessagePool::new();
    let id = pool.insert_outbound_response(be_response(9, 33));
    assert!(id.is_response());
    assert_eq!(*pool.get_response(id).unwrap(), be_response(9, 33));
}

#[test]
fn replaying_the_same_operations_gives_equal_pools() {
    let run = || {
        let mut pool = MessagePool::new();
        pool.insert_inbound(be_request(10, 100));
        pool.insert_outbound_request(gr_request(2048), secs(3));
        pool.insert_outbound_response(be_response(20, 300));
        let placeholder = pool.insert_inbound_timeout_response();
        pool.replace_inbound_timeout_response(placeholder, be_response(30, 42));
        pool.expire_messages(secs(15));
        pool.shed_largest_message();
        pool
    };
    let pool1 = run();
    let pool2 = run();
    assert!(pool1 == pool2);

    let mut pool3 = run();
    pool3.insert_inbound(gr_response(1));
    assert!(pool1 != pool3);
}

#[test]
fn no_deadline_messages_never_expire() {
    let mut pool = MessagePool::new();
    // Effective deadline NO_DEADLINE: an inbound best-effort response, an
    // inbound guaranteed-response request and an outbound guaranteed
    // response.
    let a = pool.insert_inbound(be_response(10, 60));
    let b = pool.insert_inbound(gr_request(70));
    let c = pool.insert_outbound_response(gr_response(80));

    let expired = pool.expire_messages(u64::MAX);
    assert!(expired.is_empty());
    assert!(pool.get(a).is_some());
    assert!(pool.get(b).is_some());
    assert!(pool.get(c).is_some());
}

#[test]
fn guaranteed_messages_are_never_shed() {
    let mut pool = MessagePool::new();
    pool.insert_inbound(gr_request(5000));
    pool.insert_outbound_response(gr_response(9000));
    pool.insert_outbound_request(gr_request(1234), secs(1));

    assert!(pool.shed_largest_message().is_none());
    assert_eq!(pool.len(), 3);
}

#[test]
fn no_expired_hint_means_empty_expiration() {
    let mut pool = MessagePool::new();
    pool.insert_inbound(be_request(50, 10));
    pool.insert_outbound_response(be_response(60, 20));

    let now = secs(40);
    assert!(!pool.has_expired_deadlines(now));
    let before_len = pool.len();
    assert!(pool.expire_messages(now).is_empty());
    assert_eq!(pool.len(), before_len);
}

#[test]
fn expiration_returns_earliest_deadline_first() {
    let mut pool = MessagePool::new();
    let late = pool.insert_inbound(be_request(30, 1));
    let early = pool.insert_inbound(be_request(10, 2));
    let mid = pool.insert_inbound(be_request(20, 3));

    let expired = pool.expire_messages(secs(100));
    let ids: Vec<_> = expired.iter().map(|e| e.0).collect();
    assert_eq!(ids, vec![early, mid, late]);
}

#[test]
fn expiration_boundary_is_strict() {
    let mut pool = MessagePool::new();
    pool.insert_inbound(be_request(10, 1));
    // A deadline equal to floor(now) has not yet expired.
    assert!(!pool.has_expired_deadlines(secs(10)));
    assert!(pool.expire_messages(secs(10)).is_empty());
    assert_eq!(pool.len(), 1);
}

#[test]
fn stale_entries_are_skipped_on_observation() {
    let mut pool = MessagePool::new();
    let a = pool.insert_outbound_response(be_response(10, 500));
    let b = pool.insert_outbound_response(be_response(20, 100));
    // Taking leaves both queue entries stale for `a`.
    assert!(pool.take(a).is_some());

    let (id, _) = pool.shed_largest_message().unwrap();
    assert_eq!(id, b);
    assert!(pool.shed_largest_message().is_none());
}

#[test]
fn len_and_default_pool() {
    let pool = MessagePool::default();
    assert_eq!(pool.len(), 0);
    assert_eq!(pool.deadline_queue_len(), 0);
    assert_eq!(pool.size_queue_len(), 0);
    let other = MessagePool::new();
    assert!(pool == other);
}

#[test]
fn cloned_pool_is_equal_until_it_diverges() {
    let mut pool = MessagePool::new();
    pool.insert_inbound(be_request(10, 100));
    pool.insert_outbound_response(be_response(20, 300));

    let mut copy = pool.clone();
    assert!(pool == copy);

    copy.shed_largest_message();
    assert!(pool != copy);
}

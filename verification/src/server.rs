//! The first version of the service's routes: one item per enqueue, the
//! deduplication id given in the query, and an information route.

use vstd::prelude::*;
use crate::json::{json_is_object, json_text_is_object};
use crate::queue::{Queue, QueueView};
use crate::reply::{failure, is_failure, is_success, payload_of, success, Payload, Reply};
use crate::routes::{opened, DEFAULT_TIME};
use crate::store::{
    has_queue, keeps_queues, lemma_index_unique, lemma_keeps_refl, lemma_keeps_trans, queue_index, queue_named,
    store_wf, QueueStore,
};
use crate::text::{flag_is_on, flag_on, opt_text};

verus! {

/// What the service reports about itself.
#[derive(Clone, Debug, PartialEq, Eq)]
pub struct ServerInfo {
    pub name: String,
    pub version: String,
    pub uptime_ms: u64,
    pub uptime_secs: u64,
    pub started_at: u64,
}

/// The service's report at time `now` (seconds), having run `uptime_secs`
/// seconds.
pub fn server_info(now: u64, uptime_secs: u64) -> (r: ServerInfo)
    requires
        uptime_secs * 1000 <= u64::MAX,
        uptime_secs <= now,
    ensures
        r.name@ == "Corinth"@,
        r.version@ == "0.0.1"@,
        r.uptime_secs == uptime_secs,
        r.uptime_ms == uptime_secs * 1000,
        r.started_at == now - uptime_secs,
{
    ServerInfo {
        name: "Corinth".to_owned(),
        version: "0.0.1".to_owned(),
        uptime_ms: uptime_secs * 1000,
        uptime_secs,
        started_at: now - uptime_secs,
    }
}

/// The optional deduplication id as a string.
fn owned_opt(p: Option<&str>) -> (r: Option<String>)
    ensures
        match r {
            Some(s) => opt_text(p) == Some(s@),
            None => p is None,
        },
{
    match p {
        Some(t) => Some(t.to_owned()),
        None => None,
    }
}

/// The deduplication id that a request gives, once it is a string.
pub open spec fn dedup_matches(d: Option<String>, p: Option<Seq<char>>) -> bool {
    match d {
        Some(s) => p == Some(s@),
        None => p is None,
    }
}

/// The queue has seen this deduplication id.
pub open spec fn seen_dedup(q: QueueView, d: Option<Seq<char>>) -> bool {
    match d {
        Some(t) => q.dedup_ids.contains(t),
        None => false,
    }
}

/// Answers a request to enqueue one item (JSON text `item`) into the queue
/// named `queue_name`, with the deduplication id `deduplication_id`. A
/// missing queue is created, not persistent and with the default times,
/// when `create_queue` reads `true`.
pub fn enqueue_item(
    store: &mut QueueStore,
    queue_name: &str,
    item: &String,
    create_queue: Option<&str>,
    deduplication_id: Option<&str>,
    now: u64,
) -> (r: Reply)
    requires
        has_queue(old(store)@, queue_name@) ==> queue_named(old(store)@, queue_name@).next_id < u64::MAX
            || seen_dedup(queue_named(old(store)@, queue_name@), opt_text(deduplication_id)),
    ensures
        store_wf(final(store)@),
        keeps_queues(old(store)@, final(store)@),
        json_text_is_object(item@) && has_queue(old(store)@, queue_name@) && seen_dedup(
            queue_named(old(store)@, queue_name@),
            opt_text(deduplication_id),
        ) ==> is_success(r, 202, "Message has been discarded"@) && queue_named(final(store)@, queue_name@).items
            == queue_named(old(store)@, queue_name@).items,
        (r is Success && opt_text(deduplication_id) is Some) ==> has_queue(final(store)@, queue_name@) && seen_dedup(
            queue_named(final(store)@, queue_name@),
            opt_text(deduplication_id),
        ),
        !json_text_is_object(item@) ==> is_failure(r, 400, "body.item is required to be of type 'object'"@)
            && final(store)@ == old(store)@,
        json_text_is_object(item@) && !has_queue(old(store)@, queue_name@) && !flag_on(opt_text(create_queue))
            ==> is_failure(r, 404, "Queue not found"@) && final(store)@ == old(store)@,
        json_text_is_object(item@) && (has_queue(old(store)@, queue_name@) || flag_on(opt_text(create_queue)))
            ==> {
            let base = opened(old(store)@, queue_name@, false, now);
            let i = queue_index(base, queue_name@);
            let q = base[i];
            exists|d: Option<String>|
                #![trigger q.after_enqueue(*item, d, now)]
                {
                    &&& dedup_matches(d, opt_text(deduplication_id))
                    &&& final(store)@ == base.update(i, q.after_enqueue(*item, d, now))
                    &&& match q.enqueue_reply(*item, d, now) {
                        Some(m) => is_success(r, 201, "Message has been enqueued"@) && payload_of(r)
                            == Payload::Item(Some(m)),
                        None => is_success(r, 202, "Message has been discarded"@) && payload_of(r)
                            == Payload::Nothing,
                    }
                }
        },
{
    proof {
        use_type_invariant(&*store);
    }
    if !json_is_object(item.as_str()) {
        return failure(400, "body.item is required to be of type 'object'");
    }
    let create = flag_is_on(create_queue);
    let ghost s0 = store@;
    proof {
        lemma_keeps_refl(s0);
    }
    let found = store.find(queue_name);
    let i = match found {
        Some(i) => i,
        None => {
            if !create {
                return failure(404, "Queue not found");
            }
            let q = Queue::new(queue_name.to_owned(), DEFAULT_TIME, DEFAULT_TIME, false, now);
            store.insert(q);
            let i = store.len() - 1;
            proof {
                lemma_index_unique(store@, i as int);
            }
            i
        },
    };
    let ghost base = store@;
    proof {
        if has_queue(s0, queue_name@) {
            assert(base[i as int] == queue_named(s0, queue_name@));
        }
    }
    let dedup = owned_opt(deduplication_id);
    let ghost d = dedup;
    let copy = item.clone();
    let res = store.enqueue_at(i, copy, dedup, now);
    proof {
        lemma_keeps_trans(s0, base, store@);
        lemma_index_unique(store@, i as int);
        assert(store@[i as int] == base[i as int].after_enqueue(*item, d, now));
        if let Some(t) = d {
            if !base[i as int].is_duplicate(d) {
                let ids = store@[i as int].dedup_ids;
                assert(ids[ids.len() - 1] == t@);
            }
            assert(store@[i as int].dedup_ids.contains(t@));
        }
        assert(base == opened(s0, queue_name@, false, now));
        assert(queue_index(base, queue_name@) == i);
        assert(dedup_matches(d, opt_text(deduplication_id)));
        assert(store@ == base.update(i as int, base[i as int].after_enqueue(*item, d, now)));
    }
    match res {
        Some(m) => success(201, "Message has been enqueued", Payload::Item(Some(m))),
        None => success(202, "Message has been discarded", Payload::Nothing),
    }
}

/// Answers a request to take the oldest message of the queue named
/// `queue_name`, acknowledged at once when `auto_ack` is set. The reply
/// carries no message text.
pub fn dequeue_item(store: &mut QueueStore, queue_name: &str, auto_ack: bool) -> (r: Reply)
    ensures
        store_wf(final(store)@),
        keeps_queues(old(store)@, final(store)@),
        !has_queue(old(store)@, queue_name@) ==> is_failure(r, 404, "Queue not found"@) && final(store)@ == old(
            store,
        )@,
        has_queue(old(store)@, queue_name@) ==> {
            let i = queue_index(old(store)@, queue_name@);
            &&& final(store)@ == old(store)@.update(i, old(store)@[i].after_dequeue(auto_ack))
            &&& is_success(r, 200, Seq::empty())
            &&& payload_of(r) == Payload::Item(old(store)@[i].front())
        },
{
    proof {
        use_type_invariant(&*store);
    }
    match store.find(queue_name) {
        Some(i) => {
            let m = store.dequeue_at(i, auto_ack);
            Reply::Success { status: 200, message: String::new(), payload: Payload::Item(m) }
        },
        None => failure(404, "Queue not found"),
    }
}

/// Answers a request to create the queue named `queue_name` with the
/// default settings: not persistent, 300 seconds for acknowledgement and
/// deduplication.
pub fn create_default_queue(store: &mut QueueStore, queue_name: &str, now: u64) -> (r: Reply)
    ensures
        store_wf(final(store)@),
        keeps_queues(old(store)@, final(store)@),
        has_queue(old(store)@, queue_name@) ==> is_failure(r, 409, "Queue already exists"@) && final(store)@ == old(
            store,
        )@,
        !has_queue(old(store)@, queue_name@) ==> {
            &&& is_success(r, 201, "Queue created"@)
            &&& payload_of(r) == Payload::Nothing
            &&& final(store)@ == old(store)@.push(
                QueueView::fresh(queue_name@, DEFAULT_TIME, DEFAULT_TIME, false, now),
            )
        },
{
    proof {
        use_type_invariant(&*store);
    }
    if store.contains(queue_name) {
        return failure(409, "Queue already exists");
    }
    let q = Queue::new(queue_name.to_owned(), DEFAULT_TIME, DEFAULT_TIME, false, now);
    store.insert(q);
    success(201, "Queue created", Payload::Nothing)
}

} // verus!

//! The request handling of the service: each handler reads the parameters
//! of a request, acts on the queues and says what to answer.

use vstd::prelude::*;
use crate::json::{json_is_object, json_text_is_object};
use crate::order::{same_texts, sort_texts, strictly_sorted, texts};
use crate::queue::{Message, Queue, QueueView};
use crate::reply::{failure, is_failure, is_success, payload_of, reports, success, Payload, QueueInfo, Reply};
use crate::store::{
    has_queue, keeps_queues, lemma_keeps_refl, lemma_keeps_trans, lemma_index_unique, queue_index, queue_named, queue_names, store_wf,
    QueueStore,
};
use crate::text::{flag_is_on, flag_on, opt_text, parse_u32, parse_u8, parse_u64, parse_unsigned};

verus! {

/// How long, in seconds, a queue created on the fly keeps unacknowledged
/// messages and deduplication ids.
pub const DEFAULT_TIME: u32 = 300;

/// The number of messages a dequeue request asks for: `amount`, or 1 when
/// the parameter is absent; `None` when it is no number from 0 to 255.
pub open spec fn requested_amount(amount: Option<Seq<char>>) -> Option<nat> {
    match amount {
        Some(t) => parse_unsigned(t, 255),
        None => Some(1),
    }
}

/// The queue after up to `n` dequeues.
pub open spec fn after_dequeue_many(q: QueueView, auto_ack: bool, n: nat) -> QueueView
    decreases n,
{
    if n == 0 || q.items.len() == 0 {
        q
    } else {
        after_dequeue_many(q.after_dequeue(auto_ack), auto_ack, (n - 1) as nat)
    }
}

/// The messages that up to `n` dequeues take.
pub open spec fn dequeued_many(q: QueueView, n: nat) -> Seq<Message> {
    if n <= q.items.len() {
        q.items.take(n as int)
    } else {
        q.items
    }
}

/// Answers a peek at the queue named `queue_name`: its oldest message,
/// which stays in the queue.
pub fn peek_handler(store: &QueueStore, queue_name: &str) -> (r: Reply)
    ensures
        !has_queue(store@, queue_name@) ==> is_failure(r, 404, "Queue not found"@),
        has_queue(store@, queue_name@) ==> match queue_named(store@, queue_name@).front() {
            Some(m) => is_success(r, 200, "Message retrieved successfully"@) && payload_of(r) == Payload::Item(
                Some(m),
            ),
            None => is_success(r, 200, "Queue is empty"@) && payload_of(r) == Payload::Item(None),
        },
{
    proof {
        use_type_invariant(store);
    }
    match store.find(queue_name) {
        Some(i) => {
            let message = store.queue_at(i).peek();
            match message {
                Some(m) => success(200, "Message retrieved successfully", Payload::Item(Some(m))),
                None => success(200, "Queue is empty", Payload::Item(None)),
            }
        },
        None => failure(404, "Queue not found"),
    }
}

/// Takes up to `max` messages from the queue at position `i`.
fn dequeue_up_to(store: &mut QueueStore, i: usize, auto_ack: bool, max: u8) -> (r: Vec<Message>)
    requires
        i < old(store)@.len(),
    ensures
        store_wf(final(store)@),
        keeps_queues(old(store)@, final(store)@),
        final(store)@ == old(store)@.update(
            i as int,
            after_dequeue_many(old(store)@[i as int], auto_ack, max as nat),
        ),
        r@ == dequeued_many(old(store)@[i as int], max as nat),
{
    proof {
        use_type_invariant(&*store);
    }
    let ghost q0 = store@[i as int];
    let ghost s0 = store@;
    let mut taken: Vec<Message> = Vec::new();
    let mut k: u8 = 0;
    let mut more = true;
    proof {
        lemma_keeps_refl(s0);
    }
    while more && k < max
        invariant
            store_wf(store@),
            i < store@.len(),
            s0.len() == store@.len(),
            store@ == s0.update(i as int, store@[i as int]),
            keeps_queues(s0, store@),
            k <= max,
            k <= q0.items.len(),
            store@[i as int].items == q0.items.skip(k as int),
            taken@ == q0.items.take(k as int),
            after_dequeue_many(q0, auto_ack, max as nat) == after_dequeue_many(
                store@[i as int],
                auto_ack,
                (max - k) as nat,
            ),
            !more ==> store@[i as int].items.len() == 0,
        decreases (max - k) as int + if more { 1int } else { 0int },
    {
        let ghost cur = store@[i as int];
        let ghost prev = store@;
        let res = store.dequeue_at(i, auto_ack);
        proof {
            lemma_keeps_trans(s0, prev, store@);
        }
        match res {
            Some(m) => {
                proof {
                    assert(q0.items.skip(k as int)[0] == q0.items[k as int]);
                    assert(cur.after_dequeue(auto_ack).items =~= q0.items.skip(k + 1));
                    assert(taken@.push(m) =~= q0.items.take(k + 1));
                }
                taken.push(m);
                k = k + 1;
            },
            None => {
                more = false;
            },
        }
        assert(store@ =~= s0.update(i as int, store@[i as int]));
    }
    proof {
        if k < q0.items.len() {
            assert(q0.items.skip(k as int).len() > 0);
        }
        let n = max as nat;
        if n <= q0.items.len() {
            assert(taken@ =~= q0.items.take(n as int));
        } else {
            assert(taken@ =~= q0.items);
        }
        assert(store@ =~= s0.update(i as int, after_dequeue_many(q0, auto_ack, max as nat)));
    }
    taken
}

/// Answers a dequeue from the queue named `queue_name`: up to `amount`
/// messages (1 when absent), acknowledged at once when `ack` reads `true`.
/// The text of `amount`, when the queue exists, must be a number from 0 to
/// 255.
pub fn dequeue_handler(store: &mut QueueStore, queue_name: &str, ack: Option<&str>, amount: Option<&str>) -> (r: Reply)
    requires
        has_queue(old(store)@, queue_name@) ==> requested_amount(opt_text(amount)) is Some,
    ensures
        store_wf(final(store)@),
        keeps_queues(old(store)@, final(store)@),
        !has_queue(old(store)@, queue_name@) ==> is_failure(r, 404, "Queue not found"@) && final(store)@ == old(
            store,
        )@,
        has_queue(old(store)@, queue_name@) ==> {
            let n = requested_amount(opt_text(amount))->0;
            let i = queue_index(old(store)@, queue_name@);
            let q = old(store)@[i];
            let auto_ack = flag_on(opt_text(ack));
            if n == 0 {
                is_failure(r, 404, "Invalid amount parameter"@) && final(store)@ == old(store)@
            } else {
                &&& is_success(r, 200, "Request processed successfully"@)
                &&& final(store)@ == old(store)@.update(i, after_dequeue_many(q, auto_ack, n))
                &&& payload_of(r) matches Payload::Dequeued(v) && v@ == dequeued_many(q, n)
            }
        },
{
    proof {
        use_type_invariant(&*store);
    }
    match store.find(queue_name) {
        Some(i) => {
            let auto_ack = flag_is_on(ack);
            let max: u8 = match amount {
                Some(t) => match parse_u8(t) {
                    Some(v) => v,
                    None => 0,
                },
                None => 1,
            };
            if max < 1 {
                failure(404, "Invalid amount parameter")
            } else {
                let items = dequeue_up_to(store, i, auto_ack, max);
                success(200, "Request processed successfully", Payload::Dequeued(items))
            }
        },
        None => failure(404, "Queue not found"),
    }
}

/// Answers an acknowledgement of message `message` of the queue named
/// `queue_name`; the message is named by its id in decimal.
pub fn ack_message(store: &mut QueueStore, queue_name: &str, message: &str) -> (r: Reply)
    ensures
        store_wf(final(store)@),
        keeps_queues(old(store)@, final(store)@),
        !has_queue(old(store)@, queue_name@) ==> is_failure(r, 404, "Queue not found"@) && final(store)@ == old(
            store,
        )@,
        has_queue(old(store)@, queue_name@) ==> {
            let i = queue_index(old(store)@, queue_name@);
            let q = old(store)@[i];
            match parse_unsigned(message@, u64::MAX as nat) {
                Some(id) if q.awaits_ack(id as u64) => {
                    &&& is_success(r, 200, "Message reception acknowledged"@)
                    &&& payload_of(r) == Payload::Nothing
                    &&& final(store)@ == old(store)@.update(i, q.after_ack(id as u64))
                },
                _ => is_failure(r, 404, "Message not found"@) && final(store)@ == old(store)@,
            }
        },
{
    proof {
        use_type_invariant(&*store);
    }
    match store.find(queue_name) {
        Some(i) => {
            let acked = match parse_u64(message) {
                Some(id) => {
                    let ghost before = store@;
                    let done = store.ack_at(i, id);
                    proof {
                        if !done {
                            assert(store@ =~= before);
                        }
                    }
                    done
                },
                None => false,
            };
            if acked {
                success(200, "Message reception acknowledged", Payload::Nothing)
            } else {
                failure(404, "Message not found")
            }
        },
        None => failure(404, "Queue not found"),
    }
}

/// The figures of a queue.
pub fn info_of(q: &Queue) -> (r: QueueInfo)
    ensures
        reports(r, q@),
{
    QueueInfo {
        name: q.name().clone(),
        created_at: q.created_at(),
        size: q.size(),
        num_deduped: q.dedup_size(),
        num_unacked: q.ack_size(),
        num_acknowledged: q.num_acknowledged(),
        num_dedup_hits: q.num_dedup_hits(),
        dedup_time: q.dedup_time(),
        ack_time: q.ack_time(),
        persistent: q.is_persistent(),
        mem_size: q.mem_size(),
    }
}

/// Answers a request for the figures of the queue named `queue_name`.
pub fn queue_info(store: &QueueStore, queue_name: &str) -> (r: Reply)
    ensures
        !has_queue(store@, queue_name@) ==> is_failure(r, 404, "Queue not found"@),
        has_queue(store@, queue_name@) ==> {
            &&& is_success(r, 200, "Queue info retrieved successfully"@)
            &&& payload_of(r) matches Payload::Info(info) && reports(info, queue_named(store@, queue_name@))
        },
{
    proof {
        use_type_invariant(store);
    }
    match store.find(queue_name) {
        Some(i) => success(200, "Queue info retrieved successfully", Payload::Info(info_of(store.queue_at(i)))),
        None => failure(404, "Queue not found"),
    }
}

/// Answers a request for the list of queues: their names, sorted.
pub fn list_queues(store: &QueueStore) -> (r: Reply)
    ensures
        is_success(r, 200, "Queue list retrieved successfully"@),
        payload_of(r) matches Payload::Queues(v) && same_texts(texts(v@), queue_names(store@)) && strictly_sorted(
            texts(v@),
        ),
{
    proof {
        use_type_invariant(store);
    }
    let names = store.names();
    proof {
        let ns = queue_names(store@);
        assert(texts(names@) == ns);
        assert forall|a: int, b: int| 0 <= a < b < ns.len() implies (#[trigger] ns[a]) != (#[trigger] ns[b]) by {
            assert(store@[a].name != store@[b].name);
        }
    }
    let sorted = sort_texts(names);
    success(200, "Queue list retrieved successfully", Payload::Queues(sorted))
}

/// A time setting as given: `None` when the text is no `u32`; 300 when absent.
pub open spec fn time_setting(p: Option<Seq<char>>) -> Option<nat> {
    match p {
        Some(t) => parse_unsigned(t, u32::MAX as nat),
        None => Some(DEFAULT_TIME as nat),
    }
}

fn read_time(p: Option<&str>) -> (r: Option<u32>)
    ensures
        match time_setting(opt_text(p)) {
            Some(v) => r == Some(v as u32),
            None => r is None,
        },
{
    match p {
        Some(t) => parse_u32(t),
        None => Some(DEFAULT_TIME),
    }
}

/// Answers a request to create the queue named `queue_name`, with the
/// acknowledgement and deduplication times given (300 seconds each when
/// absent), persistent when `persistent` reads `true`.
pub fn create_queue_handler(
    store: &mut QueueStore,
    queue_name: &str,
    ack_time: Option<&str>,
    dedup_time: Option<&str>,
    persistent: Option<&str>,
    now: u64,
) -> (r: Reply)
    ensures
        store_wf(final(store)@),
        keeps_queues(old(store)@, final(store)@),
        has_queue(old(store)@, queue_name@) ==> is_failure(r, 409, "Queue already exists"@) && final(store)@ == old(
            store,
        )@,
        !has_queue(old(store)@, queue_name@) ==> {
            let a = time_setting(opt_text(ack_time));
            let d = time_setting(opt_text(dedup_time));
            if a is None || d is None {
                is_failure(r, 400, "Invalid time argument"@) && final(store)@ == old(store)@
            } else {
                &&& is_success(r, 201, "Queue created successfully"@)
                &&& payload_of(r) == Payload::Nothing
                &&& final(store)@ == old(store)@.push(
                    QueueView::fresh(
                        queue_name@,
                        a->0 as u32,
                        d->0 as u32,
                        flag_on(opt_text(persistent)),
                        now,
                    ),
                )
            }
        },
{
    proof {
        use_type_invariant(&*store);
    }
    if store.contains(queue_name) {
        return failure(409, "Queue already exists");
    }
    let a = read_time(ack_time);
    let d = read_time(dedup_time);
    let p = flag_is_on(persistent);
    match (a, d) {
        (Some(a), Some(d)) => {
            let q = Queue::new(queue_name.to_owned(), a, d, p, now);
            store.insert(q);
            success(201, "Queue created successfully", Payload::Nothing)
        },
        _ => failure(400, "Invalid time argument"),
    }
}

/// An item of an enqueue request: the JSON text of the item and its
/// optional deduplication id.
#[derive(Clone, Debug, PartialEq, Eq)]
pub struct NewItem {
    pub item: String,
    pub deduplication_id: Option<String>,
}

/// The body of an enqueue request.
#[derive(Clone, Debug, PartialEq, Eq)]
pub struct EnqueueBody {
    pub messages: Vec<NewItem>,
}

/// A batch is taken when it has at most 255 items and every item is a JSON
/// object.
pub open spec fn batch_accepted(items: Seq<NewItem>) -> bool {
    &&& items.len() < 256
    &&& forall|i: int| 0 <= i < items.len() ==> json_text_is_object(#[trigger] items[i].item@)
}

/// The queue after enqueueing a batch item by item.
pub open spec fn after_batch(q: QueueView, items: Seq<NewItem>, now: u64) -> QueueView
    decreases items.len(),
{
    if items.len() == 0 {
        q
    } else {
        after_batch(q, items.drop_last(), now).after_enqueue(
            items.last().item,
            items.last().deduplication_id,
            now,
        )
    }
}

/// The messages that enqueueing a batch creates, in order.
pub open spec fn batch_enqueued(q: QueueView, items: Seq<NewItem>, now: u64) -> Seq<Message>
    decreases items.len(),
{
    if items.len() == 0 {
        Seq::empty()
    } else {
        let prev = batch_enqueued(q, items.drop_last(), now);
        match after_batch(q, items.drop_last(), now).enqueue_reply(
            items.last().item,
            items.last().deduplication_id,
            now,
        ) {
            Some(m) => prev.push(m),
            None => prev,
        }
    }
}

/// How many items of a batch are refused as duplicates.
pub open spec fn batch_refused(q: QueueView, items: Seq<NewItem>, now: u64) -> nat
    decreases items.len(),
{
    if items.len() == 0 {
        0
    } else {
        batch_refused(q, items.drop_last(), now) + if after_batch(q, items.drop_last(), now).is_duplicate(
            items.last().deduplication_id,
        ) {
            1nat
        } else {
            0nat
        }
    }
}

/// The queues after making sure a queue named `name` exists, creating it
/// with the default times when it does not.
pub open spec fn opened(qs: Seq<QueueView>, name: Seq<char>, persistent: bool, now: u64) -> Seq<QueueView> {
    if has_queue(qs, name) {
        qs
    } else {
        qs.push(QueueView::fresh(name, DEFAULT_TIME, DEFAULT_TIME, persistent, now))
    }
}

/// Decides whether a batch is taken from the object test of each item.
pub fn accepts_batch(objects: &Vec<bool>) -> (r: bool)
    ensures
        r == (objects@.len() < 256 && forall|i: int| 0 <= i < objects@.len() ==> #[trigger] objects@[i]),
{
    let mut all = true;
    let mut i: usize = 0;
    while i < objects.len()
        invariant
            i <= objects.len(),
            all == forall|j: int| 0 <= j < i ==> #[trigger] objects@[j],
        decreases objects.len() - i,
    {
        if !objects[i] {
            all = false;
        }
        i = i + 1;
    }
    all && objects.len() < 256
}

/// Whether a batch is taken: at most 255 items, each a JSON object.
pub fn batch_is_accepted(items: &Vec<NewItem>) -> (r: bool)
    ensures
        r == batch_accepted(items@),
{
    let mut objects: Vec<bool> = Vec::new();
    let mut i: usize = 0;
    while i < items.len()
        invariant
            i <= items.len(),
            objects@.len() == i,
            forall|j: int| 0 <= j < i ==> objects@[j] == json_text_is_object(#[trigger] items@[j].item@),
        decreases items.len() - i,
    {
        objects.push(json_is_object(items[i].item.as_str()));
        i = i + 1;
    }
    let r = accepts_batch(&objects);
    proof {
        if r {
            assert forall|j: int| 0 <= j < items@.len() implies json_text_is_object(#[trigger] items@[j].item@) by {
                assert(objects@[j]);
            }
        } else if items@.len() < 256 {
            let j = choose|j: int| 0 <= j < objects@.len() && !#[trigger] objects@[j];
            assert(!json_text_is_object(items@[j].item@));
        }
    }
    r
}

/// A copy of an optional string.
pub fn copy_opt(s: &Option<String>) -> (r: Option<String>)
    ensures
        r == *s,
{
    match s {
        Some(t) => Some(t.clone()),
        None => None,
    }
}

/// Makes sure a queue named `name` exists when `create` is set, creating it
/// with the default times; returns its position, or `None` when it does
/// not exist and is not to be created.
fn open_queue(store: &mut QueueStore, name: &str, create: bool, persistent: bool, now: u64) -> (r: Option<usize>)
    ensures
        store_wf(final(store)@),
        keeps_queues(old(store)@, final(store)@),
        has_queue(old(store)@, name@) || create ==> final(store)@ == opened(old(store)@, name@, persistent, now),
        !has_queue(old(store)@, name@) && !create ==> final(store)@ == old(store)@ && r is None,
        has_queue(old(store)@, name@) || create ==> (r matches Some(i) && i == queue_index(final(store)@, name@) && i
            < final(store)@.len() && final(store)@[i as int].name == name@),
{
    proof {
        use_type_invariant(&*store);
    }
    match store.find(name) {
        Some(i) => Some(i),
        None => {
            if create {
                let q = Queue::new(name.to_owned(), DEFAULT_TIME, DEFAULT_TIME, persistent, now);
                store.insert(q);
                let i = store.len() - 1;
                proof {
                    lemma_index_unique(store@, i as int);
                }
                Some(i)
            } else {
                None
            }
        },
    }
}

/// Enqueues the items of a batch one by one into the queue at position `i`.
fn enqueue_batch_at(store: &mut QueueStore, i: usize, items: &Vec<NewItem>, now: u64) -> (r: (Vec<Message>, usize))
    requires
        i < old(store)@.len(),
        old(store)@[i as int].next_id + items@.len() <= u64::MAX,
    ensures
        store_wf(final(store)@),
        keeps_queues(old(store)@, final(store)@),
        final(store)@ == old(store)@.update(i as int, after_batch(old(store)@[i as int], items@, now)),
        r.0@ == batch_enqueued(old(store)@[i as int], items@, now),
        r.1 == batch_refused(old(store)@[i as int], items@, now),
{
    proof {
        use_type_invariant(&*store);
    }
    let ghost s0 = store@;
    let ghost q0 = s0[i as int];
    let ghost msgs = items@;
    let mut enqueued: Vec<Message> = Vec::new();
    let mut refused: usize = 0;
    let mut k: usize = 0;
    assert(msgs.take(0) =~= Seq::<NewItem>::empty());
    proof {
        lemma_keeps_refl(s0);
    }
    while k < items.len()
        invariant
            k <= items.len(),
            msgs == items@,
            store_wf(store@),
            i < store@.len(),
            i < s0.len(),
            q0 == s0[i as int],
            store@ == s0.update(i as int, after_batch(q0, msgs.take(k as int), now)),
            keeps_queues(s0, store@),
            after_batch(q0, msgs.take(k as int), now).next_id <= q0.next_id + k,
            q0.next_id + msgs.len() <= u64::MAX,
            enqueued@ == batch_enqueued(q0, msgs.take(k as int), now),
            refused == batch_refused(q0, msgs.take(k as int), now),
            refused <= k,
        decreases items.len() - k,
    {
        let ghost t = msgs.take(k + 1);
        assert(t.drop_last() =~= msgs.take(k as int));
        assert(t.last() == msgs[k as int]);
        let item = items[k].item.clone();
        let dedup = copy_opt(&items[k].deduplication_id);
        assert(item == t.last().item && dedup == t.last().deduplication_id);
        assert(after_batch(q0, t, now) == after_batch(q0, msgs.take(k as int), now).after_enqueue(item, dedup, now));
        let res = store.enqueue_at(i, item, dedup, now);
        match res {
            Some(m) => {
                enqueued.push(m);
            },
            None => {
                refused = refused + 1;
            },
        }
        k = k + 1;
        assert(store@ =~= s0.update(i as int, after_batch(q0, msgs.take(k as int), now)));
    }
    assert(msgs.take(k as int) =~= msgs);
    (enqueued, refused)
}

/// Answers an enqueue request for the queue named `queue_name`. The batch
/// is taken when it has at most 255 items, each a JSON object. A missing
/// queue is created (with the default times, persistent when
/// `persistent_queue` reads `true`) when `create_queue` reads `true`.
/// Each item is then enqueued in turn; those whose deduplication id was
/// seen before are refused.
pub fn enqueue_handler(
    store: &mut QueueStore,
    queue_name: &str,
    body: &EnqueueBody,
    create_queue: Option<&str>,
    persistent_queue: Option<&str>,
    now: u64,
) -> (r: Reply)
    requires
        has_queue(old(store)@, queue_name@) ==> queue_named(old(store)@, queue_name@).next_id
            + body.messages@.len() <= u64::MAX,
    ensures
        store_wf(final(store)@),
        keeps_queues(old(store)@, final(store)@),
        !batch_accepted(body.messages@) ==> is_failure(
            r,
            400,
            "body.items is required to be of type Array<Object> with at most 255 items"@,
        ) && final(store)@ == old(store)@,
        batch_accepted(body.messages@) && !has_queue(old(store)@, queue_name@) && !flag_on(
            opt_text(create_queue),
        ) ==> is_failure(r, 404, "Queue not found"@) && final(store)@ == old(store)@,
        batch_accepted(body.messages@) && (has_queue(old(store)@, queue_name@) || flag_on(
            opt_text(create_queue),
        )) ==> {
            let base = opened(old(store)@, queue_name@, flag_on(opt_text(persistent_queue)), now);
            let i = queue_index(base, queue_name@);
            let q = base[i];
            &&& final(store)@ == base.update(i, after_batch(q, body.messages@, now))
            &&& is_success(r, 202, "Request processed successfully"@)
            &&& payload_of(r) matches Payload::Enqueued { items, num_deduplicated } && items@
                == batch_enqueued(q, body.messages@, now) && num_deduplicated == batch_refused(
                q,
                body.messages@,
                now,
            )
        },
{
    proof {
        use_type_invariant(&*store);
    }
    if !batch_is_accepted(&body.messages) {
        return failure(400, "body.items is required to be of type Array<Object> with at most 255 items");
    }
    let create = flag_is_on(create_queue);
    let persistent = flag_is_on(persistent_queue);
    let ghost s0 = store@;
    match open_queue(store, queue_name, create, persistent, now) {
        Some(i) => {
            proof {
                if has_queue(s0, queue_name@) {
                    assert(store@[i as int] == queue_named(s0, queue_name@));
                }
            }
            let (items, refused) = enqueue_batch_at(store, i, &body.messages, now);
            success(
                202,
                "Request processed successfully",
                Payload::Enqueued { items, num_deduplicated: refused },
            )
        },
        None => failure(404, "Queue not found"),
    }
}

} // verus!

//! Properties of the queues that span several operations.

use vstd::prelude::*;
use crate::queue::{bump, lemma_dequeue_wf, same_settings, Message, QueueView};
use crate::routes::{after_dequeue_many, batch_enqueued, batch_refused, dequeued_many, NewItem};
use crate::store::{has_queue, keeps_queues, lemma_keeps_push, lemma_keeps_trans, queue_named, store_wf};

verus! {

/// First in, first out: a message enqueued behind the messages already
/// waiting comes out after all of them, on the next dequeue after theirs.
pub proof fn law_fifo(q: QueueView, item: String, dedup: Option<String>, now: u64)
    requires
        !q.is_duplicate(dedup),
    ensures
        dequeued_many(q.after_enqueue(item, dedup, now), (q.items.len() + 1) as nat) == q.items.push(
            q.new_message(item, dedup, now),
        ),
        q.enqueue_reply(item, dedup, now) == Some(q.new_message(item, dedup, now)),
{
    let r = q.after_enqueue(item, dedup, now);
    assert(r.items.take(r.items.len() as int) =~= r.items);
}

/// A message whose deduplication id was enqueued before is refused, and
/// the waiting messages stay as they were.
pub proof fn law_duplicate_refused(
    q: QueueView,
    first: String,
    second: String,
    dedup: String,
    t1: u64,
    t2: u64,
)
    ensures
        q.after_enqueue(first, Some(dedup), t1).enqueue_reply(second, Some(dedup), t2) is None,
        q.after_enqueue(first, Some(dedup), t1).after_enqueue(second, Some(dedup), t2).items == q.after_enqueue(
            first,
            Some(dedup),
            t1,
        ).items,
{
    let q1 = q.after_enqueue(first, Some(dedup), t1);
    if !q.is_duplicate(Some(dedup)) {
        assert(q1.dedup_ids[q1.dedup_ids.len() - 1] == dedup@);
    }
    assert(q1.dedup_ids.contains(dedup@));
}

/// A message dequeued without acknowledgement awaits it; acknowledging it
/// succeeds once, counts it, and leaves the other unacknowledged messages
/// as they were.
pub proof fn law_dequeue_then_ack(q: QueueView)
    requires
        q.wf(),
        q.items.len() > 0,
    ensures
        ({
            let m = q.items[0];
            let q1 = q.after_dequeue(false);
            let q2 = q1.after_ack(m.id);
            &&& q1.awaits_ack(m.id)
            &&& q2.unacked == q.unacked
            &&& q2.items == q1.items
            &&& q2.num_acknowledged == bump(q.num_acknowledged)
            &&& !q2.awaits_ack(m.id)
        }),
{
    let m = q.items[0];
    let q1 = q.after_dequeue(false);
    lemma_dequeue_wf(q, false);
    let last = q.unacked.len() as int;
    assert(q1.unacked[last] == m);
    assert(q1.awaits_ack(m.id));
    let k = q1.unacked_index(m.id);
    let n = q1.items.len();
    let all = q1.all_messages();
    assert(all[n + k] == q1.unacked[k]);
    assert(all[n + last] == q1.unacked[last]);
    assert(k == last);
    let q2 = q1.after_ack(m.id);
    assert(q2.unacked =~= q.unacked);
    if q2.awaits_ack(m.id) {
        let j = choose|j: int| 0 <= j < q2.unacked.len() && (#[trigger] q2.unacked[j]).id == m.id;
        assert(q1.unacked[j] == q2.unacked[j]);
        assert(all[n + j] == q1.unacked[j]);
    }
}

/// A message dequeued with acknowledgement does not await one.
pub proof fn law_auto_ack_settles(q: QueueView)
    requires
        q.wf(),
        q.items.len() > 0,
    ensures
        !q.after_dequeue(true).awaits_ack(q.items[0].id),
        q.after_dequeue(true).num_acknowledged == bump(q.num_acknowledged),
        q.after_dequeue(true).unacked == q.unacked,
{
    let m = q.items[0];
    let q1 = q.after_dequeue(true);
    if q1.awaits_ack(m.id) {
        let j = choose|j: int| 0 <= j < q1.unacked.len() && (#[trigger] q1.unacked[j]).id == m.id;
        let all = q.all_messages();
        assert(all[0] == m);
        assert(all[q.items.len() + j] == q.unacked[j]);
    }
}

/// Every item of a batch is either enqueued or refused as a duplicate.
pub proof fn law_batch_accounting(q: QueueView, items: Seq<NewItem>, now: u64)
    ensures
        batch_enqueued(q, items, now).len() + batch_refused(q, items, now) == items.len(),
    decreases items.len(),
{
    if items.len() > 0 {
        law_batch_accounting(q, items.drop_last(), now);
    }
}

/// Dequeueing up to `n` messages takes the oldest ones, as many as there
/// are up to `n`, and leaves the rest waiting in order; without
/// acknowledgement the taken ones await it, in the order they were taken.
pub proof fn law_dequeue_many(q: QueueView, auto_ack: bool, n: nat)
    ensures
        ({
            let taken = dequeued_many(q, n);
            let r = after_dequeue_many(q, auto_ack, n);
            &&& taken.len() == if n <= q.items.len() { n } else { q.items.len() }
            &&& q.items == taken + r.items
            &&& !auto_ack ==> r.unacked == q.unacked + taken
            &&& auto_ack ==> r.unacked == q.unacked
            &&& r.dedup_ids == q.dedup_ids
            &&& r.name == q.name
        }),
    decreases n,
{
    if n == 0 || q.items.len() == 0 {
        assert(q.items.take(0) =~= Seq::<Message>::empty());
        assert(q.items =~= Seq::<Message>::empty() + q.items);
        assert(q.unacked =~= q.unacked + Seq::<Message>::empty());
        if n > q.items.len() {
            assert(q.items =~= q.items + q.items.skip(0));
        }
    } else {
        let q1 = q.after_dequeue(auto_ack);
        law_dequeue_many(q1, auto_ack, (n - 1) as nat);
        let t1 = dequeued_many(q1, (n - 1) as nat);
        let t = dequeued_many(q, n);
        assert(q1.items =~= q.items.drop_first());
        assert(t =~= seq![q.items[0]] + t1);
        assert(q.items =~= seq![q.items[0]] + q1.items);
        if !auto_ack {
            assert(q1.unacked =~= q.unacked.push(q.items[0]));
            assert(q.unacked + t =~= q1.unacked + t1);
        }
    }
}

/// A queue just added to the store is found under its name, as created,
/// and every queue the store held stays.
pub proof fn law_created_queue_found(qs: Seq<QueueView>, q: QueueView)
    requires
        store_wf(qs),
        !has_queue(qs, q.name),
        q.wf(),
    ensures
        store_wf(qs.push(q)),
        has_queue(qs.push(q), q.name),
        queue_named(qs.push(q), q.name) == q,
        keeps_queues(qs, qs.push(q)),
{
    lemma_keeps_push(qs, q);
}

/// Every handler keeps each queue it finds (its `ensures` says
/// `keeps_queues`), and keeping is transitive: over any sequence of
/// requests, a queue once created stays, with its name, creation time and
/// settings; so a later request to create it again is answered 409.
pub proof fn law_queues_survive_requests(a: Seq<QueueView>, b: Seq<QueueView>, c: Seq<QueueView>)
    requires
        keeps_queues(a, b),
        keeps_queues(b, c),
    ensures
        keeps_queues(a, c),
{
    lemma_keeps_trans(a, b, c);
}

/// A queue kept across requests is still found under its name, as it was
/// set up.
pub proof fn law_kept_queue_found(before: Seq<QueueView>, after: Seq<QueueView>, name: Seq<char>)
    requires
        keeps_queues(before, after),
        has_queue(before, name),
    ensures
        has_queue(after, name),
        same_settings(queue_named(after, name), queue_named(before, name)),
{
}

/// Acknowledging a message that awaits acknowledgement takes it off the
/// unacknowledged ones and counts it; it then awaits none, so a second
/// acknowledgement changes nothing and is refused.
pub proof fn law_ack_once(q: QueueView, id: u64)
    requires
        q.wf(),
        q.awaits_ack(id),
    ensures
        q.after_ack(id).unacked.len() == q.unacked.len() - 1,
        q.after_ack(id).num_acknowledged == bump(q.num_acknowledged),
        q.after_ack(id).items == q.items,
        !q.after_ack(id).awaits_ack(id),
        q.after_ack(id).after_ack(id) == q.after_ack(id),
{
    let k = q.unacked_index(id);
    let q2 = q.after_ack(id);
    let n = q.items.len();
    let all = q.all_messages();
    if q2.awaits_ack(id) {
        let j = choose|j: int| 0 <= j < q2.unacked.len() && (#[trigger] q2.unacked[j]).id == id;
        let jj = if j < k { j } else { j + 1 };
        assert(q2.unacked[j] == q.unacked[jj]);
        assert(all[n + jj] == q.unacked[jj]);
        assert(all[n + k] == q.unacked[k]);
    }
}

/// The messages a dequeue without acknowledgement takes all await
/// acknowledgement afterwards.
pub proof fn law_dequeued_await_ack(q: QueueView, n: nat)
    ensures
        forall|j: int|
            0 <= j < dequeued_many(q, n).len() ==> after_dequeue_many(q, false, n).awaits_ack(
                #[trigger] dequeued_many(q, n)[j].id,
            ),
{
    law_dequeue_many(q, false, n);
    let taken = dequeued_many(q, n);
    let r = after_dequeue_many(q, false, n);
    assert forall|j: int| 0 <= j < taken.len() implies r.awaits_ack(#[trigger] taken[j].id) by {
        assert(r.unacked[q.unacked.len() + j] == taken[j]);
    }
}

} // verus!

//! A single named queue: messages wait in arrival order; a dequeued message
//! is either acknowledged at once or kept until it is acknowledged by id;
//! a message that carries a deduplication id is refused when that id was
//! seen before.

use vstd::prelude::*;

verus! {

/// Adds one to a counter, staying at the largest value once there.
pub open spec fn bump(x: u64) -> u64 {
    if x == u64::MAX {
        x
    } else {
        (x + 1) as u64
    }
}

fn bump_counter(x: u64) -> (r: u64)
    ensures
        r == bump(x),
{
    if x == u64::MAX {
        x
    } else {
        x + 1
    }
}

/// The text of an optional string.
pub open spec fn opt_string(s: Option<String>) -> Option<Seq<char>> {
    match s {
        Some(t) => Some(t@),
        None => None,
    }
}

/// A message: its id within its queue, the JSON text of its item, the
/// deduplication id it was sent with and the time it was queued.
#[derive(Clone, Debug, PartialEq, Eq)]
pub struct Message {
    pub id: u64,
    pub item: String,
    pub deduplication_id: Option<String>,
    pub queued_at: u64,
}

impl Message {
    /// A copy of the message.
    pub fn duplicate(&self) -> (r: Message)
        ensures
            r == *self,
    {
        let dedup = match &self.deduplication_id {
            Some(d) => Some(d.clone()),
            None => None,
        };
        Message { id: self.id, item: self.item.clone(), deduplication_id: dedup, queued_at: self.queued_at }
    }
}

/// Copies a list of messages.
pub fn duplicate_all(msgs: &Vec<Message>) -> (r: Vec<Message>)
    ensures
        r@ == msgs@,
{
    let mut r: Vec<Message> = Vec::new();
    let mut i: usize = 0;
    while i < msgs.len()
        invariant
            i <= msgs.len(),
            r@ == msgs@.subrange(0, i as int),
        decreases msgs.len() - i,
    {
        r.push(msgs[i].duplicate());
        i = i + 1;
    }
    r
}

/// The abstract state of a queue.
#[verifier::ext_equal]
pub struct QueueView {
    pub name: Seq<char>,
    pub created_at: u64,
    pub ack_time: u32,
    pub dedup_time: u32,
    pub persistent: bool,
    /// Messages waiting to be dequeued, the oldest first.
    pub items: Seq<Message>,
    /// Messages dequeued and not yet acknowledged, in the order they left.
    pub unacked: Seq<Message>,
    /// Every deduplication id that a message was enqueued with.
    pub dedup_ids: Seq<Seq<char>>,
    /// The id the next message will get.
    pub next_id: u64,
    pub num_acknowledged: u64,
    pub num_dedup_hits: u64,
}

/// Every message id is below `next` and no two messages share an id.
pub open spec fn ids_fresh_and_distinct(msgs: Seq<Message>, next: u64) -> bool {
    &&& forall|i: int| 0 <= i < msgs.len() ==> (#[trigger] msgs[i]).id < next
    &&& forall|i: int, j: int| 0 <= i < j < msgs.len() ==> (#[trigger] msgs[i]).id != (#[trigger] msgs[j]).id
}

/// The size in bytes of a message's item text, as `str::len` reports it.
pub open spec fn item_bytes(m: Message) -> nat {
    (vstd::utf8::encode_utf8(m.item@).len() as usize) as nat
}

/// The total size in bytes of the item texts of these messages.
pub open spec fn total_bytes(msgs: Seq<Message>) -> nat
    decreases msgs.len(),
{
    if msgs.len() == 0 {
        0
    } else {
        total_bytes(msgs.drop_last()) + item_bytes(msgs.last())
    }
}

/// A size as a `u64`, the largest value standing for all larger ones.
pub open spec fn clamp_u64(n: nat) -> u64 {
    if n > u64::MAX {
        u64::MAX
    } else {
        n as u64
    }
}

/// The queue and its old state agree on everything but their messages
/// and counters: name, creation time and settings.
pub open spec fn same_settings(a: QueueView, b: QueueView) -> bool {
    &&& a.name == b.name
    &&& a.created_at == b.created_at
    &&& a.ack_time == b.ack_time
    &&& a.dedup_time == b.dedup_time
    &&& a.persistent == b.persistent
}

impl QueueView {
    /// The messages the queue holds, waiting ones first.
    pub open spec fn all_messages(self) -> Seq<Message> {
        self.items + self.unacked
    }

    /// The memory the messages take: the bytes of the item texts of the
    /// waiting and the unacknowledged messages.
    pub open spec fn mem_size(self) -> u64 {
        clamp_u64(total_bytes(self.all_messages()))
    }

    pub open spec fn wf(self) -> bool {
        ids_fresh_and_distinct(self.all_messages(), self.next_id)
    }

    /// A queue that was just created.
    pub open spec fn fresh(name: Seq<char>, ack_time: u32, dedup_time: u32, persistent: bool, now: u64) -> QueueView {
        QueueView {
            name,
            created_at: now,
            ack_time,
            dedup_time,
            persistent,
            items: Seq::empty(),
            unacked: Seq::empty(),
            dedup_ids: Seq::empty(),
            next_id: 0,
            num_acknowledged: 0,
            num_dedup_hits: 0,
        }
    }

    /// Whether a message with this deduplication id would be refused.
    pub open spec fn is_duplicate(self, dedup: Option<String>) -> bool {
        match dedup {
            Some(d) => self.dedup_ids.contains(d@),
            None => false,
        }
    }

    /// The message that enqueueing `item` now would create.
    pub open spec fn new_message(self, item: String, dedup: Option<String>, now: u64) -> Message {
        Message { id: self.next_id, item, deduplication_id: dedup, queued_at: now }
    }

    /// The queue after an attempt to enqueue `item`.
    pub open spec fn after_enqueue(self, item: String, dedup: Option<String>, now: u64) -> QueueView {
        if self.is_duplicate(dedup) {
            QueueView { num_dedup_hits: bump(self.num_dedup_hits), ..self }
        } else {
            QueueView {
                items: self.items.push(self.new_message(item, dedup, now)),
                dedup_ids: match dedup {
                    Some(d) => self.dedup_ids.push(d@),
                    None => self.dedup_ids,
                },
                next_id: (self.next_id + 1) as u64,
                ..self
            }
        }
    }

    /// What an attempt to enqueue `item` returns.
    pub open spec fn enqueue_reply(self, item: String, dedup: Option<String>, now: u64) -> Option<Message> {
        if self.is_duplicate(dedup) {
            None
        } else {
            Some(self.new_message(item, dedup, now))
        }
    }

    /// The queue after a dequeue.
    pub open spec fn after_dequeue(self, auto_ack: bool) -> QueueView {
        if self.items.len() == 0 {
            self
        } else if auto_ack {
            QueueView {
                items: self.items.drop_first(),
                num_acknowledged: bump(self.num_acknowledged),
                ..self
            }
        } else {
            QueueView {
                items: self.items.drop_first(),
                unacked: self.unacked.push(self.items[0]),
                ..self
            }
        }
    }

    /// What a dequeue returns: the oldest waiting message.
    pub open spec fn front(self) -> Option<Message> {
        if self.items.len() == 0 {
            None
        } else {
            Some(self.items[0])
        }
    }

    /// Whether a dequeued message with this id awaits acknowledgement.
    pub open spec fn awaits_ack(self, id: u64) -> bool {
        exists|i: int| 0 <= i < self.unacked.len() && (#[trigger] self.unacked[i]).id == id
    }

    /// The position of the unacknowledged message with this id.
    pub open spec fn unacked_index(self, id: u64) -> int {
        choose|i: int| 0 <= i < self.unacked.len() && (#[trigger] self.unacked[i]).id == id
    }

    /// The queue after acknowledging the message with this id.
    pub open spec fn after_ack(self, id: u64) -> QueueView {
        if self.awaits_ack(id) {
            QueueView {
                unacked: self.unacked.remove(self.unacked_index(id)),
                num_acknowledged: bump(self.num_acknowledged),
                ..self
            }
        } else {
            self
        }
    }
}

/// Enqueueing keeps message ids fresh and distinct.
pub proof fn lemma_enqueue_wf(q: QueueView, item: String, dedup: Option<String>, now: u64)
    requires
        q.wf(),
        q.is_duplicate(dedup) || q.next_id < u64::MAX,
    ensures
        q.after_enqueue(item, dedup, now).wf(),
        q.after_enqueue(item, dedup, now).next_id >= q.next_id,
{
    let r = q.after_enqueue(item, dedup, now);
    if !q.is_duplicate(dedup) {
        let m = q.new_message(item, dedup, now);
        let a = q.all_messages();
        let b = r.all_messages();
        assert forall|i: int| 0 <= i < b.len() implies (#[trigger] b[i]).id < r.next_id by {
            if i < q.items.len() {
                assert(b[i] == a[i]);
            } else if i == q.items.len() {
                assert(b[i] == m);
            } else {
                assert(b[i] == a[i - 1]);
            }
        }
        assert forall|i: int, j: int| 0 <= i < j < b.len() implies (#[trigger] b[i]).id != (#[trigger] b[j]).id by {
            let ii = if i < q.items.len() { i } else if i == q.items.len() { -1 } else { i - 1 };
            let jj = if j < q.items.len() { j } else if j == q.items.len() { -1 } else { j - 1 };
            if ii >= 0 {
                assert(b[i] == a[ii]);
            } else {
                assert(b[i] == m);
            }
            if jj >= 0 {
                assert(b[j] == a[jj]);
            } else {
                assert(b[j] == m);
            }
            if ii >= 0 && jj >= 0 {
                assert(a[ii].id != a[jj].id);
            }
        }
    }
}

/// Dequeueing keeps message ids fresh and distinct.
pub proof fn lemma_dequeue_wf(q: QueueView, auto_ack: bool)
    requires
        q.wf(),
    ensures
        q.after_dequeue(auto_ack).wf(),
        q.after_dequeue(auto_ack).next_id == q.next_id,
{
    let r = q.after_dequeue(auto_ack);
    if q.items.len() > 0 {
        let a = q.all_messages();
        let b = r.all_messages();
        // each message of the new queue sits somewhere in the old one, at an
        // index that grows with its new index
        let pos = |k: int| if !auto_ack && k == b.len() - 1 { 0 } else { k + 1 };
        assert forall|k: int| 0 <= k < b.len() implies b[k] == a[pos(k)] && 0 <= pos(k) < a.len() by {
            if k < q.items.len() - 1 {
                assert(b[k] == q.items[k + 1]);
            } else if !auto_ack && k == b.len() - 1 {
                assert(b[k] == q.items[0]);
            } else {
                assert(b[k] == q.unacked[k - (q.items.len() - 1)]);
            }
        }
        assert forall|i: int| 0 <= i < b.len() implies (#[trigger] b[i]).id < r.next_id by {
            assert(b[i] == a[pos(i)]);
        }
        assert forall|i: int, j: int| 0 <= i < j < b.len() implies (#[trigger] b[i]).id != (#[trigger] b[j]).id by {
            assert(b[i] == a[pos(i)]);
            assert(b[j] == a[pos(j)]);
            assert(pos(i) != pos(j));
            if pos(i) < pos(j) {
                assert(a[pos(i)].id != a[pos(j)].id);
            } else {
                assert(a[pos(j)].id != a[pos(i)].id);
            }
        }
    }
}

/// Acknowledging keeps message ids fresh and distinct.
pub proof fn lemma_ack_wf(q: QueueView, id: u64)
    requires
        q.wf(),
    ensures
        q.after_ack(id).wf(),
        q.after_ack(id).next_id == q.next_id,
{
    if q.awaits_ack(id) {
        let r = q.after_ack(id);
        let x = q.unacked_index(id);
        let a = q.all_messages();
        let b = r.all_messages();
        let n = q.items.len();
        let pos = |k: int| if k < n + x { k } else { k + 1 };
        assert forall|k: int| 0 <= k < b.len() implies b[k] == a[pos(k)] && 0 <= pos(k) < a.len() by {
            if k < n {
                assert(b[k] == a[k]);
            } else {
                assert(b[k] == r.unacked[k - n]);
            }
        }
        assert forall|i: int| 0 <= i < b.len() implies (#[trigger] b[i]).id < r.next_id by {
            assert(b[i] == a[pos(i)]);
        }
        assert forall|i: int, j: int| 0 <= i < j < b.len() implies (#[trigger] b[i]).id != (#[trigger] b[j]).id by {
            assert(b[i] == a[pos(i)]);
            assert(b[j] == a[pos(j)]);
            assert(a[pos(i)].id != a[pos(j)].id);
        }
    }
}

/// Adding a size to a clamped total clamps the sum.
proof fn lemma_clamp_add(total: nat, len: nat)
    requires
        len <= u64::MAX,
    ensures
        clamp_u64(total + len) == clamp_u64(total).saturating_add(len as u64),
{
}

/// Adds the item bytes of `msgs` to `acc`, the clamped total of `before`.
fn add_item_bytes(acc: u64, msgs: &Vec<Message>, Ghost(before): Ghost<Seq<Message>>) -> (r: u64)
    requires
        acc == clamp_u64(total_bytes(before)),
    ensures
        r == clamp_u64(total_bytes(before + msgs@)),
{
    let mut acc = acc;
    let mut j: usize = 0;
    assert(before + msgs@.take(0) =~= before);
    while j < msgs.len()
        invariant
            j <= msgs.len(),
            acc == clamp_u64(total_bytes(before + msgs@.take(j as int))),
        decreases msgs.len() - j,
    {
        let len = msgs[j].item.as_str().len();
        let ghost t = before + msgs@.take(j + 1);
        assert(t.drop_last() =~= before + msgs@.take(j as int));
        assert(t.last() == msgs@[j as int]);
        proof {
            lemma_clamp_add(total_bytes(before + msgs@.take(j as int)), len as nat);
        }
        acc = acc.saturating_add(len as u64);
        j = j + 1;
    }
    assert(msgs@.take(msgs@.len() as int) =~= msgs@);
    acc
}

/// A named queue of messages.
pub struct Queue {
    name: String,
    created_at: u64,
    ack_time: u32,
    dedup_time: u32,
    persistent: bool,
    items: Vec<Message>,
    unacked: Vec<Message>,
    dedup_ids: Vec<String>,
    next_id: u64,
    num_acknowledged: u64,
    num_dedup_hits: u64,
}

impl View for Queue {
    type V = QueueView;

    closed spec fn view(&self) -> QueueView {
        QueueView {
            name: self.name@,
            created_at: self.created_at,
            ack_time: self.ack_time,
            dedup_time: self.dedup_time,
            persistent: self.persistent,
            items: self.items@,
            unacked: self.unacked@,
            dedup_ids: self.dedup_ids@.map_values(|d: String| d@),
            next_id: self.next_id,
            num_acknowledged: self.num_acknowledged,
            num_dedup_hits: self.num_dedup_hits,
        }
    }
}

impl Queue {
    /// Message ids are below the next id and distinct.
    #[verifier::type_invariant]
    pub open spec fn inv(self) -> bool {
        self@.wf()
    }

    /// Creates an empty queue.
    pub fn new(name: String, ack_time: u32, dedup_time: u32, persistent: bool, now: u64) -> (q: Queue)
        ensures
            q@ == QueueView::fresh(name@, ack_time, dedup_time, persistent, now),
            q@.wf(),
    {
        let q = Queue {
            name,
            created_at: now,
            ack_time,
            dedup_time,
            persistent,
            items: Vec::new(),
            unacked: Vec::new(),
            dedup_ids: Vec::new(),
            next_id: 0,
            num_acknowledged: 0,
            num_dedup_hits: 0,
        };
        assert(q@.dedup_ids =~= Seq::<Seq<char>>::empty());
        assert(q@ =~= QueueView::fresh(q.name@, ack_time, dedup_time, persistent, now));
        q
    }

    pub fn name(&self) -> (r: &String)
        ensures
            r@ == self@.name,
    {
        &self.name
    }

    pub fn created_at(&self) -> (r: u64)
        ensures
            r == self@.created_at,
    {
        self.created_at
    }

    /// The number of messages waiting.
    pub fn size(&self) -> (r: usize)
        ensures
            r == self@.items.len(),
    {
        self.items.len()
    }

    /// The number of deduplication ids remembered.
    pub fn dedup_size(&self) -> (r: usize)
        ensures
            r == self@.dedup_ids.len(),
    {
        self.dedup_ids.len()
    }

    /// The number of messages awaiting acknowledgement.
    pub fn ack_size(&self) -> (r: usize)
        ensures
            r == self@.unacked.len(),
    {
        self.unacked.len()
    }

    pub fn num_acknowledged(&self) -> (r: u64)
        ensures
            r == self@.num_acknowledged,
    {
        self.num_acknowledged
    }

    pub fn num_dedup_hits(&self) -> (r: u64)
        ensures
            r == self@.num_dedup_hits,
    {
        self.num_dedup_hits
    }

    pub fn dedup_time(&self) -> (r: u32)
        ensures
            r == self@.dedup_time,
    {
        self.dedup_time
    }

    pub fn ack_time(&self) -> (r: u32)
        ensures
            r == self@.ack_time,
    {
        self.ack_time
    }

    pub fn is_persistent(&self) -> (r: bool)
        ensures
            r == self@.persistent,
    {
        self.persistent
    }

    /// The memory the messages take: the bytes of the item texts of the
    /// waiting and the unacknowledged messages, at most `u64::MAX`.
    pub fn mem_size(&self) -> (r: u64)
        ensures
            r == self@.mem_size(),
    {
        assert(Seq::<Message>::empty() + self.items@ =~= self.items@);
        let acc = add_item_bytes(0, &self.items, Ghost(Seq::empty()));
        add_item_bytes(acc, &self.unacked, Ghost(self.items@))
    }

    /// How many more messages can still be given an id.
    pub fn ids_left(&self) -> (r: u64)
        ensures
            r == u64::MAX - self@.next_id,
    {
        u64::MAX - self.next_id
    }

    /// The oldest waiting message, left in place.
    pub fn peek(&self) -> (r: Option<Message>)
        ensures
            r == self@.front(),
    {
        if self.items.len() == 0 {
            None
        } else {
            Some(self.items[0].duplicate())
        }
    }

    /// Whether this deduplication id was seen before.
    pub fn knows_dedup_id(&self, d: &String) -> (r: bool)
        ensures
            r == self@.dedup_ids.contains(d@),
    {
        let ghost ids = self@.dedup_ids;
        let mut i: usize = 0;
        while i < self.dedup_ids.len()
            invariant
                i <= self.dedup_ids.len(),
                ids == self@.dedup_ids,
                forall|j: int| 0 <= j < i ==> ids[j] != d@,
            decreases self.dedup_ids.len() - i,
        {
            if self.dedup_ids[i] == *d {
                assert(ids[i as int] == d@);
                return true;
            }
            i = i + 1;
        }
        false
    }

    /// An empty queue without a name, to stand in while a queue is rebuilt.
    fn placeholder() -> (q: Queue)
        ensures
            q@.wf(),
    {
        Queue::new(String::new(), 0, 0, false, 0)
    }

    /// Enqueues `item` unless its deduplication id was seen before; returns
    /// the new message, or `None` when the item was refused as a duplicate.
    pub fn try_enqueue(&mut self, item: String, dedup: Option<String>, now: u64) -> (r: Option<Message>)
        requires
            old(self)@.is_duplicate(dedup) || old(self)@.next_id < u64::MAX,
        ensures
            final(self)@ == old(self)@.after_enqueue(item, dedup, now),
            r == old(self)@.enqueue_reply(item, dedup, now),
            final(self)@.wf(),
    {
        proof {
            use_type_invariant(&*self);
            lemma_enqueue_wf(self@, item, dedup, now);
        }
        let ghost q0 = self@;
        let duplicate = match &dedup {
            Some(d) => self.knows_dedup_id(d),
            None => false,
        };
        let mut parts = Queue::placeholder();
        std::mem::swap(&mut parts, self);
        let Queue {
            name,
            created_at,
            ack_time,
            dedup_time,
            persistent,
            mut items,
            unacked,
            mut dedup_ids,
            next_id,
            num_acknowledged,
            num_dedup_hits,
        } = parts;
        if duplicate {
            *self = Queue {
                name,
                created_at,
                ack_time,
                dedup_time,
                persistent,
                items,
                unacked,
                dedup_ids,
                next_id,
                num_acknowledged,
                num_dedup_hits: bump_counter(num_dedup_hits),
            };
            assert(self@ =~= q0.after_enqueue(item, dedup, now));
            return None;
        }
        let ghost old_ids = dedup_ids@;
        let stored = match &dedup {
            Some(d) => {
                dedup_ids.push(d.clone());
                Some(d.clone())
            },
            None => None,
        };
        proof {
            assert(dedup_ids@.map_values(|d: String| d@) =~= match dedup {
                Some(d) => old_ids.map_values(|d: String| d@).push(d@),
                None => old_ids.map_values(|d: String| d@),
            });
        }
        let m = Message { id: next_id, item, deduplication_id: stored, queued_at: now };
        let copy = m.duplicate();
        assert(copy == q0.new_message(item, dedup, now));
        items.push(copy);
        *self = Queue {
            name,
            created_at,
            ack_time,
            dedup_time,
            persistent,
            items,
            unacked,
            dedup_ids,
            next_id: next_id + 1,
            num_acknowledged,
            num_dedup_hits,
        };
        assert(self@ =~= q0.after_enqueue(item, dedup, now));
        Some(m)
    }

    /// Takes the oldest waiting message. Without `auto_ack` it then awaits
    /// acknowledgement; with it, it counts as acknowledged at once.
    pub fn dequeue(&mut self, auto_ack: bool) -> (r: Option<Message>)
        ensures
            final(self)@ == old(self)@.after_dequeue(auto_ack),
            r == old(self)@.front(),
            final(self)@.wf(),
    {
        proof {
            use_type_invariant(&*self);
            lemma_dequeue_wf(self@, auto_ack);
        }
        if self.items.len() == 0 {
            return None;
        }
        let ghost q0 = self@;
        let mut parts = Queue::placeholder();
        std::mem::swap(&mut parts, self);
        let Queue {
            name,
            created_at,
            ack_time,
            dedup_time,
            persistent,
            mut items,
            mut unacked,
            dedup_ids,
            next_id,
            num_acknowledged,
            num_dedup_hits,
        } = parts;
        let m = items.remove(0);
        let mut acked = num_acknowledged;
        if auto_ack {
            acked = bump_counter(num_acknowledged);
        } else {
            unacked.push(m.duplicate());
        }
        *self = Queue {
            name,
            created_at,
            ack_time,
            dedup_time,
            persistent,
            items,
            unacked,
            dedup_ids,
            next_id,
            num_acknowledged: acked,
            num_dedup_hits,
        };
        assert(self@ =~= q0.after_dequeue(auto_ack));
        Some(m)
    }

    /// Acknowledges the dequeued message with this id; false when no
    /// dequeued message with this id awaits acknowledgement.
    pub fn ack(&mut self, id: u64) -> (r: bool)
        ensures
            final(self)@ == old(self)@.after_ack(id),
            r == old(self)@.awaits_ack(id),
            final(self)@.wf(),
    {
        proof {
            use_type_invariant(&*self);
            lemma_ack_wf(self@, id);
        }
        let ghost q = self@;
        let mut i: usize = 0;
        while i < self.unacked.len()
            invariant
                i <= self.unacked.len(),
                q == self@,
                q == old(self)@,
                q.wf(),
                q.after_ack(id).wf(),
                forall|j: int| 0 <= j < i ==> (#[trigger] q.unacked[j]).id != id,
            decreases self.unacked.len() - i,
        {
            if self.unacked[i].id == id {
                proof {
                    let k = q.unacked_index(id);
                    assert(q.unacked[i as int].id == id);
                    let n = q.items.len();
                    assert(q.all_messages()[n + i] == q.unacked[i as int]);
                    assert(q.all_messages()[n + k] == q.unacked[k]);
                    assert(k == i);
                    assert(q.awaits_ack(id));
                }
                let mut parts = Queue::placeholder();
                std::mem::swap(&mut parts, self);
                let Queue {
                    name,
                    created_at,
                    ack_time,
                    dedup_time,
                    persistent,
                    items,
                    mut unacked,
                    dedup_ids,
                    next_id,
                    num_acknowledged,
                    num_dedup_hits,
                } = parts;
                unacked.remove(i);
                *self = Queue {
                    name,
                    created_at,
                    ack_time,
                    dedup_time,
                    persistent,
                    items,
                    unacked,
                    dedup_ids,
                    next_id,
                    num_acknowledged: bump_counter(num_acknowledged),
                    num_dedup_hits,
                };
                assert(self@ =~= q.after_ack(id));
                return true;
            }
            i = i + 1;
        }
        false
    }
}

} // verus!

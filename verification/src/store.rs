//! The set of named queues that the service holds.

use vstd::prelude::*;
use crate::queue::{lemma_ack_wf, lemma_dequeue_wf, lemma_enqueue_wf, same_settings, Message, Queue, QueueView};

verus! {

/// No two queues share a name.
pub open spec fn names_distinct(qs: Seq<QueueView>) -> bool {
    forall|i: int, j: int| 0 <= i < j < qs.len() ==> (#[trigger] qs[i]).name != (#[trigger] qs[j]).name
}

/// Names are distinct and every queue is well formed.
pub open spec fn store_wf(qs: Seq<QueueView>) -> bool {
    &&& names_distinct(qs)
    &&& forall|i: int| 0 <= i < qs.len() ==> (#[trigger] qs[i]).wf()
}

/// A queue of this name exists.
pub open spec fn has_queue(qs: Seq<QueueView>, name: Seq<char>) -> bool {
    exists|i: int| 0 <= i < qs.len() && (#[trigger] qs[i]).name == name
}

/// The position of the queue of this name.
pub open spec fn queue_index(qs: Seq<QueueView>, name: Seq<char>) -> int {
    choose|i: int| 0 <= i < qs.len() && (#[trigger] qs[i]).name == name
}

/// The queue of this name.
pub open spec fn queue_named(qs: Seq<QueueView>, name: Seq<char>) -> QueueView {
    qs[queue_index(qs, name)]
}

/// The names of the queues, in the order the queues were created.
pub open spec fn queue_names(qs: Seq<QueueView>) -> Seq<Seq<char>> {
    qs.map_values(|q: QueueView| q.name)
}

/// With distinct names, the queue found under a name is the one at its position.
pub proof fn lemma_index_unique(qs: Seq<QueueView>, i: int)
    requires
        names_distinct(qs),
        0 <= i < qs.len(),
    ensures
        has_queue(qs, qs[i].name),
        queue_index(qs, qs[i].name) == i,
{
    let name = qs[i].name;
    assert(qs[i].name == name);
    let k = queue_index(qs, name);
    if k < i {
        assert(qs[k].name != qs[i].name);
    } else if k > i {
        assert(qs[i].name != qs[k].name);
    }
}

/// Replacing a queue by one of the same name keeps the store well formed
/// and every name where it was.
pub proof fn lemma_update_same_name(qs: Seq<QueueView>, i: int, q: QueueView)
    requires
        store_wf(qs),
        0 <= i < qs.len(),
        q.name == qs[i].name,
        q.wf(),
    ensures
        store_wf(qs.update(i, q)),
        forall|name: Seq<char>| has_queue(qs.update(i, q), name) == has_queue(qs, name),
        forall|name: Seq<char>| has_queue(qs, name) ==> queue_index(qs.update(i, q), name) == queue_index(qs, name),
        queue_names(qs.update(i, q)) == queue_names(qs),
{
    let r = qs.update(i, q);
    assert forall|a: int, b: int| 0 <= a < b < r.len() implies (#[trigger] r[a]).name != (#[trigger] r[b]).name by {
        assert(qs[a].name != qs[b].name);
    }
    assert forall|name: Seq<char>| has_queue(r, name) == has_queue(qs, name) by {
        if has_queue(qs, name) {
            let k = queue_index(qs, name);
            assert(r[k].name == name);
        }
        if has_queue(r, name) {
            let k = queue_index(r, name);
            assert(qs[k].name == name);
        }
    }
    assert forall|name: Seq<char>| has_queue(qs, name) implies queue_index(r, name) == queue_index(qs, name) by {
        let k = queue_index(qs, name);
        assert(qs[k].name == name);
        lemma_index_unique(qs, k);
        assert(r[k].name == name);
        lemma_index_unique(r, k);
    }
    assert(queue_names(r) =~= queue_names(qs));
}

/// Every queue of `before` is still in `after`, under the same name, with
/// the same creation time and settings.
pub open spec fn keeps_queues(before: Seq<QueueView>, after: Seq<QueueView>) -> bool {
    forall|name: Seq<char>|
        #[trigger] has_queue(before, name) ==> has_queue(after, name) && same_settings(
            queue_named(after, name),
            queue_named(before, name),
        )
}

/// Nothing changed keeps every queue.
pub proof fn lemma_keeps_refl(qs: Seq<QueueView>)
    ensures
        keeps_queues(qs, qs),
{
}

/// Keeping the queues is transitive.
pub proof fn lemma_keeps_trans(a: Seq<QueueView>, b: Seq<QueueView>, c: Seq<QueueView>)
    requires
        keeps_queues(a, b),
        keeps_queues(b, c),
    ensures
        keeps_queues(a, c),
{
    assert forall|name: Seq<char>| #[trigger] has_queue(a, name) implies has_queue(c, name) && same_settings(
        queue_named(c, name),
        queue_named(a, name),
    ) by {
        assert(has_queue(b, name));
    }
}

/// Replacing a queue by one with the same settings keeps every queue.
pub proof fn lemma_keeps_update(qs: Seq<QueueView>, i: int, q: QueueView)
    requires
        names_distinct(qs),
        0 <= i < qs.len(),
        same_settings(q, qs[i]),
    ensures
        keeps_queues(qs, qs.update(i, q)),
{
    let r = qs.update(i, q);
    assert forall|a: int, b: int| 0 <= a < b < r.len() implies (#[trigger] r[a]).name != (#[trigger] r[b]).name by {
        assert(qs[a].name != qs[b].name);
    }
    assert forall|name: Seq<char>| #[trigger] has_queue(qs, name) implies has_queue(r, name) && same_settings(
        queue_named(r, name),
        queue_named(qs, name),
    ) by {
        let k = queue_index(qs, name);
        assert(qs[k].name == name);
        lemma_index_unique(qs, k);
        assert(r[k].name == name);
        lemma_index_unique(r, k);
    }
}

/// Adding a queue under a new name keeps the store well formed and every
/// queue it held; the new queue is found under its name.
pub proof fn lemma_keeps_push(qs: Seq<QueueView>, q: QueueView)
    requires
        store_wf(qs),
        !has_queue(qs, q.name),
        q.wf(),
    ensures
        store_wf(qs.push(q)),
        keeps_queues(qs, qs.push(q)),
        has_queue(qs.push(q), q.name),
        queue_named(qs.push(q), q.name) == q,
{
    let r = qs.push(q);
    assert forall|a: int, b: int| 0 <= a < b < r.len() implies (#[trigger] r[a]).name != (#[trigger] r[b]).name by {
        if b == qs.len() {
            assert(r[a] == qs[a]);
            if qs[a].name == q.name {
                assert(has_queue(qs, q.name));
            }
        } else {
            assert(qs[a].name != qs[b].name);
        }
    }
    assert forall|name: Seq<char>| #[trigger] has_queue(qs, name) implies has_queue(r, name) && same_settings(
        queue_named(r, name),
        queue_named(qs, name),
    ) by {
        let k = queue_index(qs, name);
        assert(qs[k].name == name);
        lemma_index_unique(qs, k);
        assert(r[k] == qs[k]);
        lemma_index_unique(r, k);
    }
    lemma_index_unique(r, qs.len() as int);
}

/// The queues of the service, each under its own name.
pub struct QueueStore {
    queues: Vec<Queue>,
}

impl View for QueueStore {
    type V = Seq<QueueView>;

    closed spec fn view(&self) -> Seq<QueueView> {
        self.queues@.map_values(|q: Queue| q@)
    }
}

impl QueueStore {
    /// Names are distinct and every queue is well formed.
    #[verifier::type_invariant]
    pub open spec fn inv(self) -> bool {
        store_wf(self@)
    }

    /// A store without queues.
    pub fn new() -> (s: QueueStore)
        ensures
            s@ == Seq::<QueueView>::empty(),
            store_wf(s@),
    {
        let s = QueueStore { queues: Vec::new() };
        assert(s@ =~= Seq::<QueueView>::empty());
        s
    }

    /// The number of queues.
    pub fn len(&self) -> (r: usize)
        ensures
            r == self@.len(),
    {
        self.queues.len()
    }

    /// The position of the queue named `name`, if there is one.
    pub fn find(&self, name: &str) -> (r: Option<usize>)
        ensures
            store_wf(self@),
            r is None <==> !has_queue(self@, name@),
            r matches Some(i) ==> i < self@.len() && i == queue_index(self@, name@) && self@[i as int].name == name@,
    {
        proof {
            use_type_invariant(self);
        }
        let target = name.to_owned();
        let mut i: usize = 0;
        while i < self.queues.len()
            invariant
                i <= self.queues.len(),
                store_wf(self@),
                target@ == name@,
                forall|j: int| 0 <= j < i ==> (#[trigger] self@[j]).name != name@,
            decreases self.queues.len() - i,
        {
            if *self.queues[i].name() == target {
                proof {
                    assert(self@[i as int] == self.queues@[i as int]@);
                    lemma_index_unique(self@, i as int);
                }
                return Some(i);
            }
            assert(self@[i as int] == self.queues@[i as int]@);
            i = i + 1;
        }
        assert forall|j: int| 0 <= j < self@.len() implies (#[trigger] self@[j]).name != name@ by {}
        None
    }

    /// Whether a queue named `name` exists.
    pub fn contains(&self, name: &str) -> (r: bool)
        ensures
            r == has_queue(self@, name@),
    {
        self.find(name).is_some()
    }

    /// The queue at position `i`.
    pub fn queue_at(&self, i: usize) -> (r: &Queue)
        requires
            i < self@.len(),
        ensures
            r@ == self@[i as int],
    {
        &self.queues[i]
    }

    /// Adds a queue under a name not yet taken.
    pub fn insert(&mut self, q: Queue)
        requires
            !has_queue(old(self)@, q@.name),
        ensures
            final(self)@ == old(self)@.push(q@),
            store_wf(final(self)@),
            keeps_queues(old(self)@, final(self)@),
    {
        proof {
            use_type_invariant(&*self);
            use_type_invariant(&q);
            lemma_keeps_push(self@, q@);
        }
        let ghost qv = q@;
        let ghost before = self@;
        let mut qs: Vec<Queue> = Vec::new();
        std::mem::swap(&mut qs, &mut self.queues);
        assert(qs@.map_values(|q: Queue| q@) == before);
        qs.push(q);
        assert(qs@.map_values(|q: Queue| q@) =~= before.push(qv));
        self.queues = qs;
    }

    /// Dequeues from the queue at position `i`.
    pub fn dequeue_at(&mut self, i: usize, auto_ack: bool) -> (r: Option<Message>)
        requires
            i < old(self)@.len(),
        ensures
            final(self)@ == old(self)@.update(i as int, old(self)@[i as int].after_dequeue(auto_ack)),
            r == old(self)@[i as int].front(),
            store_wf(final(self)@),
            keeps_queues(old(self)@, final(self)@),
    {
        proof {
            use_type_invariant(&*self);
        }
        let ghost before = self@;
        proof {
            lemma_keeps_update(before, i as int, before[i as int].after_dequeue(auto_ack));
            lemma_dequeue_wf(before[i as int], auto_ack);
            lemma_update_same_name(before, i as int, before[i as int].after_dequeue(auto_ack));
        }
        let mut qs: Vec<Queue> = Vec::new();
        std::mem::swap(&mut qs, &mut self.queues);
        assert(qs@.map_values(|q: Queue| q@) == before);
        assert(qs@[i as int]@ == before[i as int]);
        let r = qs[i].dequeue(auto_ack);
        assert(qs@.map_values(|q: Queue| q@) =~= before.update(i as int, before[i as int].after_dequeue(auto_ack)));
        self.queues = qs;
        r
    }

    /// Offers `item` to the queue at position `i`.
    pub fn enqueue_at(&mut self, i: usize, item: String, dedup: Option<String>, now: u64) -> (r: Option<Message>)
        requires
            i < old(self)@.len(),
            old(self)@[i as int].is_duplicate(dedup) || old(self)@[i as int].next_id < u64::MAX,
        ensures
            final(self)@ == old(self)@.update(i as int, old(self)@[i as int].after_enqueue(item, dedup, now)),
            r == old(self)@[i as int].enqueue_reply(item, dedup, now),
            store_wf(final(self)@),
            keeps_queues(old(self)@, final(self)@),
    {
        proof {
            use_type_invariant(&*self);
        }
        let ghost before = self@;
        proof {
            lemma_keeps_update(before, i as int, before[i as int].after_enqueue(item, dedup, now));
            lemma_enqueue_wf(before[i as int], item, dedup, now);
            lemma_update_same_name(before, i as int, before[i as int].after_enqueue(item, dedup, now));
        }
        let mut qs: Vec<Queue> = Vec::new();
        std::mem::swap(&mut qs, &mut self.queues);
        assert(qs@.map_values(|q: Queue| q@) == before);
        assert(qs@[i as int]@ == before[i as int]);
        let r = qs[i].try_enqueue(item, dedup, now);
        assert(qs@.map_values(|q: Queue| q@) =~= before.update(
            i as int,
            before[i as int].after_enqueue(item, dedup, now),
        ));
        self.queues = qs;
        r
    }

    /// Acknowledges message `id` of the queue at position `i`.
    pub fn ack_at(&mut self, i: usize, id: u64) -> (r: bool)
        requires
            i < old(self)@.len(),
        ensures
            final(self)@ == old(self)@.update(i as int, old(self)@[i as int].after_ack(id)),
            r == old(self)@[i as int].awaits_ack(id),
            store_wf(final(self)@),
            keeps_queues(old(self)@, final(self)@),
    {
        proof {
            use_type_invariant(&*self);
        }
        let ghost before = self@;
        proof {
            lemma_keeps_update(before, i as int, before[i as int].after_ack(id));
            lemma_ack_wf(before[i as int], id);
            lemma_update_same_name(before, i as int, before[i as int].after_ack(id));
        }
        let mut qs: Vec<Queue> = Vec::new();
        std::mem::swap(&mut qs, &mut self.queues);
        assert(qs@.map_values(|q: Queue| q@) == before);
        assert(qs@[i as int]@ == before[i as int]);
        let r = qs[i].ack(id);
        assert(qs@.map_values(|q: Queue| q@) =~= before.update(i as int, before[i as int].after_ack(id)));
        self.queues = qs;
        r
    }

    /// The names of the queues, in the order the queues were created.
    pub fn names(&self) -> (r: Vec<String>)
        ensures
            r@.map_values(|s: String| s@) == queue_names(self@),
    {
        let mut r: Vec<String> = Vec::new();
        let mut i: usize = 0;
        while i < self.queues.len()
            invariant
                i <= self.queues.len(),
                r@.map_values(|s: String| s@) =~= queue_names(self@).subrange(0, i as int),
            decreases self.queues.len() - i,
        {
            assert(self@[i as int] == self.queues@[i as int]@);
            let ghost old_r = r@;
            let nm = self.queues[i].name().clone();
            r.push(nm);
            assert(r@.map_values(|s: String| s@) =~= old_r.map_values(|s: String| s@).push(nm@));
            assert(queue_names(self@).subrange(0, i + 1) =~= queue_names(self@).subrange(0, i as int).push(
                self@[i as int].name,
            ));
            i = i + 1;
        }
        r
    }
}

} // verus!

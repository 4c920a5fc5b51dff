//! What the parameters of a request, the listing order, the acceptance of a
//! batch and the reported figures of a queue mean, stated against the
//! operations they describe.

use vstd::prelude::*;
use crate::json::json_text_is_object;
use crate::order::text_lt;
use crate::queue::{Message, QueueView};
use crate::reply::{reports, QueueInfo};
use crate::routes::{after_dequeue_many, batch_accepted, dequeued_many, requested_amount, time_setting, NewItem};
use crate::text::{all_digits, decimal_value, flag_on, parse_unsigned};

verus! {

/// A dequeue request without an amount takes exactly one message, the
/// oldest, and leaves the others waiting in order.
pub proof fn law_default_amount_takes_one(q: QueueView, auto_ack: bool)
    requires
        q.items.len() > 0,
    ensures
        requested_amount(None) is Some,
        dequeued_many(q, requested_amount(None)->0) == seq![q.items[0]],
        after_dequeue_many(q, auto_ack, requested_amount(None)->0).items == q.items.drop_first(),
{
    let n = requested_amount(None)->0;
    assert(n == 1);
    assert(q.items.take(1) =~= seq![q.items[0]]);
    let q1 = q.after_dequeue(auto_ack);
    assert(after_dequeue_many(q1, auto_ack, 0) == q1);
    assert(q1.items =~= q.items.drop_first());
}

/// A decimal amount from 0 to 255 is read as that number.
pub proof fn law_amount_reads_decimal(d: Seq<char>)
    requires
        d.len() > 0,
        all_digits(d),
        decimal_value(d) <= 255,
    ensures
        requested_amount(Some(d)) == Some(decimal_value(d)),
{
    assert('0' <= d[0] && d[0] <= '9');
}

/// Every decimal number up to `u32::MAX` is accepted as a time setting, as
/// that number; a larger one is refused; an absent one is 300 seconds.
pub proof fn law_time_setting_reads_u32(d: Seq<char>)
    requires
        d.len() > 0,
        all_digits(d),
    ensures
        decimal_value(d) <= u32::MAX ==> time_setting(Some(d)) == Some(decimal_value(d)),
        decimal_value(d) > u32::MAX ==> time_setting(Some(d)) is None,
        time_setting(None) == Some(300nat),
{
    assert('0' <= d[0] && d[0] <= '9');
}

/// A batch with an item that is not a JSON object is refused, wherever that
/// item stands.
pub proof fn law_batch_needs_every_item_an_object(items: Seq<NewItem>, i: int)
    requires
        0 <= i < items.len(),
        !json_text_is_object(items[i].item@),
    ensures
        !batch_accepted(items),
{
}

/// A batch of at most 255 JSON objects is taken; a batch of 256 or more is
/// refused.
pub proof fn law_batch_of_objects_taken(items: Seq<NewItem>)
    ensures
        items.len() < 256 && (forall|i: int| 0 <= i < items.len() ==> json_text_is_object(#[trigger] items[i].item@))
            ==> batch_accepted(items),
        items.len() >= 256 ==> !batch_accepted(items),
{
}

/// The listing order compares texts at their first difference by character
/// code.
pub proof fn law_order_first_difference(a: Seq<char>, b: Seq<char>, k: int)
    requires
        0 <= k < a.len(),
        k < b.len(),
        a.take(k) == b.take(k),
        a[k] != b[k],
    ensures
        text_lt(a, b) == (a[k] < b[k]),
    decreases k,
{
    if k > 0 {
        assert(a.take(k)[0] == b.take(k)[0]);
        assert(a.take(k)[0] == a[0] && b.take(k)[0] == b[0]);
        assert(a.drop_first()[k - 1] == a[k] && b.drop_first()[k - 1] == b[k]);
        assert(a.drop_first().take(k - 1) =~= a.take(k).drop_first());
        assert(b.drop_first().take(k - 1) =~= b.take(k).drop_first());
        law_order_first_difference(a.drop_first(), b.drop_first(), k - 1);
    }
}

/// A proper prefix comes before the longer text, never after it.
pub proof fn law_order_prefix_first(a: Seq<char>, b: Seq<char>)
    requires
        a.len() < b.len(),
        b.take(a.len() as int) == a,
    ensures
        text_lt(a, b),
        !text_lt(b, a),
    decreases a.len(),
{
    if a.len() > 0 {
        assert(b.take(a.len() as int)[0] == a[0]);
        assert(b.drop_first().take(a.len() - 1) =~= a.drop_first());
        law_order_prefix_first(a.drop_first(), b.drop_first());
    }
}

/// A new queue reports its name, creation time and settings, and zero for
/// every count and for its memory.
pub proof fn law_fresh_queue_figures(
    info: QueueInfo,
    name: Seq<char>,
    ack_time: u32,
    dedup_time: u32,
    persistent: bool,
    now: u64,
)
    requires
        reports(info, QueueView::fresh(name, ack_time, dedup_time, persistent, now)),
    ensures
        info.name@ == name,
        info.created_at == now,
        info.ack_time == ack_time,
        info.dedup_time == dedup_time,
        info.persistent == persistent,
        info.size == 0,
        info.num_deduped == 0,
        info.num_unacked == 0,
        info.num_acknowledged == 0,
        info.num_dedup_hits == 0,
        info.mem_size == 0,
{
    let q = QueueView::fresh(name, ack_time, dedup_time, persistent, now);
    assert(q.all_messages() =~= Seq::<Message>::empty());
}

/// What a dequeue does to the reported figures: one message fewer waits;
/// acknowledged at once it is counted, otherwise it awaits acknowledgement;
/// the deduplication figures and the settings stay.
pub proof fn law_dequeue_figures(q: QueueView, auto_ack: bool, before: QueueInfo, after: QueueInfo)
    requires
        q.items.len() > 0,
        reports(before, q),
        reports(after, q.after_dequeue(auto_ack)),
    ensures
        after.size == before.size - 1,
        after.num_dedup_hits == before.num_dedup_hits,
        after.num_deduped == before.num_deduped,
        auto_ack ==> after.num_unacked == before.num_unacked,
        auto_ack && before.num_acknowledged < u64::MAX ==> after.num_acknowledged == before.num_acknowledged + 1,
        !auto_ack ==> after.num_unacked == before.num_unacked + 1,
        !auto_ack ==> after.num_acknowledged == before.num_acknowledged,
        after.name@ == before.name@,
        after.created_at == before.created_at,
        after.ack_time == before.ack_time,
        after.dedup_time == before.dedup_time,
        after.persistent == before.persistent,
{
}

/// What an enqueue does to the reported figures: a refused duplicate adds
/// to the deduplication hits and nothing else; a taken item waits, and its
/// deduplication id, if any, is remembered.
pub proof fn law_enqueue_figures(
    q: QueueView,
    item: String,
    dedup: Option<String>,
    now: u64,
    before: QueueInfo,
    after: QueueInfo,
)
    requires
        reports(before, q),
        reports(after, q.after_enqueue(item, dedup, now)),
    ensures
        ({
            let refused = dedup matches Some(d) && q.dedup_ids.contains(d@);
            &&& refused ==> after.size == before.size
            &&& refused ==> after.num_deduped == before.num_deduped
            &&& refused && before.num_dedup_hits < u64::MAX ==> after.num_dedup_hits == before.num_dedup_hits + 1
            &&& !refused ==> after.size == before.size + 1
            &&& !refused ==> after.num_dedup_hits == before.num_dedup_hits
            &&& !refused ==> after.num_deduped == before.num_deduped + if dedup is Some {
                1int
            } else {
                0int
            }
            &&& after.num_unacked == before.num_unacked
            &&& after.num_acknowledged == before.num_acknowledged
        }),
{
}

/// What an acknowledgement does to the reported figures: one message fewer
/// awaits acknowledgement and it is counted; the rest stays.
pub proof fn law_ack_figures(q: QueueView, id: u64, before: QueueInfo, after: QueueInfo)
    requires
        q.awaits_ack(id),
        reports(before, q),
        reports(after, q.after_ack(id)),
    ensures
        after.num_unacked == before.num_unacked - 1,
        before.num_acknowledged < u64::MAX ==> after.num_acknowledged == before.num_acknowledged + 1,
        after.size == before.size,
        after.num_dedup_hits == before.num_dedup_hits,
        after.num_deduped == before.num_deduped,
{
}

/// A flag is on exactly when the parameter is present and reads `true`.
pub proof fn law_flag_reads_true(t: Seq<char>)
    ensures
        !flag_on(None),
        flag_on(Some(t)) <==> t == "true"@,
{
}

/// Appending a digit multiplies the value by ten and adds the digit.
pub proof fn law_decimal_value_appends(d: Seq<char>, c: char)
    ensures
        decimal_value(Seq::empty()) == 0,
        decimal_value(d.push(c)) == decimal_value(d) * 10 + (c as int - '0' as int) || !('0' <= c && c <= '9'),
{
    assert(d.push(c).drop_last() =~= d);
}

/// Reading an unsigned number: digits denote their value up to the bound;
/// a leading `+` changes nothing; an empty text, a lone `+`, a text with
/// any other character, or a value above the bound is refused.
pub proof fn law_parse_unsigned(d: Seq<char>, max: nat, i: int)
    requires
        0 <= i < d.len(),
    ensures
        all_digits(d) && decimal_value(d) <= max ==> parse_unsigned(d, max) == Some(decimal_value(d)),
        all_digits(d) ==> parse_unsigned(seq!['+'] + d, max) == parse_unsigned(d, max),
        all_digits(d) && decimal_value(d) > max ==> parse_unsigned(d, max) is None,
        !('0' <= d[i] && d[i] <= '9') ==> parse_unsigned(seq!['+'] + d, max) is None,
        !('0' <= d[i] && d[i] <= '9') && d[0] != '+' ==> parse_unsigned(d, max) is None,
        parse_unsigned(Seq::empty(), max) is None,
        parse_unsigned(seq!['+'], max) is None,
{
    let p = seq!['+'] + d;
    assert(p.drop_first() =~= d);
    assert(p[0] == '+');
    assert(seq!['+'].drop_first() =~= Seq::<char>::empty());
    if all_digits(d) {
        assert('0' <= d[0] && d[0] <= '9');
    }
}

} // verus!

use corinth::queue::{Message, Queue};

fn msg(id: u64, item: &str, dedup: Option<&str>, at: u64) -> Message {
    Message { id, item: item.to_string(), deduplication_id: dedup.map(|d| d.to_string()), queued_at: at }
}

#[test]
fn new_queue_is_empty() {
    let q = Queue::new("jobs".to_string(), 10, 20, true, 99);
    assert_eq!(q.name(), "jobs");
    assert_eq!(q.created_at(), 99);
    assert_eq!(q.size(), 0);
    assert_eq!(q.dedup_size(), 0);
    assert_eq!(q.ack_size(), 0);
    assert_eq!(q.num_acknowledged(), 0);
    assert_eq!(q.num_dedup_hits(), 0);
    assert_eq!(q.ack_time(), 10);
    assert_eq!(q.dedup_time(), 20);
    assert!(q.is_persistent());
    assert_eq!(q.ids_left(), u64::MAX);
    assert_eq!(q.peek(), None);
}

#[test]
fn messages_come_out_first_in_first_out() {
    let mut q = Queue::new("q".to_string(), 300, 300, false, 0);
    assert_eq!(q.try_enqueue("{\"n\":1}".to_string(), None, 5), Some(msg(0, "{\"n\":1}", None, 5)));
    assert_eq!(q.try_enqueue("{\"n\":2}".to_string(), None, 6), Some(msg(1, "{\"n\":2}", None, 6)));
    assert_eq!(q.peek(), Some(msg(0, "{\"n\":1}", None, 5)));
    assert_eq!(q.size(), 2);
    assert_eq!(q.dequeue(true), Some(msg(0, "{\"n\":1}", None, 5)));
    assert_eq!(q.dequeue(true), Some(msg(1, "{\"n\":2}", None, 6)));
    assert_eq!(q.dequeue(true), None);
    assert_eq!(q.num_acknowledged(), 2);
}

#[test]
fn duplicate_dedup_ids_are_refused() {
    let mut q = Queue::new("q".to_string(), 300, 300, false, 0);
    assert!(q.try_enqueue("{}".to_string(), Some("x".to_string()), 1).is_some());
    assert_eq!(q.try_enqueue("{\"other\":1}".to_string(), Some("x".to_string()), 2), None);
    assert!(q.try_enqueue("{}".to_string(), Some("y".to_string()), 3).is_some());
    assert!(q.try_enqueue("{}".to_string(), None, 4).is_some());
    assert!(q.try_enqueue("{}".to_string(), None, 5).is_some());
    assert_eq!(q.size(), 4);
    assert_eq!(q.dedup_size(), 2);
    assert_eq!(q.num_dedup_hits(), 1);
}

#[test]
fn dequeued_messages_are_acknowledged_once() {
    let mut q = Queue::new("q".to_string(), 300, 300, false, 0);
    q.try_enqueue("{}".to_string(), None, 1);
    q.try_enqueue("{}".to_string(), None, 1);
    let m = q.dequeue(false).unwrap();
    assert_eq!(m.id, 0);
    assert_eq!(q.ack_size(), 1);
    assert!(!q.ack(1));
    assert!(q.ack(0));
    assert!(!q.ack(0));
    assert_eq!(q.ack_size(), 0);
    assert_eq!(q.num_acknowledged(), 1);
    assert_eq!(q.size(), 1);
}

#[test]
fn auto_acknowledged_messages_do_not_await_acknowledgement() {
    let mut q = Queue::new("q".to_string(), 300, 300, false, 0);
    q.try_enqueue("{}".to_string(), None, 1);
    let m = q.dequeue(true).unwrap();
    assert_eq!(q.ack_size(), 0);
    assert!(!q.ack(m.id));
    assert_eq!(q.num_acknowledged(), 1);
}

#[test]
fn duplicate_copies_a_message() {
    let m = msg(3, "{\"a\":true}", Some("d"), 42);
    assert_eq!(m.duplicate(), m);
}

#[test]
fn mem_size_counts_item_bytes_of_held_messages() {
    let mut q = Queue::new("q".to_string(), 300, 300, false, 0);
    assert_eq!(q.mem_size(), 0);
    q.try_enqueue("{}".to_string(), None, 1);
    q.try_enqueue("{\"é\":1}".to_string(), None, 1);
    q.try_enqueue("{\"x\":2}".to_string(), None, 1);
    assert_eq!(q.mem_size(), 2 + 8 + 7);
    q.dequeue(false);
    assert_eq!(q.mem_size(), 2 + 8 + 7);
    q.dequeue(true);
    assert_eq!(q.mem_size(), 2 + 7);
    q.ack(0);
    assert_eq!(q.mem_size(), 7);
}

#[test]
fn knows_dedup_id_after_enqueue() {
    let mut q = Queue::new("q".to_string(), 300, 300, false, 0);
    assert!(!q.knows_dedup_id(&"k".to_string()));
    q.try_enqueue("{}".to_string(), Some("k".to_string()), 0);
    assert!(q.knows_dedup_id(&"k".to_string()));
    assert!(!q.knows_dedup_id(&"j".to_string()));
}

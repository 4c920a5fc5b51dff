use corinth::queue::Message;
use corinth::reply::{Payload, QueueInfo, Reply};
use corinth::routes::{
    ack_message, batch_is_accepted, create_queue_handler, dequeue_handler, enqueue_handler, list_queues, peek_handler,
    queue_info, EnqueueBody, NewItem,
};
use corinth::store::QueueStore;

fn item(text: &str, dedup: Option<&str>) -> NewItem {
    NewItem { item: text.to_string(), deduplication_id: dedup.map(|d| d.to_string()) }
}

fn body(items: Vec<NewItem>) -> EnqueueBody {
    EnqueueBody { messages: items }
}

fn fail(status: u16, message: &str) -> Reply {
    Reply::Failure { status, message: message.to_string() }
}

fn ok(status: u16, message: &str, payload: Payload) -> Reply {
    Reply::Success { status, message: message.to_string(), payload }
}

fn msg(id: u64, text: &str, dedup: Option<&str>, at: u64) -> Message {
    Message { id, item: text.to_string(), deduplication_id: dedup.map(|d| d.to_string()), queued_at: at }
}

fn store_with(name: &str) -> QueueStore {
    let mut s = QueueStore::new();
    let r = create_queue_handler(&mut s, name, None, None, None, 1);
    assert_eq!(r, ok(201, "Queue created successfully", Payload::Nothing));
    s
}

#[test]
fn create_queue_uses_defaults_and_refuses_duplicates() {
    let mut s = store_with("jobs");
    assert_eq!(create_queue_handler(&mut s, "jobs", None, None, None, 2), fail(409, "Queue already exists"));
    let info = queue_info(&s, "jobs");
    assert_eq!(
        info,
        ok(
            200,
            "Queue info retrieved successfully",
            Payload::Info(QueueInfo {
                name: "jobs".to_string(),
                created_at: 1,
                size: 0,
                num_deduped: 0,
                num_unacked: 0,
                num_acknowledged: 0,
                num_dedup_hits: 0,
                dedup_time: 300,
                ack_time: 300,
                persistent: false,
                mem_size: 0,
            })
        )
    );
}

#[test]
fn create_queue_reads_times_and_persistence() {
    let mut s = QueueStore::new();
    let r = create_queue_handler(&mut s, "p", Some("5"), Some("+7"), Some("true"), 3);
    assert_eq!(r.status(), 201);
    match queue_info(&s, "p") {
        Reply::Success { payload: Payload::Info(info), .. } => {
            assert_eq!(info.ack_time, 5);
            assert_eq!(info.dedup_time, 7);
            assert!(info.persistent);
            assert_eq!(info.created_at, 3);
        }
        other => panic!("unexpected {:?}", other),
    }
}

#[test]
fn create_queue_refuses_bad_times() {
    let mut s = QueueStore::new();
    assert_eq!(create_queue_handler(&mut s, "q", Some("-1"), None, None, 0), fail(400, "Invalid time argument"));
    assert_eq!(create_queue_handler(&mut s, "q", None, Some("4294967296"), None, 0), fail(400, "Invalid time argument"));
    assert_eq!(queue_info(&s, "q"), fail(404, "Queue not found"));
}

#[test]
fn unknown_queues_are_not_found() {
    let mut s = QueueStore::new();
    assert_eq!(peek_handler(&s, "none"), fail(404, "Queue not found"));
    assert_eq!(dequeue_handler(&mut s, "none", None, Some("junk")), fail(404, "Queue not found"));
    assert_eq!(ack_message(&mut s, "none", "0"), fail(404, "Queue not found"));
    assert_eq!(queue_info(&s, "none"), fail(404, "Queue not found"));
}

#[test]
fn peek_reports_empty_queue_then_the_oldest_message() {
    let mut s = store_with("q");
    assert_eq!(peek_handler(&s, "q"), ok(200, "Queue is empty", Payload::Item(None)));
    let b = body(vec![item("{\"a\":1}", None), item("{\"b\":2}", None)]);
    enqueue_handler(&mut s, "q", &b, None, None, 10);
    let expected = ok(200, "Message retrieved successfully", Payload::Item(Some(msg(0, "{\"a\":1}", None, 10))));
    assert_eq!(peek_handler(&s, "q"), expected);
    assert_eq!(peek_handler(&s, "q"), expected);
}

#[test]
fn enqueue_counts_enqueued_and_deduplicated_items() {
    let mut s = store_with("q");
    let b = body(vec![item("{}", Some("x")), item("{\"v\":1}", Some("x")), item("{}", None), item("{}", Some("y"))]);
    let r = enqueue_handler(&mut s, "q", &b, None, None, 4);
    assert_eq!(
        r,
        ok(
            202,
            "Request processed successfully",
            Payload::Enqueued {
                items: vec![msg(0, "{}", Some("x"), 4), msg(1, "{}", None, 4), msg(2, "{}", Some("y"), 4)],
                num_deduplicated: 1,
            }
        )
    );
    let again = enqueue_handler(&mut s, "q", &body(vec![item("{}", Some("y"))]), None, None, 5);
    assert_eq!(
        again,
        ok(202, "Request processed successfully", Payload::Enqueued { items: vec![], num_deduplicated: 1 })
    );
}

#[test]
fn enqueue_refuses_items_that_are_not_objects() {
    let mut s = store_with("q");
    let message = "body.items is required to be of type Array<Object> with at most 255 items";
    for text in ["[1,2]", "5", "\"s\"", "null", "not json", "{"] {
        let r = enqueue_handler(&mut s, "q", &body(vec![item("{}", None), item(text, None)]), None, None, 0);
        assert_eq!(r, fail(400, message), "{}", text);
    }
    assert_eq!(peek_handler(&s, "q"), ok(200, "Queue is empty", Payload::Item(None)));
}

#[test]
fn enqueue_refuses_batches_of_256_items() {
    let mut s = store_with("q");
    let message = "body.items is required to be of type Array<Object> with at most 255 items";
    let big: Vec<NewItem> = (0..256).map(|_| item("{}", None)).collect();
    assert_eq!(enqueue_handler(&mut s, "q", &body(big), None, None, 0), fail(400, message));
    let most: Vec<NewItem> = (0..255).map(|_| item("{}", None)).collect();
    assert_eq!(enqueue_handler(&mut s, "q", &body(most), None, None, 0).status(), 202);
}

#[test]
fn enqueue_creates_a_missing_queue_only_when_asked() {
    let mut s = QueueStore::new();
    let b = body(vec![item("{}", None)]);
    assert_eq!(enqueue_handler(&mut s, "new", &b, None, Some("true"), 0), fail(404, "Queue not found"));
    assert_eq!(enqueue_handler(&mut s, "new", &b, Some("yes"), None, 0), fail(404, "Queue not found"));
    assert_eq!(enqueue_handler(&mut s, "new", &b, Some("true"), Some("true"), 8).status(), 202);
    match queue_info(&s, "new") {
        Reply::Success { payload: Payload::Info(info), .. } => {
            assert!(info.persistent);
            assert_eq!(info.size, 1);
            assert_eq!(info.ack_time, 300);
            assert_eq!(info.dedup_time, 300);
            assert_eq!(info.created_at, 8);
        }
        other => panic!("unexpected {:?}", other),
    }
}

#[test]
fn batch_acceptance_asks_serde_json() {
    assert!(batch_is_accepted(&vec![item("{\"k\": [1, 2]}", None), item(" { } ", None)]));
    assert!(!batch_is_accepted(&vec![item("[]", None)]));
    assert!(batch_is_accepted(&vec![]));
}

#[test]
fn dequeue_takes_up_to_amount_in_order() {
    let mut s = store_with("q");
    let b = body(vec![item("{\"n\":0}", None), item("{\"n\":1}", None), item("{\"n\":2}", None)]);
    enqueue_handler(&mut s, "q", &b, None, None, 1);
    let r = dequeue_handler(&mut s, "q", Some("true"), Some("2"));
    assert_eq!(
        r,
        ok(
            200,
            "Request processed successfully",
            Payload::Dequeued(vec![msg(0, "{\"n\":0}", None, 1), msg(1, "{\"n\":1}", None, 1)])
        )
    );
    let r = dequeue_handler(&mut s, "q", None, Some("5"));
    assert_eq!(r, ok(200, "Request processed successfully", Payload::Dequeued(vec![msg(2, "{\"n\":2}", None, 1)])));
    let r = dequeue_handler(&mut s, "q", None, None);
    assert_eq!(r, ok(200, "Request processed successfully", Payload::Dequeued(vec![])));
}

#[test]
fn dequeue_refuses_amount_zero() {
    let mut s = store_with("q");
    enqueue_handler(&mut s, "q", &body(vec![item("{}", None)]), None, None, 1);
    assert_eq!(dequeue_handler(&mut s, "q", None, Some("0")), fail(404, "Invalid amount parameter"));
    match queue_info(&s, "q") {
        Reply::Success { payload: Payload::Info(info), .. } => assert_eq!(info.size, 1),
        other => panic!("unexpected {:?}", other),
    }
}

#[test]
fn messages_dequeued_without_ack_are_acknowledged_once() {
    let mut s = store_with("q");
    enqueue_handler(&mut s, "q", &body(vec![item("{}", None), item("{}", None)]), None, None, 1);
    dequeue_handler(&mut s, "q", Some("false"), Some("1"));
    assert_eq!(ack_message(&mut s, "q", "1"), fail(404, "Message not found"));
    assert_eq!(ack_message(&mut s, "q", "zero"), fail(404, "Message not found"));
    assert_eq!(ack_message(&mut s, "q", "0"), ok(200, "Message reception acknowledged", Payload::Nothing));
    assert_eq!(ack_message(&mut s, "q", "0"), fail(404, "Message not found"));
    match queue_info(&s, "q") {
        Reply::Success { payload: Payload::Info(info), .. } => {
            assert_eq!(info.num_acknowledged, 1);
            assert_eq!(info.num_unacked, 0);
            assert_eq!(info.size, 1);
        }
        other => panic!("unexpected {:?}", other),
    }
}

#[test]
fn auto_acknowledged_messages_cannot_be_acknowledged_again() {
    let mut s = store_with("q");
    enqueue_handler(&mut s, "q", &body(vec![item("{}", None)]), None, None, 1);
    dequeue_handler(&mut s, "q", Some("true"), None);
    assert_eq!(ack_message(&mut s, "q", "0"), fail(404, "Message not found"));
}

#[test]
fn list_queues_is_sorted_and_complete() {
    let mut s = QueueStore::new();
    assert_eq!(list_queues(&s), ok(200, "Queue list retrieved successfully", Payload::Queues(vec![])));
    for name in ["mail", "alerts", "Zulu", "billing"] {
        create_queue_handler(&mut s, name, None, None, None, 0);
    }
    let expected: Vec<String> = vec!["Zulu".to_string(), "alerts".to_string(), "billing".to_string(), "mail".to_string()];
    assert_eq!(list_queues(&s), ok(200, "Queue list retrieved successfully", Payload::Queues(expected)));
}

#[test]
fn queue_info_reports_mem_size() {
    let mut s = store_with("q");
    enqueue_handler(&mut s, "q", &body(vec![item("{\"a\":1}", None), item("{}", None)]), None, None, 1);
    match queue_info(&s, "q") {
        Reply::Success { payload: Payload::Info(info), .. } => assert_eq!(info.mem_size, 9),
        other => panic!("unexpected {:?}", other),
    }
}

#[test]
fn created_queue_survives_later_requests() {
    let mut s = QueueStore::new();
    create_queue_handler(&mut s, "q", Some("10"), Some("20"), Some("true"), 7);
    enqueue_handler(&mut s, "q", &body(vec![item("{}", None)]), Some("true"), None, 8);
    dequeue_handler(&mut s, "q", None, Some("3"));
    ack_message(&mut s, "q", "0");
    assert_eq!(create_queue_handler(&mut s, "q", None, None, None, 9), fail(409, "Queue already exists"));
    match queue_info(&s, "q") {
        Reply::Success { payload: Payload::Info(info), .. } => {
            assert_eq!((info.created_at, info.ack_time, info.dedup_time, info.persistent), (7, 10, 20, true));
        }
        other => panic!("unexpected {:?}", other),
    }
}

use corinth::queue::Message;
use corinth::reply::{Payload, Reply};
use corinth::server::{create_default_queue, dequeue_item, enqueue_item, server_info, ServerInfo};
use corinth::store::QueueStore;

fn fail(status: u16, message: &str) -> Reply {
    Reply::Failure { status, message: message.to_string() }
}

fn ok(status: u16, message: &str, payload: Payload) -> Reply {
    Reply::Success { status, message: message.to_string(), payload }
}

#[test]
fn server_info_reports_uptime_and_start() {
    assert_eq!(
        server_info(1_000, 25),
        ServerInfo {
            name: "Corinth".to_string(),
            version: "0.0.1".to_string(),
            uptime_ms: 25_000,
            uptime_secs: 25,
            started_at: 975,
        }
    );
}

#[test]
fn create_default_queue_once() {
    let mut s = QueueStore::new();
    assert_eq!(create_default_queue(&mut s, "q", 0), ok(201, "Queue created", Payload::Nothing));
    assert_eq!(create_default_queue(&mut s, "q", 0), fail(409, "Queue already exists"));
}

#[test]
fn enqueue_item_checks_object_and_queue() {
    let mut s = QueueStore::new();
    let text = "{\"x\":1}".to_string();
    assert_eq!(enqueue_item(&mut s, "q", &"[1]".to_string(), Some("true"), None, 0), fail(400, "body.item is required to be of type 'object'"));
    assert_eq!(enqueue_item(&mut s, "q", &text, None, None, 0), fail(404, "Queue not found"));
    let m = Message { id: 0, item: text.clone(), deduplication_id: Some("d".to_string()), queued_at: 3 };
    assert_eq!(enqueue_item(&mut s, "q", &text, Some("true"), Some("d"), 3), ok(201, "Message has been enqueued", Payload::Item(Some(m))));
    assert_eq!(enqueue_item(&mut s, "q", &text, None, Some("d"), 4), ok(202, "Message has been discarded", Payload::Nothing));
}

#[test]
fn dequeue_item_takes_the_oldest() {
    let mut s = QueueStore::new();
    assert_eq!(dequeue_item(&mut s, "q", false), fail(404, "Queue not found"));
    create_default_queue(&mut s, "q", 0);
    enqueue_item(&mut s, "q", &"{}".to_string(), None, None, 1);
    enqueue_item(&mut s, "q", &"{\"b\":0}".to_string(), None, None, 2);
    let first = Message { id: 0, item: "{}".to_string(), deduplication_id: None, queued_at: 1 };
    let second = Message { id: 1, item: "{\"b\":0}".to_string(), deduplication_id: None, queued_at: 2 };
    assert_eq!(dequeue_item(&mut s, "q", true), ok(200, "", Payload::Item(Some(first))));
    assert_eq!(dequeue_item(&mut s, "q", false), ok(200, "", Payload::Item(Some(second))));
    assert_eq!(dequeue_item(&mut s, "q", false), ok(200, "", Payload::Item(None)));
}

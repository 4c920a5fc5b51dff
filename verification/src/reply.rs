//! What a request is answered: a status code, a message and the data, or a
//! status code and an error message.

use vstd::prelude::*;
use crate::queue::{Message, QueueView};

verus! {

/// The figures reported about a queue.
#[derive(Clone, Debug, PartialEq, Eq)]
pub struct QueueInfo {
    pub name: String,
    pub created_at: u64,
    pub size: usize,
    pub num_deduped: usize,
    pub num_unacked: usize,
    pub num_acknowledged: u64,
    pub num_dedup_hits: u64,
    pub dedup_time: u32,
    pub ack_time: u32,
    pub persistent: bool,
    pub mem_size: u64,
}

/// `info` reports the queue `q`.
pub open spec fn reports(info: QueueInfo, q: QueueView) -> bool {
    &&& info.name@ == q.name
    &&& info.created_at == q.created_at
    &&& info.size == q.items.len()
    &&& info.num_deduped == q.dedup_ids.len()
    &&& info.num_unacked == q.unacked.len()
    &&& info.num_acknowledged == q.num_acknowledged
    &&& info.num_dedup_hits == q.num_dedup_hits
    &&& info.dedup_time == q.dedup_time
    &&& info.ack_time == q.ack_time
    &&& info.persistent == q.persistent
    &&& info.mem_size == q.mem_size()
}

/// The data of a successful reply.
#[derive(Clone, Debug, PartialEq, Eq)]
pub enum Payload {
    /// No data.
    Nothing,
    /// One message, or none.
    Item(Option<Message>),
    /// The messages taken by a dequeue.
    Dequeued(Vec<Message>),
    /// The messages a batch enqueued and how many of the batch were refused
    /// as duplicates.
    Enqueued { items: Vec<Message>, num_deduplicated: usize },
    /// The figures of a queue.
    Info(QueueInfo),
    /// Queue names.
    Queues(Vec<String>),
}

/// The answer to a request.
#[derive(Clone, Debug, PartialEq, Eq)]
pub enum Reply {
    Success { status: u16, message: String, payload: Payload },
    Failure { status: u16, message: String },
}

/// `r` is a success with this status and message.
pub open spec fn is_success(r: Reply, status: u16, text: Seq<char>) -> bool {
    r matches Reply::Success { status: s, message: m, .. } && s == status && m@ == text
}

/// `r` is a failure with this status and message.
pub open spec fn is_failure(r: Reply, status: u16, text: Seq<char>) -> bool {
    r matches Reply::Failure { status: s, message: m } && s == status && m@ == text
}

/// The data of a successful reply.
pub open spec fn payload_of(r: Reply) -> Payload {
    match r {
        Reply::Success { payload, .. } => payload,
        Reply::Failure { .. } => Payload::Nothing,
    }
}

/// A successful reply.
pub fn success(status: u16, message: &str, payload: Payload) -> (r: Reply)
    ensures
        is_success(r, status, message@),
        payload_of(r) == payload,
{
    Reply::Success { status, message: message.to_owned(), payload }
}

/// A failed reply.
pub fn failure(status: u16, message: &str) -> (r: Reply)
    ensures
        is_failure(r, status, message@),
{
    Reply::Failure { status, message: message.to_owned() }
}

impl Reply {
    /// The status code.
    pub fn status(&self) -> (s: u16)
        ensures
            s == match *self {
                Reply::Success { status, .. } => status,
                Reply::Failure { status, .. } => status,
            },
    {
        match self {
            Reply::Success { status, .. } => *status,
            Reply::Failure { status, .. } => *status,
        }
    }
}

} // verus!

# corinth

A message queue service: named first-in-first-out queues of JSON messages,
with deduplication ids and acknowledgement of dequeued messages, served over
HTTP.

- `src/` is the verified library (Verus):
  - `queue.rs`: one queue, its abstract state `QueueView` and the transitions
    (enqueue with deduplication, dequeue with or without acknowledgement,
    acknowledgement by id), each proved to keep message ids distinct;
  - `store.rs`: the named queues; distinct names and well-formed queues are
    its type invariant, as message-id distinctness is `Queue`'s;
  - `routes.rs`: the request handlers (peek, dequeue, enqueue a batch,
    acknowledge, queue figures, list, create), each with a contract saying
    what is answered and how the queues change;
  - `server.rs`: the first version of the routes (single-item enqueue,
    server figures);
  - `text.rs`, `order.rs`: query parameters, unsigned numbers, name order and
    sorting;
  - `json.rs`: the one question asked of `serde_json` (is an item an object);
  - `fs.rs`: file locations;
  - `laws.rs`: properties that span operations (FIFO order, deduplication,
    acknowledgement, batch accounting, queues surviving later requests).
- `app/` is the HTTP server on `nickel`: it reads requests, holds the queues
  behind a lock, calls the library and writes its replies as JSON.
- `tests/` runs the library on concrete values.

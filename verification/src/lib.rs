//! A message queue service: named FIFO queues of JSON messages with
//! deduplication and acknowledgement, and the request handling that the
//! HTTP front end drives.

pub mod fs;
pub mod json;
pub mod laws;
pub mod laws_spec;
pub mod order;
pub mod queue;
pub mod reply;
pub mod routes;
pub mod server;
pub mod store;
pub mod text;

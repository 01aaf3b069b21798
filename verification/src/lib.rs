//! Client-side message patterns over a topic-based message broker.
//!
//! The crate holds the decisions of six messaging patterns (point-to-point
//! delivery, work queues with manual acknowledgment, fanout broadcast, routing
//! by key, routing by topic pattern, and request/reply) as verified functions
//! on plain values. Connections, channels and every exchange with the broker
//! belong to the caller: the caller performs what a function here decides, and
//! hands back what the broker answered.
//!
//! A message may reach a consumer more than once. A consumer acknowledges a
//! delivery only after it has processed it, so a delivery whose consumer went
//! away is offered again by the broker; the serving side of request/reply
//! executes a request at least once, not exactly once.

pub mod consumer;
pub mod error;
pub mod fib;
pub mod message;
pub mod names;
pub mod patterns;
pub mod publisher;
pub mod queue;
pub mod routing;
pub mod rpc;
pub mod text;
pub mod topology;

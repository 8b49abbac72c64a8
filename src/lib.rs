//! A signaling message bridge: a typed JSON-RPC-like message model over
//! JSON text frames, and the decision logic of the two forwarding pipelines
//! that connect a frame transport to an inbound and an outbound queue.

pub mod json;
pub mod message;
pub mod bridge;

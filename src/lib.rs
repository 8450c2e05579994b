//! The client side of a chat protocol carried over a multiplexed session:
//! the message data model, the per-stream framing, and the dispatch of
//! stream events.

pub mod api;
pub mod dispatch;
pub mod frame;
pub mod model;

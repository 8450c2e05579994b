//! The chat entities: users, channels and messages.
use vstd::prelude::*;

verus! {

/// A point in time, as seconds since the Unix epoch and the nanoseconds
/// within that second (above one billion only during a leap second).
#[derive(Debug, Clone, Copy, PartialEq, Eq, Structural)]
pub struct Timestamp {
    pub secs: i64,
    pub nanos: u32,
}

/// A user of the chat.
#[derive(Debug, Clone, PartialEq, Eq)]
pub struct User {
    /// The server-assigned identifier.
    pub id: u32,
    pub username: String,
    /// When the user registered; absent for system users.
    pub datetime: Option<Timestamp>,
}

/// A channel; a direct conversation between users is a channel too.
#[derive(Debug, Clone, PartialEq, Eq)]
pub struct Channel {
    /// The server-assigned identifier.
    pub id: u32,
    pub name: String,
    /// When the channel was created, where known.
    pub datetime: Option<Timestamp>,
}

/// A message as the client sees it: its author and channel by identifier.
#[derive(Debug, Clone, PartialEq, Eq)]
pub struct Message {
    pub user_id: u32,
    pub channel_id: u32,
    /// The server-assigned identifier of the message.
    pub message_id: u32,
    pub content: String,
    /// When the server received the message. Only the server sets it: no
    /// request carries a time.
    pub datetime: Timestamp,
}

} // verus!

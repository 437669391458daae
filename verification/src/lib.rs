//! A client-side MQTT 3.1.1 core for constrained targets.
//!
//! The crate holds the protocol logic only: the wire codec, the session state
//! machine, the packet-identifier pool, the outbound queue, the keep-alive
//! timer and a streaming parser. Transport and clock stay with the caller, who
//! hands in bytes and tick counts and gets bytes and events back.
use vstd::prelude::*;

pub mod bounded;
pub mod buffer;
pub mod client;
pub mod incoming;
pub mod keep_alive;
pub mod outbox;
pub mod packet;
pub mod packet_id_pool;
pub mod parser;
pub mod protocol;
pub mod session;

pub use client::Client;
pub use packet::connect::Options as ConnectOptions;
pub use packet::publish::Msg as PublishMsg;
pub use session::Event;

verus! {

/// Everything that can go wrong in the codec, the session or the queues.
#[derive(Debug, Clone, Copy, PartialEq, Eq, Structural)]
pub enum Error {
    InvalidFlags,
    MalformedRemainingLength,
    InvalidPacketType,
    MalformedPacket,
    InvalidConnectReturnCode,
    VectorIsFull,
    InvalidQoS,
    InvalidUtf8,
    UnexpectedEof,
    TransportError,
    RemoteClosed,
    UnsupportedIncomingPacket,
    BufferTooSmall,
    TimeError,
    TimedOut,
    ProtocolViolation,
    NoPacketIdAvailable,
    SubVectorIsFull,
    WrongTopicToUnsubscribe,
    Unsubscribed,
    PingOutstanding,
    QueueRangeError,
}

} // verus!

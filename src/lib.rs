//! A request/response service core: the message envelopes, their protobuf
//! wire encoding, the dispatcher that answers a request, and the decisions
//! that drive a connection and the server's lifecycle.

pub mod message;
pub mod varint;
pub mod wire;
pub mod codec;
pub mod connection;
pub mod server;

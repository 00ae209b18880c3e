//! A small in-memory key-value server core that speaks a RESP-like wire
//! protocol: the codec, the command decoder, the store with expiry and the
//! per-connection session logic.

pub mod command;
pub mod connection;
pub mod decimal;
pub mod frame;
pub mod redis_type;
pub mod resp;
pub mod roundtrip;
pub mod session;
pub mod store;
pub mod text;
pub mod wire;

//! A WebSocket protocol engine: frames, the opening exchange, the life of a
//! connection and the registry of connections, with the application's logic
//! plugged in through [`handler::Handler`].

pub mod assembler;
pub mod base64;
pub mod bytes;
pub mod close;
pub mod codec;
pub mod connection;
pub mod frame;
pub mod handler;
pub mod handshake;
pub mod http;
pub mod mask;
pub mod message;
pub mod outbox;
pub mod protocol;
pub mod registry;
pub mod result;
pub mod session;
pub mod target;
pub mod token;

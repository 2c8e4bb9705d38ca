//! Connection-handling core of a game-network server.
//!
//! The library turns raw byte streams into discrete protocol frames, routes
//! the opening handshake to either a one-shot status exchange or a login
//! negotiation (offline, online, or proxy-forwarded identity), and hands
//! authenticated sessions to an event dispatch core.  All protocol logic is
//! verified; sockets and the async runtime live outside the library and talk
//! to it through plain byte buffers.

pub mod varint;
pub mod wire;
pub mod frame;
pub mod cipher;
pub mod framer;
pub mod packets;
pub mod digest;
pub mod ip;
pub mod velocity;
pub mod session;
pub mod dispatch;
pub mod status;
pub mod login;
pub mod handshake;

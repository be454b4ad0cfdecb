//! A single-process TCP chat/broadcast library: the WebSocket wire format,
//! the handshake accept-token computation, the per-connection protocol state
//! machine with buffered partial I/O, and the reactor-side registry with its
//! re-arm discipline and broadcast fan-out.
pub mod buffer;
pub mod client;
pub mod event_message;
pub mod frame;
pub mod handshake;
pub mod server;

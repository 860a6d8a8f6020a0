//! A small WebSocket server library: frame encoding and decoding, the HTTP
//! upgrade handshake, and the bookkeeping decisions of the event loop.
pub mod frame;
pub mod text;
pub mod handshake;
pub mod eventloop;
pub mod action;
pub mod socket;
pub mod server;
pub mod hash;

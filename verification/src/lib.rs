//! A sans-I/O engine for a small transport protocol carried in raw IPv4
//! datagrams: the segment codec, the datagram filter, the textual rendezvous
//! exchange and the three-way handshake state machine.
//!
//! Nothing in this crate touches a socket. The caller owns the raw socket,
//! feeds every datagram it reads to the engine and sends the bytes the engine
//! hands back.

pub mod client;
pub mod connection;
pub mod endpoint;
pub mod ip;
pub mod rendezvous;
pub mod server;
pub mod tcp;
pub mod text;

pub use connection::Connection;

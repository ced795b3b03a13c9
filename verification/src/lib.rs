//! A reverse TCP proxy's connection logic: it frames and parses the first
//! message of a client, picks a backend by the hostname found in it, and
//! decides, event by event, what a connection and the prewarm pool do next.

pub mod varint;
pub mod routing;
pub mod error;
pub mod handshake;
pub mod connection;
pub mod pool;

//! Core of a real-time message relay: clients connect, submit text
//! messages, and every message is fanned out to all currently connected
//! clients. This crate holds the connection registry, the message codec
//! and the broadcast dispatcher; the network transport lives outside.

pub mod codec;
pub mod laws;
pub mod registry;
pub mod relay;

//! A real-time relay engine: a session registry with per-session mailboxes,
//! a binary frame codec, and the fan-out rules that deliver each client's
//! updates (and departure notices) to every other connected client.

pub mod client;
pub mod codec;
pub mod ids;
pub mod registry;

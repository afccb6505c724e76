//! A message-driven print dispatcher: inbound envelopes are decoded and
//! validated, looked up in a startup-built registry of per-printer workers,
//! and handed to the addressed worker's FIFO queue. Each worker owns
//! exclusive, serialized write access to one `host:port` destination.

pub mod config;
pub mod dispatch;
pub mod mqtt;
pub mod printer;
pub mod text;

//! Coordination core of a multi-client text chat server.
//!
//! The hub owns the registry of connected clients, consumes connection,
//! disconnection and message notifications in arrival order, and decides
//! which registered sessions a message payload is relayed to. Sessions
//! translate socket reads into notifications; redaction keeps message
//! bodies out of log output when a safety flag is set.

pub mod hub;
pub mod notification;
pub mod redaction;
pub mod registry;
pub mod render;
pub mod session;

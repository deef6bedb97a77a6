//! Core of a chat-relay service: a per-conversation message cache with a
//! forward-alignment diff, a fan-out registry of bounded client queues, the
//! wire framing used between relay and clients, and the decision rules of the
//! polling orchestrator and its supervisor.
//!
//! Everything that talks to the outside world (the browser-driven chat
//! source, sockets, timers) lives outside this crate; the functions here work
//! on plain values and carry contracts for what they compute.

pub mod cache;
pub mod chat;
pub mod framing;
pub mod hub;
pub mod orchestrator;
pub mod supervisor;

pub use chat::ChatMessage;
pub use chat::MessageView;

//! A deterministic Raft-family consensus core.
//!
//! Each [`Node`] is a single-threaded, purely synchronous state machine: it
//! consumes election timeouts and protocol messages, and records its intents
//! (send a message, broadcast a message, apply a committed command) in an
//! action queue that the caller drains and executes. The core itself performs
//! no I/O, so a driver can run it over a real network or replay message
//! queues deterministically in a simulation.

pub mod harness;
pub mod laws;
pub mod node;
pub mod types;

pub use harness::BenchConfig;
pub use harness::format_json_string;
pub use harness::parse_usize_arg;
pub use node::Node;

pub use types::Action;
pub use types::CommitStatus;
pub use types::EntryKind;
pub use types::LogEntry;
pub use types::LogPosition;
pub use types::Message;
pub use types::NodeId;
pub use types::Role;

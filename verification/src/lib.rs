//! Supervisor for an external stream-relay worker process.
//!
//! The library validates a relay request, derives the exact argument vector
//! the worker is invoked with, reassembles the worker's diagnostic byte
//! stream into line events, and tracks the lifecycle of a single supervised
//! session: exactly one `Started` event before any `Line` event, and exactly
//! one terminal event (`Exited` or `SpawnFailed`) per session.
//!
//! All process spawning, pipe reading and event delivery is performed by the
//! embedding application; this crate holds the decisions and the data
//! shaping, all of it verified.

pub mod args;
pub mod events;
pub mod relay;
pub mod request;
pub mod supervisor;

//! Process lifecycle and streaming-execution core.
//!
//! A registry tracks externally spawned, long-running subprocesses and offers
//! a uniform control surface (list, stats, graceful/forceful kill) over them.
//! A discoverer parses the host's process listing to find assistant processes
//! started outside this system. A streaming multiplexer owns one logical
//! session table and the line-oriented event protocol that carries a
//! subprocess's stdout to a client.

pub mod commands;
pub mod discovery;
pub mod events;
pub mod model;
pub mod monitor;
pub mod registry;
pub mod response;
pub mod sessions;
pub mod strutil;

//! Verified core of a tool that forwards local JSON status files to a dashboard.
//!
//! The crate holds the decisions: resolving which file a path names, the registry
//! of watched files and its text form, reading the process marker, building one
//! poll cycle's batch, and the start and stop state machines. The program around
//! it performs the file, process and network work that these decisions ask for.
pub mod cli;
pub mod guard;
pub mod paths;
pub mod poller;
pub mod registry;
pub mod server;

//! Step-synchronous messaging between the nodes of a synthetic network.
//!
//! The library holds the parts of the harness that decide: the wire format of
//! the messages that nodes and the switch exchange, the switch's broadcast
//! state machine and what a whole step does, the per-node context, the
//! configuration of the nodes, and how the supervisor judges the outcome.
//! Spawning processes, links and pipe I/O live in the program around it.
pub mod broker;
pub mod config;
pub mod context;
pub mod message;
pub mod network;
pub mod rounds;

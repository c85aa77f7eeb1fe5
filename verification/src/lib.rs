//! Control plane of a key-exchange daemon: framing, readiness registry,
//! connection automata and the supervisor of the privileged helper.

pub mod client;
pub mod codec;
pub mod connection;
pub mod error;
pub mod fd;
pub mod helper;
pub mod manager;
pub mod manpage;
pub mod registry;
pub mod supervisor;

//! Peer-to-peer file transfer: the transport-independent core.
//!
//! Nothing here touches the network or the file system. Sockets, files and
//! timers belong to the caller, which performs the actions the state
//! machines in this crate ask for and reports back what happened.

pub mod address;
pub mod file_transfer;
pub mod identifier;
pub mod network;
pub mod protocol;
pub mod text;
pub mod user;

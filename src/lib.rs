//! A sans-I/O Multi-Paxos replica: per-slot acceptors, a proposer, a window
//! of log slots and the replica that routes every inbound message through
//! them and reports the messages to send and the decisions to apply.

pub mod acceptor;
pub mod ballot;
pub mod commands;
pub mod config;
pub mod proposer;
pub mod replica;
pub mod value;
pub mod window;

pub use acceptor::{AcceptResponse, Acceptor, PrepareResponse};
pub use ballot::{Ballot, NodeId, Slot};
pub use commands::{Command, Output, SlottedValue};
pub use config::Configuration;
pub use proposer::{Proposer, ProposerStatus};
pub use replica::Replica;
pub use window::{SlotKind, SlotWindow};

//! Leader election for a fixed cluster of Raft servers.
//!
//! - [`state_machine`]: the role state machine of one node, Follower,
//!   Candidate, Leader, as a step from a node and an event to the next node
//!   and the actions to carry out.
//! - [`raft_thread`]: one round of the loop that drives a node.
//! - [`common`] and [`default_storage`]: the election record that must
//!   survive a crash, the interface of the storage that keeps it, and the
//!   record as bytes.
//! - [`rpc_messages`]: the messages that nodes send each other.
//! - [`simulator`]: what a simulation of a whole cluster decides.
//! - [`laws`] and [`election_safety`]: what is proved of a step, and of a
//!   cluster of nodes that are stepped: a term has one leader at most.
//!
//! Embedders provide the transport, the storage and the application.

pub mod common;
pub mod default_storage;
pub mod election_safety;
pub mod laws;
pub mod raft_thread;
pub mod rpc_messages;
pub mod server_set;
pub mod simulator;
pub mod state_machine;
pub mod system_clock;

pub use common::LogCommand;
pub use common::LogEntry;
pub use common::Election;
pub use common::LogIndex;
pub use common::PersistentStorage;
pub use common::PersistentStorageError;
pub use common::RaftConfig;
pub use common::RaftTransportBridge;
pub use common::RaftTransportError;
pub use common::Sent;
pub use common::ServerId;
pub use common::TermIndex;
pub use common::Waits;
pub use raft_thread::NoOpRaftEventCollector;
pub use raft_thread::Published;
pub use raft_thread::RaftNodeState;
pub use raft_thread::RaftStateEvent;
pub use raft_thread::RaftStateEventCollector;

//! The parts of a cluster simulation that decide something: what the
//! simulation does next, which links a partition cuts, and whether the
//! snapshots of the nodes are still consistent with a safe election.
//!
//! A simulation drives several nodes without real time. It owns the clock,
//! an event queue and the network between the nodes; the nodes tell it when
//! they want to be woken.

pub mod common;
pub mod invariant_checker;
pub mod sim_log;
pub mod scheduler;
pub mod sim_network;

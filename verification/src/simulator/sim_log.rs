//! The log of a simulation: every event that was queued, every event that
//! was processed, every message that was lost and every change of a server's
//! state, in the order in which they happened.

use vstd::prelude::*;
use crate::common::LogCommand;
use crate::common::ServerId;
use crate::raft_thread::RaftStateEvent;
use crate::rpc_messages::RpcMessage;
use crate::simulator::common::SimTime;
use crate::simulator::common::SimulatorAction;
use crate::simulator::common::SimulatorEvent;

verus! {

/// What the log says of an event.
#[derive(Debug, Clone)]
pub enum LoggedSimEvent<C: LogCommand> {
    /// The message, and the time at which it is due.
    SendOverNetwork(SimTime, RpcMessage<C>),
    /// The message, and the time at which it was lost.
    DroppedNetworkMessage(SimTime, RpcMessage<C>),
    PartitionNetwork(Vec<Vec<ServerId>>),
    HealNetworkPartition,
    InjectIOFaultEveryNOps(u64),
    RestoreIOFunctioning,
}

/// One entry of the log, with the time at which it was made.
#[derive(Debug, Clone)]
pub enum SimLogEntry<C: LogCommand> {
    EventQueued(SimTime, LoggedSimEvent<C>),
    EventProcessed(SimTime, LoggedSimEvent<C>),
    /// The latest snapshot of every server, after one of them changed.
    ServerStateUpdate(SimTime, Vec<RaftStateEvent>),
}

/// What the log says of `event`.
pub open spec fn logged<C: LogCommand>(event: SimulatorEvent<C>) -> LoggedSimEvent<C> {
    match event.action {
        SimulatorAction::SendOverNetwork(message) => LoggedSimEvent::SendOverNetwork(
            event.time,
            message,
        ),
        SimulatorAction::PartitionNetwork(partitions) => LoggedSimEvent::PartitionNetwork(
            partitions,
        ),
        SimulatorAction::HealNetworkPartition => LoggedSimEvent::HealNetworkPartition,
        SimulatorAction::InjectIOFailureEveryNOps(n) => LoggedSimEvent::InjectIOFaultEveryNOps(n),
        SimulatorAction::RestoreIOFunctioning => LoggedSimEvent::RestoreIOFunctioning,
    }
}

impl<C: LogCommand> LoggedSimEvent<C> {
    /// Computes [`logged`].
    pub fn from_sim_event(event: SimulatorEvent<C>) -> (entry: Self)
        ensures
            entry == logged(event),
    {
        match event.action {
            SimulatorAction::SendOverNetwork(message) => LoggedSimEvent::SendOverNetwork(
                event.time,
                message,
            ),
            SimulatorAction::PartitionNetwork(partitions) => LoggedSimEvent::PartitionNetwork(
                partitions,
            ),
            SimulatorAction::HealNetworkPartition => LoggedSimEvent::HealNetworkPartition,
            SimulatorAction::InjectIOFailureEveryNOps(n) => LoggedSimEvent::InjectIOFaultEveryNOps(
                n,
            ),
            SimulatorAction::RestoreIOFunctioning => LoggedSimEvent::RestoreIOFunctioning,
        }
    }
}

impl<C: LogCommand> SimLogEntry<C> {
    /// The entry for an event that was queued at `queued_time`.
    pub fn event_queued(queued_time: SimTime, event: SimulatorEvent<C>) -> (entry: Self)
        ensures
            entry == SimLogEntry::EventQueued(queued_time, logged(event)),
    {
        SimLogEntry::EventQueued(queued_time, LoggedSimEvent::from_sim_event(event))
    }

    /// The entry for an event that was processed at `process_time`.
    pub fn event_processed(process_time: SimTime, event: SimulatorEvent<C>) -> (entry: Self)
        ensures
            entry == SimLogEntry::EventProcessed(process_time, logged(event)),
    {
        SimLogEntry::EventProcessed(process_time, LoggedSimEvent::from_sim_event(event))
    }
}

/// The entries of a simulation, oldest first.
#[derive(Debug)]
pub struct SimLog<C: LogCommand> {
    events: Vec<SimLogEntry<C>>,
}

impl<C: LogCommand> View for SimLog<C> {
    type V = Seq<SimLogEntry<C>>;

    closed spec fn view(&self) -> Seq<SimLogEntry<C>> {
        self.events@
    }
}

impl<C: LogCommand> SimLog<C> {
    /// An empty log.
    pub fn new() -> (log: Self)
        ensures
            log@ == Seq::<SimLogEntry<C>>::empty(),
    {
        SimLog { events: Vec::new() }
    }

    /// Adds an entry at the end.
    pub fn push(&mut self, event: SimLogEntry<C>)
        ensures
            final(self)@ == old(self)@.push(event),
    {
        self.events.push(event);
    }

    /// The entries, oldest first.
    pub fn entries(&self) -> (entries: &Vec<SimLogEntry<C>>)
        ensures
            entries@ == self@,
    {
        &self.events
    }

    /// Forgets every entry.
    pub fn reset(&mut self)
        ensures
            final(self)@ == Seq::<SimLogEntry<C>>::empty(),
    {
        self.events.clear();
    }
}

} // verus!

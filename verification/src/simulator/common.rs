//! Simulated time and the events of a simulation.

use vstd::prelude::*;
use crate::common::LogCommand;
use crate::common::ServerId;
use crate::rpc_messages::RpcMessage;
use crate::system_clock::Duration;

verus! {

/// A point of simulated time: the time since the simulation began.
#[derive(PartialEq, Eq, Structural, Debug, Clone, Copy, Hash)]
pub struct SimTime(pub Duration);

impl SimTime {
    /// The nanoseconds since the simulation began.
    pub open spec fn nanos(&self) -> int {
        self.0.nanos as int
    }

    /// The time from `other` to `self`, `None` where `other` is the later.
    pub fn checked_sub(&self, other: &SimTime) -> (elapsed: Option<Duration>)
        ensures
            elapsed == if self.nanos() >= other.nanos() {
                Some(Duration { nanos: (self.nanos() - other.nanos()) as u128 })
            } else {
                None
            },
    {
        self.0.checked_sub(other.0)
    }

    /// The point `millis` milliseconds into the simulation.
    pub fn from_millis(millis: u64) -> (time: SimTime)
        ensures
            time.nanos() == millis * 1_000_000,
    {
        SimTime(Duration::from_millis(millis))
    }

    /// The whole milliseconds since the simulation began.
    pub fn as_millis(&self) -> (millis: u128)
        ensures
            millis == self.nanos() / 1_000_000,
    {
        self.0.as_millis()
    }

    /// The point `millis` milliseconds after this one, `None` where that is
    /// beyond what a `SimTime` can hold.
    pub fn after_millis(&self, millis: u64) -> (later: Option<SimTime>)
        ensures
            later == if self.nanos() + millis * 1_000_000 <= u128::MAX {
                Some(SimTime(Duration { nanos: (self.nanos() + millis * 1_000_000) as u128 }))
            } else {
                None
            },
    {
        let span = Duration::from_millis(millis);
        if self.0.nanos > u128::MAX - span.nanos {
            None
        } else {
            Some(SimTime(Duration { nanos: self.0.nanos + span.nanos }))
        }
    }

    /// Whether `self` is not later than `other`.
    pub fn at_or_before(&self, other: &SimTime) -> (earlier: bool)
        ensures
            earlier == (self.nanos() <= other.nanos()),
    {
        self.0.nanos <= other.0.nanos
    }
}

/// What a simulation can be told to do at some point of its time.
#[derive(Debug, Clone)]
pub enum SimulatorAction<C: LogCommand> {
    /// Deliver the message to its receiver.
    SendOverNetwork(RpcMessage<C>),
    /// Cut every link between two servers of different groups.
    PartitionNetwork(Vec<Vec<ServerId>>),
    /// Restore every link.
    HealNetworkPartition,
    /// Let every `n`-th operation on storage fail.
    InjectIOFailureEveryNOps(u64),
    /// Let operations on storage succeed again.
    RestoreIOFunctioning,
}

/// An action together with the time at which it is due.
#[derive(Debug, Clone)]
pub struct SimulatorEvent<C: LogCommand> {
    pub time: SimTime,
    pub action: SimulatorAction<C>,
}

/// A node's wish to be woken at this time or earlier.
#[derive(PartialEq, Eq, Structural, Debug, Clone, Copy, Hash)]
pub struct WakeUpAtOrBefore(pub SimTime);

} // verus!

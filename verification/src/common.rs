//! Identifiers, configuration and error kinds shared by every part of a node.

use vstd::prelude::*;
use crate::rpc_messages::ReplyTo;
use crate::rpc_messages::Request;
use crate::rpc_messages::RpcMessage;
use crate::system_clock::Duration;

verus! {

/// A unique identifier for a server in the cluster.
#[derive(Eq, PartialEq, Structural, PartialOrd, Ord, Clone, Copy, Debug, Hash)]
pub struct ServerId(pub u64);

/// What the replicated log can carry as a command: any value that can be
/// printed, cloned, compared and moved to another thread.
pub trait LogCommand: std::fmt::Debug + Clone + Send + Eq + PartialEq {}

impl<T> LogCommand for T where T: std::fmt::Debug + Clone + Send + Eq + PartialEq {}

/// The index of a log entry. Zero stands for "no entry".
#[derive(Eq, PartialEq, Structural, PartialOrd, Clone, Copy, Debug)]
pub struct LogIndex(pub u64);

/// The term of a log entry or of an election.
#[derive(Eq, PartialEq, Structural, PartialOrd, Clone, Copy, Debug, Hash)]
pub struct TermIndex(pub u64);

impl TermIndex {
    /// The term that follows this one. The receiver itself is left as it is.
    pub fn increment(&mut self) -> (next: Self)
        requires
            old(self).0 < u64::MAX,
        ensures
            next.0 == old(self).0 + 1,
            *final(self) == *old(self),
    {
        TermIndex(self.0 + 1)
    }
}

/// A log entry in the Raft log.
#[derive(Debug, Eq, PartialEq, Clone)]
pub struct LogEntry<T: LogCommand> {
    /// The index of the log entry.
    pub index: LogIndex,
    /// The term of the log entry.
    pub term: TermIndex,
    /// The command that the entry carries.
    pub command: T,
}

/// The configuration for a Raft node.
#[derive(Debug, Clone, Copy)]
pub struct RaftConfig {
    /// How long a leader waits between two rounds of heartbeats.
    pub leader_heartbeat_interval: Duration,
    /// The shortest election timeout, in milliseconds (inclusive).
    pub min_election_timeout_ms: u32,
    /// The longest election timeout, in milliseconds (exclusive).
    pub max_election_timeout_ms: u32,
}

impl RaftConfig {
    /// A usable configuration offers at least one election timeout to draw.
    pub open spec fn valid(&self) -> bool {
        self.min_election_timeout_ms < self.max_election_timeout_ms
    }
}

/// Errors that can occur when interacting with the persistent storage layer.
#[derive(Debug, Clone, Copy, PartialEq, Eq, Structural)]
pub enum PersistentStorageError {
    /// Reading from or writing to durable storage failed.
    IoError,
    /// A durable record could not be encoded or decoded.
    SerdeError,
}

/// The election record that must survive a crash: the latest term the node
/// has seen, and the vote it cast together with the term it was cast in.
#[derive(Debug, Clone, Copy, PartialEq, Eq)]
pub struct Election {
    pub current_term: TermIndex,
    pub voted_for: Option<(TermIndex, ServerId)>,
}

impl Election {
    /// A vote is never recorded for a term the node has not reached.
    pub open spec fn wf(&self) -> bool {
        self.voted_for matches Some((term, _)) ==> term.0 <= self.current_term.0
    }

    /// The vote cast in the current term. A vote cast in an earlier term does
    /// not count.
    pub open spec fn vote_in_current_term(&self) -> Option<ServerId> {
        match self.voted_for {
            Some((term, server)) => if term == self.current_term {
                Some(server)
            } else {
                None
            },
            None => None,
        }
    }

    /// The record after the term moved to `term`. The stored vote stays as it
    /// is: it stops counting because its term no longer matches.
    pub open spec fn with_term(&self, term: TermIndex) -> Election {
        Election { current_term: term, voted_for: self.voted_for }
    }

    /// The record after a vote for `server` in the current term.
    pub open spec fn with_vote(&self, server: ServerId) -> Election {
        Election { current_term: self.current_term, voted_for: Some((self.current_term, server)) }
    }
}

impl Election {
    /// The record of a node that comes up for the first time: term zero, no
    /// vote.
    pub fn new() -> (record: Election)
        ensures
            record == (Election { current_term: TermIndex(0), voted_for: None }),
            record.wf(),
    {
        Election { current_term: TermIndex(0), voted_for: None }
    }

    /// The current term.
    pub fn current_term(&self) -> (term: TermIndex)
        ensures
            term == self.current_term,
    {
        self.current_term
    }

    /// The server voted for in the current term, if any.
    pub fn vote_for_current_term(&self) -> (vote: Option<ServerId>)
        ensures
            vote == self.vote_in_current_term(),
    {
        match self.voted_for {
            Some((last_vote_term, server_id)) => {
                if last_vote_term.0 == self.current_term.0 {
                    Some(server_id)
                } else {
                    None
                }
            },
            None => None,
        }
    }

    /// Moves the record to `term`.
    pub fn update_term(&mut self, term: TermIndex)
        ensures
            *final(self) == old(self).with_term(term),
    {
        self.current_term = term;
    }

    /// Records a vote for `voted_for` in the current term.
    pub fn record_vote(&mut self, voted_for: ServerId)
        ensures
            *final(self) == old(self).with_vote(voted_for),
            final(self).wf(),
    {
        self.voted_for = Some((self.current_term, voted_for));
    }
}

/// The persistent storage of one node. Terms and votes written through it
/// reach durable storage only when `sync` returns `Ok`.
///
/// `election` and `durable` are what the contracts speak of. They are never
/// called when the program runs.
pub trait PersistentStorage<C: LogCommand>: Send {
    /// The election record as the node reads it.
    spec fn election(&self) -> Election;

    /// The election record as durable storage holds it.
    spec fn durable(&self) -> Election;

    /// Returns the current term of the node.
    fn current_term(&self) -> (term: TermIndex)
        ensures
            term == self.election().current_term,
    ;

    /// Returns the server that the node voted for in the current term.
    fn voted_for_in_current_term(&self) -> (vote: Option<ServerId>)
        ensures
            vote == self.election().vote_in_current_term(),
    ;

    /// Moves the node to `term`, in memory.
    fn update_term(&mut self, term: TermIndex)
        requires
            term.0 >= old(self).election().current_term.0,
        ensures
            final(self).election() == old(self).election().with_term(term),
            final(self).durable() == old(self).durable(),
    ;

    /// Records a vote for `voted_for` in the current term, in memory.
    fn record_vote(&mut self, voted_for: ServerId)
        ensures
            final(self).election() == old(self).election().with_vote(voted_for),
            final(self).durable() == old(self).durable(),
    ;

    /// Returns the log index of the last entry in the log.
    fn last_entry_index(&self) -> Option<LogIndex>;

    /// Returns true if the log contains an entry with the given index and term.
    fn has_entry(&self, index: LogIndex, term: TermIndex) -> bool;

    /// Appends the given entries to the log.
    fn append(&mut self, entries: Vec<LogEntry<C>>)
        ensures
            final(self).election() == old(self).election(),
            final(self).durable() == old(self).durable(),
    ;

    /// Writes pending changes to durable storage. Whether it succeeds is up
    /// to the storage; the record in memory is the same afterwards either way.
    fn sync(&mut self) -> (synced: Result<(), PersistentStorageError>)
        ensures
            final(self).election() == old(self).election(),
            synced is Ok ==> final(self).durable() == final(self).election(),
    ;
}

/// Errors that can originate from the transport.
#[derive(Debug, Clone, Copy, PartialEq, Eq, Structural)]
pub enum RaftTransportError {
    /// The transport was shut down.
    TransportShutdown,
}

/// What a transport was handed, oldest first.
pub type Sent<C> = Seq<RpcMessage<C>>;

/// The waits that a transport was asked for, oldest first.
pub type Waits = Seq<Duration>;

/// The transport of one node, provided by whoever embeds the node. The node
/// is its only consumer.
///
/// `sent` and `waits` are what the contracts speak of. They are never called
/// when the program runs, so a transport need not remember either.
pub trait RaftTransportBridge<C: LogCommand>: Send {
    /// The messages that the node has handed over so far.
    spec fn sent(&self) -> Sent<C>;

    /// The waits that the node has asked for so far.
    spec fn waits(&self) -> Waits;

    /// Returns the next incoming message, `None` where none came within
    /// `max_wait`. Waiting hands nothing over.
    fn wait_for_next_incoming_message(&mut self, max_wait: Duration) -> (incoming: Result<
        Option<RpcMessage<C>>,
        RaftTransportError,
    >)
        ensures
            final(self).sent() == old(self).sent(),
            final(self).waits() == old(self).waits().push(max_wait),
    ;

    /// Takes a reply for delivery to the sender of the request it answers.
    /// Does not block.
    fn enqueue_reply(&mut self, reply: ReplyTo) -> (taken: Result<(), RaftTransportError>)
        ensures
            final(self).sent() == if taken is Ok {
                old(self).sent().push(RpcMessage::Reply(reply))
            } else {
                old(self).sent()
            },
            final(self).waits() == old(self).waits(),
    ;

    /// Takes a request for delivery to its receiver. Does not block.
    fn enqueue_outgoing_request(&mut self, request: Request<C>) -> (taken: Result<
        (),
        RaftTransportError,
    >)
        ensures
            final(self).sent() == if taken is Ok {
                old(self).sent().push(RpcMessage::Request(request))
            } else {
                old(self).sent()
            },
            final(self).waits() == old(self).waits(),
    ;
}

} // verus!

//! The two requests that nodes send each other, and the replies to them.
//!
//! Every message names its sender, its receiver and the sender's term, and
//! carries the identifier of the request it is or answers.

use vstd::prelude::*;
use crate::common::LogCommand;
use crate::common::LogEntry;
use crate::common::LogIndex;
use crate::common::ServerId;
use crate::common::TermIndex;
use rand::RngCore;
use rand_chacha::ChaCha8Rng;
use uuid::Uuid;

verus! {

/// `uuid::Uuid`, the identifier that ties a reply to its request. Its bits
/// are never read here: identifiers are made, copied and compared.
#[verifier::external_type_specification]
#[verifier::external_body]
pub struct ExUuid(uuid::Uuid);

/// `Clone::clone` of `uuid::Uuid`, which the crate derives for a `Copy` type:
/// the copy is the identifier itself.
pub assume_specification[ <uuid::Uuid as Clone>::clone ](id: &Uuid) -> (copy: Uuid)
    ensures
        copy == *id,
;

/// The identifier that `uuid` makes of sixteen bytes drawn at random.
pub uninterp spec fn request_id_of(bytes: Seq<u8>) -> Uuid;

/// Draws sixteen bytes from the random source of a node, with
/// `rand::RngCore::fill_bytes`. The bytes are random: nothing is claimed of
/// them.
#[verifier::external_body]
fn random_bytes(rng: &mut ChaCha8Rng) -> [u8; 16] {
    let mut bytes = [0u8; 16];
    rng.fill_bytes(&mut bytes);
    bytes
}

/// Makes an identifier of sixteen bytes, with
/// `uuid::Builder::from_random_bytes`, which marks the bytes as a random
/// identifier and changes nothing else: the same bytes give the same
/// identifier.
#[verifier::external_body]
fn request_id_from(bytes: [u8; 16]) -> (id: Uuid)
    ensures
        id == request_id_of(bytes@),
{
    uuid::Builder::from_random_bytes(bytes).into_uuid()
}

/// Draws a fresh request identifier from the random source of a node, so
/// that a node that is run again from the same seed sends the same
/// requests.
pub(crate) fn new_request_id(rng: &mut ChaCha8Rng) -> Uuid {
    request_id_from(random_bytes(rng))
}

/// Sent by a leader to replicate entries, and with no entries as a heartbeat.
#[derive(Debug, Clone, Eq, PartialEq)]
pub struct AppendEntries<C: LogCommand> {
    pub request_id: Uuid,
    pub from: ServerId,
    pub to: ServerId,
    pub term: TermIndex,
    pub prev_log_index: LogIndex,
    pub prev_log_term: TermIndex,
    pub entries: Vec<LogEntry<C>>,
    pub leader_commit: LogIndex,
}

/// Sent by a candidate to gather votes.
#[derive(Debug, Clone, Eq, PartialEq)]
pub struct RequestVote {
    pub request_id: Uuid,
    pub from: ServerId,
    pub to: ServerId,
    pub term: TermIndex,
    pub last_log_index: LogIndex,
    pub last_log_term: TermIndex,
}

/// A request from one node to another.
#[derive(Debug, Clone, Eq, PartialEq)]
pub enum Request<C: LogCommand> {
    AppendEntries(AppendEntries<C>),
    RequestVote(RequestVote),
}

/// The answer to an [`AppendEntries`] request.
#[derive(Debug, Clone, Eq, PartialEq)]
pub struct AppendEntriesAck {
    pub request_id: Uuid,
    pub from: ServerId,
    pub to: ServerId,
    pub term: TermIndex,
    pub success: bool,
}

/// The answer to a [`RequestVote`] request.
#[derive(Debug, Clone, Eq, PartialEq)]
pub struct Vote {
    pub request_id: Uuid,
    pub from: ServerId,
    pub to: ServerId,
    pub term: TermIndex,
    pub vote_granted: bool,
}

/// A reply, named after the request it answers.
#[derive(Debug, Clone, Eq, PartialEq)]
pub enum ReplyTo {
    AppendEntries(AppendEntriesAck),
    RequestVote(Vote),
}

/// Any message that travels between two nodes.
#[derive(Debug, Clone, Eq, PartialEq)]
pub enum RpcMessage<C: LogCommand> {
    Request(Request<C>),
    Reply(ReplyTo),
}

impl<C: LogCommand> Request<C> {
    /// The sender.
    pub open spec fn spec_from(&self) -> ServerId {
        match self {
            Request::AppendEntries(ae) => ae.from,
            Request::RequestVote(rv) => rv.from,
        }
    }

    /// The receiver.
    pub open spec fn spec_to(&self) -> ServerId {
        match self {
            Request::AppendEntries(ae) => ae.to,
            Request::RequestVote(rv) => rv.to,
        }
    }

    /// The sender's term.
    pub open spec fn spec_term(&self) -> TermIndex {
        match self {
            Request::AppendEntries(ae) => ae.term,
            Request::RequestVote(rv) => rv.term,
        }
    }

    /// The identifier that ties a request and its reply together.
    pub open spec fn spec_request_id(&self) -> Uuid {
        match self {
            Request::AppendEntries(ae) => ae.request_id,
            Request::RequestVote(rv) => rv.request_id,
        }
    }

    /// The sender.
    #[verifier::when_used_as_spec(spec_from)]
    pub fn from(&self) -> (id: ServerId)
        ensures
            id == self.spec_from(),
    {
        match self {
            Request::AppendEntries(ae) => ae.from,
            Request::RequestVote(rv) => rv.from,
        }
    }

    /// The receiver.
    #[verifier::when_used_as_spec(spec_to)]
    pub fn to(&self) -> (id: ServerId)
        ensures
            id == self.spec_to(),
    {
        match self {
            Request::AppendEntries(ae) => ae.to,
            Request::RequestVote(rv) => rv.to,
        }
    }

    /// The sender's term.
    #[verifier::when_used_as_spec(spec_term)]
    pub fn term(&self) -> (term: TermIndex)
        ensures
            term == self.spec_term(),
    {
        match self {
            Request::AppendEntries(ae) => ae.term,
            Request::RequestVote(rv) => rv.term,
        }
    }

    /// The identifier that the reply will carry.
    #[verifier::when_used_as_spec(spec_request_id)]
    pub fn request_id(&self) -> (id: Uuid)
        ensures
            id == self.spec_request_id(),
    {
        match self {
            Request::AppendEntries(ae) => ae.request_id,
            Request::RequestVote(rv) => rv.request_id,
        }
    }
}

impl ReplyTo {
    /// The sender.
    pub open spec fn spec_from(&self) -> ServerId {
        match self {
            ReplyTo::AppendEntries(ack) => ack.from,
            ReplyTo::RequestVote(vote) => vote.from,
        }
    }

    /// The receiver.
    pub open spec fn spec_to(&self) -> ServerId {
        match self {
            ReplyTo::AppendEntries(ack) => ack.to,
            ReplyTo::RequestVote(vote) => vote.to,
        }
    }

    /// The sender's term.
    pub open spec fn spec_term(&self) -> TermIndex {
        match self {
            ReplyTo::AppendEntries(ack) => ack.term,
            ReplyTo::RequestVote(vote) => vote.term,
        }
    }

    /// The identifier that ties a request and its reply together.
    pub open spec fn spec_request_id(&self) -> Uuid {
        match self {
            ReplyTo::AppendEntries(ack) => ack.request_id,
            ReplyTo::RequestVote(vote) => vote.request_id,
        }
    }

    /// The sender.
    #[verifier::when_used_as_spec(spec_from)]
    pub fn from(&self) -> (id: ServerId)
        ensures
            id == self.spec_from(),
    {
        match self {
            ReplyTo::AppendEntries(ack) => ack.from,
            ReplyTo::RequestVote(vote) => vote.from,
        }
    }

    /// The receiver.
    #[verifier::when_used_as_spec(spec_to)]
    pub fn to(&self) -> (id: ServerId)
        ensures
            id == self.spec_to(),
    {
        match self {
            ReplyTo::AppendEntries(ack) => ack.to,
            ReplyTo::RequestVote(vote) => vote.to,
        }
    }

    /// The sender's term.
    #[verifier::when_used_as_spec(spec_term)]
    pub fn term(&self) -> (term: TermIndex)
        ensures
            term == self.spec_term(),
    {
        match self {
            ReplyTo::AppendEntries(ack) => ack.term,
            ReplyTo::RequestVote(vote) => vote.term,
        }
    }

    /// The identifier of the request that this reply answers.
    #[verifier::when_used_as_spec(spec_request_id)]
    pub fn request_id(&self) -> (id: Uuid)
        ensures
            id == self.spec_request_id(),
    {
        match self {
            ReplyTo::AppendEntries(ack) => ack.request_id,
            ReplyTo::RequestVote(vote) => vote.request_id,
        }
    }
}

impl<C: LogCommand> RpcMessage<C> {
    /// The sender.
    pub open spec fn spec_from(&self) -> ServerId {
        match self {
            RpcMessage::Request(request) => request.spec_from(),
            RpcMessage::Reply(reply) => reply.spec_from(),
        }
    }

    /// The receiver.
    pub open spec fn spec_to(&self) -> ServerId {
        match self {
            RpcMessage::Request(request) => request.spec_to(),
            RpcMessage::Reply(reply) => reply.spec_to(),
        }
    }

    /// The sender's term.
    pub open spec fn spec_term(&self) -> TermIndex {
        match self {
            RpcMessage::Request(request) => request.spec_term(),
            RpcMessage::Reply(reply) => reply.spec_term(),
        }
    }

    /// The identifier that ties a request and its reply together.
    pub open spec fn spec_request_id(&self) -> Uuid {
        match self {
            RpcMessage::Request(request) => request.spec_request_id(),
            RpcMessage::Reply(reply) => reply.spec_request_id(),
        }
    }

    /// The sender.
    #[verifier::when_used_as_spec(spec_from)]
    pub fn from(&self) -> (id: ServerId)
        ensures
            id == self.spec_from(),
    {
        match self {
            RpcMessage::Request(request) => request.from(),
            RpcMessage::Reply(reply) => reply.from(),
        }
    }

    /// The receiver.
    #[verifier::when_used_as_spec(spec_to)]
    pub fn to(&self) -> (id: ServerId)
        ensures
            id == self.spec_to(),
    {
        match self {
            RpcMessage::Request(request) => request.to(),
            RpcMessage::Reply(reply) => reply.to(),
        }
    }

    /// The identifier that ties a request and its reply together.
    #[verifier::when_used_as_spec(spec_request_id)]
    pub fn request_id(&self) -> (id: Uuid)
        ensures
            id == self.spec_request_id(),
    {
        match self {
            RpcMessage::Request(request) => request.request_id(),
            RpcMessage::Reply(reply) => reply.request_id(),
        }
    }

    /// Wraps an [`AppendEntries`] request.
    pub fn append_entries(append_entries: AppendEntries<C>) -> (message: Self)
        ensures
            message == RpcMessage::Request(Request::AppendEntries(append_entries)),
    {
        RpcMessage::Request(Request::AppendEntries(append_entries))
    }

    /// Wraps a [`RequestVote`] request.
    pub fn request_vote(request_vote: RequestVote) -> (message: Self)
        ensures
            message == RpcMessage::<C>::Request(Request::RequestVote(request_vote)),
    {
        RpcMessage::Request(Request::RequestVote(request_vote))
    }

    /// Wraps a [`Vote`] reply.
    pub fn vote(vote: Vote) -> (message: Self)
        ensures
            message == RpcMessage::<C>::Reply(ReplyTo::RequestVote(vote)),
    {
        RpcMessage::Reply(ReplyTo::RequestVote(vote))
    }

    /// Wraps an [`AppendEntriesAck`] reply.
    pub fn ack_append_entries(append_entries_ack: AppendEntriesAck) -> (message: Self)
        ensures
            message == RpcMessage::<C>::Reply(ReplyTo::AppendEntries(append_entries_ack)),
    {
        RpcMessage::Reply(ReplyTo::AppendEntries(append_entries_ack))
    }
}

} // verus!

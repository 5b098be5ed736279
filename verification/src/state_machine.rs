//! The role state machine of one node: Follower, Candidate, Leader.
//!
//! A step takes the node, one event, the node's storage, the configuration and
//! the node's random source, and gives the node's next role together with the
//! actions the driver has to carry out. What a step may do is stated as a
//! relation between the node before and the node after: the election timeout
//! of a step and the identifier of each new request are drawn from the
//! node's random source, so a step is fixed up to those, and a node that is
//! run again from the same seed on the same events takes the same steps.
//!
//! See <https://raft.github.io/raft.pdf>. Only leader election is implemented.

use vstd::prelude::*;
use std::collections::HashMap;
use divrem::DivCeil;
use rand::Rng;
use rand_chacha::ChaCha8Rng;
use uuid::Uuid;
use crate::common::Election;
use crate::common::LogCommand;
use crate::common::LogIndex;
use crate::common::PersistentStorage;
use crate::common::PersistentStorageError;
use crate::common::RaftConfig;
use crate::common::ServerId;
use crate::common::TermIndex;
use crate::rpc_messages::new_request_id;
use crate::rpc_messages::AppendEntries;
use crate::rpc_messages::AppendEntriesAck;
use crate::rpc_messages::ReplyTo;
use crate::rpc_messages::Request;
use crate::rpc_messages::RequestVote;
use crate::rpc_messages::RpcMessage;
use crate::rpc_messages::Vote;
use crate::server_set::ServerSet;
use crate::system_clock::now;
use crate::system_clock::Duration;
use crate::system_clock::Instant;

verus! {

/// `rand_chacha::ChaCha8Rng`, the random source of one node. Its state is
/// never read here.
#[verifier::external_type_specification]
#[verifier::external_body]
pub struct ExChaCha8Rng(rand_chacha::ChaCha8Rng);

/// Draws a number from `low..high` with `rand::Rng::gen_range`, which panics
/// on an empty range and otherwise returns a member of the range.
#[verifier::external_body]
fn random_in_range(rng: &mut ChaCha8Rng, low: u64, high: u64) -> (drawn: u64)
    requires
        low < high,
    ensures
        low <= drawn < high,
{
    rng.gen_range(low..high)
}

/// Divides with `divrem::DivCeil::div_ceil`, which rounds the quotient of two
/// unsigned numbers up and panics on a zero divisor.
#[verifier::external_body]
fn div_ceil(n: u128, by: u128) -> (quotient: u128)
    requires
        by != 0,
    ensures
        quotient == if n == 0 {
            0
        } else {
            (n - 1) / (by as int) + 1
        },
{
    DivCeil::div_ceil(n, by)
}

/// What a node reacts to.
#[derive(Debug, Clone)]
pub enum Event<C: LogCommand> {
    /// A wake-up that carries the clock reading at which it was made.
    Tick(Instant),
    /// The application has applied the entry at this index. Reserved.
    LogEntryAppliedByApplication(LogIndex),
    /// A request or a reply delivered by the transport.
    IncomingRpc(RpcMessage<C>),
}

/// What a node asks its driver to do.
#[derive(Debug, Clone)]
pub enum Action<C: LogCommand> {
    /// Wake the node after this long at the latest.
    SetNextTimeout(Duration),
    /// Hand these commands to the application. Reserved.
    ApplyLogEntries(Vec<C>),
    /// Send this message.
    OutgoingRpc(RpcMessage<C>),
}

/// What only a leader keeps.
#[derive(Debug, Clone)]
pub struct Leader {
    pub last_heartbeat_sent: Instant,
    /// Per peer, the next entry to send. Reserved for replication.
    pub next_index: HashMap<u64, LogIndex>,
    /// Per peer, the last entry known to be stored there. Reserved for replication.
    pub match_index: HashMap<u64, LogIndex>,
}

/// What only a candidate keeps.
#[derive(Debug, Clone)]
pub struct Candidate {
    pub last_election_timer_started: Instant,
    pub election_timeout: Duration,
    pub votes_received: ServerSet,
}

/// What only a follower keeps.
#[derive(Debug, Clone)]
pub struct Follower {
    pub last_election_timer_started: Instant,
    pub election_timeout: Duration,
    pub leader_id: Option<ServerId>,
}

/// A node in one role: what every role keeps, and in `inner` what only this
/// role keeps.
#[derive(Debug, Clone)]
pub struct NodeState<S> {
    pub server_id: ServerId,
    pub start_time: Instant,
    pub current_time: Instant,
    pub other_servers: ServerSet,
    pub commit_index: LogIndex,
    pub last_applied: LogIndex,
    pub inner: S,
}

/// A node, in whichever role it plays.
#[derive(Debug, Clone)]
pub enum Node {
    Leader(NodeState<Leader>),
    Follower(NodeState<Follower>),
    Candidate(NodeState<Candidate>),
}

/// The election timeout that a new node starts with.
pub struct FirstElectionTimeout(pub Duration);

/// The number of votes that wins an election in a cluster of this node and
/// `other_servers` more: the smallest number that is more than half of all.
pub open spec fn quorum(other_servers: nat) -> nat {
    (other_servers + 1) / 2 + 1
}

/// Whether a node with `other_servers` peers has, with its own vote alone,
/// the votes that win an election.
pub open spec fn wins_alone(other_servers: nat) -> bool {
    1 >= quorum(other_servers)
}

/// The wait that `action` arms, zero where it arms none.
pub open spec fn timeout_of<C: LogCommand>(action: Action<C>) -> Duration {
    match action {
        Action::SetNextTimeout(timeout) => timeout,
        _ => Duration { nanos: 0 },
    }
}

/// The term that an event carries: every message carries its sender's term.
pub open spec fn carried_term<C: LogCommand>(event: Event<C>) -> Option<TermIndex> {
    match event {
        Event::IncomingRpc(message) => Some(message.spec_term()),
        _ => None,
    }
}

/// Whether an event shows a term beyond the one in `record`.
pub open spec fn observes_higher_term<C: LogCommand>(event: Event<C>, record: Election) -> bool {
    carried_term(event) matches Some(term) && term.0 > record.current_term.0
}

/// The reply to a vote request.
pub open spec fn vote_reply<C: LogCommand>(
    request: RequestVote,
    from: ServerId,
    term: TermIndex,
    granted: bool,
) -> Action<C> {
    Action::OutgoingRpc(
        RpcMessage::Reply(
            ReplyTo::RequestVote(
                Vote {
                    request_id: request.request_id,
                    from,
                    to: request.from,
                    term,
                    vote_granted: granted,
                },
            ),
        ),
    )
}

/// The reply to an append request.
pub open spec fn append_entries_ack<C: LogCommand>(
    request: AppendEntries<C>,
    from: ServerId,
    term: TermIndex,
    success: bool,
) -> Action<C> {
    Action::OutgoingRpc(
        RpcMessage::Reply(
            ReplyTo::AppendEntries(
                AppendEntriesAck {
                    request_id: request.request_id,
                    from,
                    to: request.from,
                    term,
                    success,
                },
            ),
        ),
    )
}

/// Whether `action` sends a heartbeat, an append request without entries, from
/// `from` to `to` in `term`. Its identifier is drawn anew.
pub open spec fn is_heartbeat<C: LogCommand>(
    action: Action<C>,
    from: ServerId,
    to: ServerId,
    term: TermIndex,
    commit: LogIndex,
) -> bool {
    action matches Action::OutgoingRpc(RpcMessage::Request(Request::AppendEntries(request)))
        && request.from == from && request.to == to && request.term == term
        && request.prev_log_index == LogIndex(0) && request.prev_log_term == TermIndex(0)
        && request.entries@.len() == 0 && request.leader_commit == commit
}

/// Whether `action` sends a vote request from `from` to `to` in `term`. Its
/// identifier is drawn anew.
pub open spec fn is_vote_request<C: LogCommand>(
    action: Action<C>,
    from: ServerId,
    to: ServerId,
    term: TermIndex,
) -> bool {
    action matches Action::OutgoingRpc(RpcMessage::Request(Request::RequestVote(request)))
        && request.from == from && request.to == to && request.term == term
        && request.last_log_index == LogIndex(0) && request.last_log_term == TermIndex(0)
}

/// One heartbeat to each peer, in the peers' order, then the wake-up for the
/// next round.
pub open spec fn heartbeat_round<C: LogCommand>(
    actions: Seq<Action<C>>,
    from: ServerId,
    peers: Seq<ServerId>,
    term: TermIndex,
    commit: LogIndex,
    interval: Duration,
) -> bool {
    &&& actions.len() == peers.len() + 1
    &&& forall|i: int|
        0 <= i < peers.len() ==> is_heartbeat(#[trigger] actions[i], from, peers[i], term, commit)
    &&& actions[peers.len() as int] == Action::<C>::SetNextTimeout(interval)
}

/// The wake-up for the election timeout, then one vote request to each peer,
/// in the peers' order.
pub open spec fn vote_round<C: LogCommand>(
    actions: Seq<Action<C>>,
    from: ServerId,
    peers: Seq<ServerId>,
    term: TermIndex,
    timeout: Duration,
) -> bool {
    &&& actions.len() == peers.len() + 1
    &&& actions[0] == Action::<C>::SetNextTimeout(timeout)
    &&& forall|i: int|
        0 <= i < peers.len() ==> is_vote_request(#[trigger] actions[i + 1], from, peers[i], term)
}

/// Whatever a step wrote has reached durable storage: holds where the record
/// was durable before the step and where the step changed it.
pub open spec fn fenced<C: LogCommand, PS: PersistentStorage<C>>(before: &PS, after: &PS) -> bool {
    after.election() != before.election() || before.durable() == before.election()
        ==> after.durable() == after.election()
}

/// The record moves forward only: the term does not go down, the record stays
/// well formed, and a vote cast in a term stands for as long as the term lasts.
pub open spec fn advances(before: Election, after: Election) -> bool {
    &&& after.current_term.0 >= before.current_term.0
    &&& before.wf() ==> after.wf()
    &&& after.current_term == before.current_term ==> (before.vote_in_current_term() matches Some(
        server,
    ) ==> after.vote_in_current_term() == Some(server))
}

/// A vote that was written was written for the term that the record is in.
pub open spec fn casts_in_its_term(before: Election, after: Election) -> bool {
    after.voted_for != before.voted_for ==> (after.voted_for matches Some((term, _)) && term
        == after.current_term)
}

impl Election {
    /// The record once the term that `event` shows is adopted: the record in
    /// that term where it is higher, and the record as it is otherwise.
    pub open spec fn adopting<C: LogCommand>(&self, event: Event<C>) -> Election {
        if observes_higher_term(event, *self) {
            self.with_term(carried_term(event).unwrap())
        } else {
            *self
        }
    }

    /// The record that a follower leaves once it has answered the message
    /// `event`: with the vote written where `event` is a vote request that
    /// the follower grants, and as it is otherwise.
    pub open spec fn answering<C: LogCommand>(&self, event: Event<C>) -> Election {
        match event {
            Event::IncomingRpc(RpcMessage::Request(Request::RequestVote(request))) => {
                if request.term.0 >= self.current_term.0 && self.grants(request.from) {
                    self.with_vote(request.from)
                } else {
                    *self
                }
            },
            _ => *self,
        }
    }

    /// Whether a follower with this record grants its vote to `candidate`: it
    /// has not voted in the current term, or it has voted for `candidate`.
    pub open spec fn grants(&self, candidate: ServerId) -> bool {
        match self.vote_in_current_term() {
            None => true,
            Some(server) => server == candidate,
        }
    }

    /// The record of a node that has just opened an election: the next term,
    /// with the node's vote for itself.
    pub open spec fn campaigning(&self, server: ServerId) -> Election {
        self.with_term(TermIndex((self.current_term.0 + 1) as u64)).with_vote(server)
    }
}

impl RaftConfig {
    /// Whether `timeout` is one of the election timeouts that the
    /// configuration allows: a whole number of milliseconds, at least the
    /// minimum and less than the maximum.
    pub open spec fn offers(&self, timeout: Duration) -> bool {
        &&& timeout.nanos % 1_000_000 == 0
        &&& self.min_election_timeout_ms <= timeout.nanos / 1_000_000 < self.max_election_timeout_ms
    }
}

impl<S> NodeState<S> {
    /// What a node keeps across roles is the same in `self` and `other`.
    pub open spec fn same_server<T>(&self, other: &NodeState<T>) -> bool {
        &&& self.server_id == other.server_id
        &&& self.start_time == other.start_time
        &&& self.current_time == other.current_time
        &&& self.other_servers == other.other_servers
        &&& self.commit_index == other.commit_index
        &&& self.last_applied == other.last_applied
    }

    /// The node opened an election in `before` and stands as `candidate`:
    /// it is in the next term with its own vote on record and as the only
    /// vote it holds, its election timer runs anew, and every peer is asked
    /// for its vote.
    pub open spec fn election_opened<C: LogCommand>(
        &self,
        before: Election,
        config: RaftConfig,
        candidate: NodeState<Candidate>,
        record: Election,
        actions: Seq<Action<C>>,
    ) -> bool {
        &&& self.same_server(&candidate)
        &&& candidate.inner.votes_received@ == seq![self.server_id]
        &&& candidate.inner.last_election_timer_started == self.current_time
        &&& config.offers(candidate.inner.election_timeout)
        &&& record == before.campaigning(self.server_id)
        &&& vote_round(
            actions,
            self.server_id,
            self.other_servers@,
            record.current_term,
            candidate.inner.election_timeout,
        )
    }

    /// The node opened an election in `before` and now stands as `after`.
    /// Where its own vote is all it needs, which is so for a node without
    /// peers, it has won the election in the same step: it leads the new
    /// term, and the actions of the election are followed by the leader's
    /// first round of heartbeats. Otherwise it is a candidate.
    pub open spec fn election_started<C: LogCommand>(
        &self,
        before: Election,
        config: RaftConfig,
        after: Node,
        record: Election,
        actions: Seq<Action<C>>,
    ) -> bool {
        if wins_alone(self.other_servers@.len()) {
            let asked = self.other_servers@.len() + 1;
            &&& after matches Node::Leader(leader)
            &&& self.same_server(&leader)
            &&& leader.inner.last_heartbeat_sent == self.current_time
            &&& leader.inner.next_index@ == Map::<u64, LogIndex>::empty()
            &&& leader.inner.match_index@ == Map::<u64, LogIndex>::empty()
            &&& record == before.campaigning(self.server_id)
            &&& actions.len() >= asked
            &&& config.offers(timeout_of(actions[0]))
            &&& vote_round(
                actions.take(asked as int),
                self.server_id,
                self.other_servers@,
                record.current_term,
                timeout_of(actions[0]),
            )
            &&& heartbeat_round(
                actions.skip(asked as int),
                self.server_id,
                self.other_servers@,
                record.current_term,
                self.commit_index,
                config.leader_heartbeat_interval,
            )
        } else {
            after matches Node::Candidate(candidate) && self.election_opened(
                before,
                config,
                candidate,
                record,
                actions,
            )
        }
    }

    /// Answers an append request.
    pub fn ack_append_entries<C, PS>(
        &self,
        storage: &PS,
        append_entries_req: &AppendEntries<C>,
        success: bool,
    ) -> (actions: Vec<Action<C>>) where C: LogCommand, PS: PersistentStorage<C>
        ensures
            actions@ == seq![
                append_entries_ack(
                    *append_entries_req,
                    self.server_id,
                    storage.election().current_term,
                    success,
                ),
            ],
    {
        let ack = Action::OutgoingRpc(
            RpcMessage::ack_append_entries(
                AppendEntriesAck {
                    request_id: append_entries_req.request_id,
                    from: self.server_id,
                    to: append_entries_req.from,
                    term: storage.current_term(),
                    success,
                },
            ),
        );
        let mut actions = Vec::new();
        actions.push(ack);
        actions
    }

    /// Refuses a vote request.
    pub fn vote_no<C, PS>(&self, storage: &PS, vote_req: &RequestVote) -> (actions: Vec<
        Action<C>,
    >) where C: LogCommand, PS: PersistentStorage<C>
        ensures
            actions@ == seq![
                vote_reply::<C>(*vote_req, self.server_id, storage.election().current_term, false),
            ],
    {
        let vote = Action::OutgoingRpc(
            RpcMessage::vote(
                Vote {
                    request_id: vote_req.request_id,
                    from: self.server_id,
                    to: vote_req.from,
                    term: storage.current_term(),
                    vote_granted: false,
                },
            ),
        );
        let mut actions = Vec::new();
        actions.push(vote);
        actions
    }
}

impl Node {
    /// The peers of the node, and the votes of a candidate, hold no server twice.
    pub open spec fn wf(&self) -> bool {
        match self {
            Node::Leader(state) => state.other_servers.wf(),
            Node::Follower(state) => state.other_servers.wf(),
            Node::Candidate(state) => state.other_servers.wf() && state.inner.votes_received.wf(),
        }
    }
}

/// Draws an election timeout: a whole number of milliseconds, at least the
/// configured minimum and less than the configured maximum.
fn draw_election_timeout(config: &RaftConfig, rng: &mut ChaCha8Rng) -> (timeout: Duration)
    requires
        config.valid(),
    ensures
        config.offers(timeout),
{
    let millis = random_in_range(
        rng,
        config.min_election_timeout_ms as u64,
        config.max_election_timeout_ms as u64,
    );
    Duration::from_millis(millis)
}

/// Computes [`quorum`].
fn votes_needed(other_servers: usize) -> (needed: u128)
    ensures
        needed == quorum(other_servers as nat),
{
    div_ceil(other_servers as u128 + 2, 2)
}

impl NodeState<Leader> {
    /// The peers hold no server twice.
    pub open spec fn wf(&self) -> bool {
        self.other_servers.wf()
    }

    /// Whether a tick made at `tick` finds the heartbeat interval over.
    pub open spec fn heartbeat_due(&self, tick: Instant, config: RaftConfig) -> bool {
        tick.is_after(self.inner.last_heartbeat_sent, config.leader_heartbeat_interval)
    }

    /// This leader with a round of heartbeats just sent.
    pub open spec fn after_heartbeat(&self) -> NodeState<Leader> {
        NodeState {
            inner: Leader { last_heartbeat_sent: self.current_time, ..self.inner },
            ..*self
        }
    }

    /// What a leader may answer to `event` while its record is `before`.
    pub open spec fn handles<C: LogCommand>(
        &self,
        before: Election,
        event: Event<C>,
        config: RaftConfig,
        after: Node,
        record: Election,
        actions: Seq<Action<C>>,
    ) -> bool {
        &&& record == before
        &&& match event {
            Event::Tick(tick) => if self.heartbeat_due(tick, config) {
                &&& after == Node::Leader(self.after_heartbeat())
                &&& heartbeat_round(
                    actions,
                    self.server_id,
                    self.other_servers@,
                    before.current_term,
                    self.commit_index,
                    config.leader_heartbeat_interval,
                )
            } else {
                after == Node::Leader(*self) && actions == Seq::<Action<C>>::empty()
            },
            Event::IncomingRpc(RpcMessage::Request(Request::RequestVote(request))) => {
                &&& after == Node::Leader(*self)
                &&& actions == seq![
                    vote_reply::<C>(request, self.server_id, before.current_term, false),
                ]
            },
            Event::IncomingRpc(RpcMessage::Request(Request::AppendEntries(request))) => {
                // An append request of the leader's own term would come from a
                // second leader of that term: on that, a leader has no step.
                &&& request.term.0 < before.current_term.0
                &&& after == Node::Leader(*self)
                &&& actions == seq![
                    append_entries_ack(request, self.server_id, before.current_term, false),
                ]
            },
            Event::IncomingRpc(RpcMessage::Reply(_)) => {
                after == Node::Leader(*self) && actions == Seq::<Action<C>>::empty()
            },
            Event::LogEntryAppliedByApplication(_) => true,
        }
    }

    /// The heartbeat to `to`, under the identifier `request_id`.
    fn heartbeat<C: LogCommand>(&self, to: ServerId, term: TermIndex, request_id: Uuid) -> (action:
        Action<C>)
        ensures
            is_heartbeat(action, self.server_id, to, term, self.commit_index),
            action matches Action::OutgoingRpc(message) && message.spec_request_id() == request_id,
    {
        Action::OutgoingRpc(
            RpcMessage::append_entries(
                AppendEntries {
                    request_id,
                    from: self.server_id,
                    to,
                    term,
                    prev_log_index: LogIndex(0),
                    prev_log_term: TermIndex(0),
                    entries: Vec::new(),
                    leader_commit: self.commit_index,
                },
            ),
        )
    }

    /// Addresses one heartbeat to every peer and arms the next round.
    pub fn send_leader_heartbeat_to_cluster<C, PS>(
        &mut self,
        storage: &PS,
        config: &RaftConfig,
        rng: &mut ChaCha8Rng,
    ) -> (actions: Vec<Action<C>>) where C: LogCommand, PS: PersistentStorage<C>
        ensures
            *final(self) == old(self).after_heartbeat(),
            heartbeat_round(
                actions@,
                old(self).server_id,
                old(self).other_servers@,
                storage.election().current_term,
                old(self).commit_index,
                config.leader_heartbeat_interval,
            ),
    {
        let mut actions: Vec<Action<C>> = Vec::new();
        let term = storage.current_term();
        let mut i: usize = 0;
        while i < self.other_servers.len()
            invariant
                *self == *old(self),
                i <= self.other_servers@.len(),
                actions@.len() == i,
                forall|j: int|
                    0 <= j < i ==> is_heartbeat(
                        #[trigger] actions@[j],
                        self.server_id,
                        self.other_servers@[j],
                        term,
                        self.commit_index,
                    ),
            decreases self.other_servers@.len() - i,
        {
            let to = self.other_servers.get(i);
            let action = self.heartbeat(to, term, new_request_id(rng));
            actions.push(action);
            i += 1;
        }
        self.inner.last_heartbeat_sent = self.current_time;
        actions.push(Action::SetNextTimeout(config.leader_heartbeat_interval));
        actions
    }

    /// Steps down after a higher term was seen.
    fn into_follower(self) -> (follower: NodeState<Follower>)
        ensures
            self.same_server(&follower),
            follower.inner.leader_id is None,
            follower.inner.last_election_timer_started == self.current_time,
            follower.inner.election_timeout == (Duration { nanos: 0 }),
    {
        NodeState {
            inner: Follower {
                last_election_timer_started: self.current_time,
                election_timeout: Duration { nanos: 0 },
                leader_id: None,
            },
            server_id: self.server_id,
            start_time: self.start_time,
            current_time: self.current_time,
            other_servers: self.other_servers,
            commit_index: self.commit_index,
            last_applied: self.last_applied,
        }
    }

    /// One step of a leader.
    pub fn handle_event<C, PS>(
        self,
        event: Event<C>,
        storage: &mut PS,
        config: &RaftConfig,
        rng: &mut ChaCha8Rng,
    ) -> (step: Result<(Node, Vec<Action<C>>), PersistentStorageError>) where
        C: LogCommand,
        PS: PersistentStorage<C>,

        requires
            self.wf(),
            !(event is LogEntryAppliedByApplication),
            event matches Event::IncomingRpc(RpcMessage::Request(Request::AppendEntries(request)))
                ==> request.term.0 < old(storage).election().current_term.0,
        ensures
            final(storage).election() == old(storage).election(),
            final(storage).durable() == old(storage).durable(),
            step matches Ok((after, actions)) && after.wf() && self.handles(
                old(storage).election(),
                event,
                *config,
                after,
                final(storage).election(),
                actions@,
            ),
    {
        let mut state = self;
        match event {
            Event::Tick(tick) => {
                let maybe_heartbeat = if tick.has_passed(
                    state.inner.last_heartbeat_sent,
                    config.leader_heartbeat_interval,
                ) {
                    state.send_leader_heartbeat_to_cluster(&*storage, config, rng)
                } else {
                    Vec::new()
                };
                Ok((Node::Leader(state), maybe_heartbeat))
            },
            Event::LogEntryAppliedByApplication(_) => Ok((Node::Leader(state), Vec::new())),
            Event::IncomingRpc(RpcMessage::Request(rpc_req)) => match rpc_req {
                Request::RequestVote(req) => {
                    let vote = state.vote_no(&*storage, &req);
                    Ok((Node::Leader(state), vote))
                },
                Request::AppendEntries(req) => {
                    let ack = state.ack_append_entries(&*storage, &req, false);
                    Ok((Node::Leader(state), ack))
                },
            },
            Event::IncomingRpc(RpcMessage::Reply(_)) => Ok((Node::Leader(state), Vec::new())),
        }
    }
}

/// The votes of a candidate after a vote from `from` was counted: a server
/// counts once, however often its vote arrives.
pub open spec fn counted(votes: Seq<ServerId>, from: ServerId) -> Seq<ServerId> {
    if votes.contains(from) {
        votes
    } else {
        votes.push(from)
    }
}

impl NodeState<Candidate> {
    /// Neither the peers nor the votes hold a server twice.
    pub open spec fn wf(&self) -> bool {
        self.other_servers.wf() && self.inner.votes_received.wf()
    }

    /// Whether a tick made at `tick` finds the election timeout over.
    pub open spec fn timer_expired(&self, tick: Instant) -> bool {
        tick.is_after(self.inner.last_election_timer_started, self.inner.election_timeout)
    }

    /// Whether the step on `event` writes to storage, and so may fail.
    pub open spec fn persists<C: LogCommand>(&self, event: Event<C>) -> bool {
        event matches Event::Tick(tick) && self.timer_expired(tick)
    }

    /// The record that the step on `event` leaves, whether it goes well or
    /// fails on storage.
    pub open spec fn leaves<C: LogCommand>(&self, before: Election, event: Event<C>) -> Election {
        if self.persists(event) {
            before.campaigning(self.server_id)
        } else {
            before
        }
    }

    /// What a candidate may answer to `event` while its record is `before`.
    pub open spec fn handles<C: LogCommand>(
        &self,
        before: Election,
        event: Event<C>,
        config: RaftConfig,
        after: Node,
        record: Election,
        actions: Seq<Action<C>>,
    ) -> bool {
        match event {
            Event::Tick(tick) => if self.timer_expired(tick) {
                self.election_started(before, config, after, record, actions)
            } else {
                &&& after == Node::Candidate(*self)
                &&& record == before
                &&& actions == Seq::<Action<C>>::empty()
            },
            Event::IncomingRpc(RpcMessage::Request(Request::RequestVote(request))) => {
                &&& after == Node::Candidate(*self)
                &&& record == before
                &&& actions == seq![
                    vote_reply::<C>(request, self.server_id, before.current_term, false),
                ]
            },
            Event::IncomingRpc(RpcMessage::Request(Request::AppendEntries(request))) => {
                &&& record == before
                &&& if request.term.0 < before.current_term.0 {
                    &&& after == Node::Candidate(*self)
                    &&& actions == seq![
                        append_entries_ack(request, self.server_id, before.current_term, false),
                    ]
                } else {
                    &&& after matches Node::Follower(follower)
                    &&& self.same_server(&follower)
                    &&& follower.inner.leader_id == Some(request.from)
                    &&& follower.inner.last_election_timer_started == self.current_time
                    &&& config.offers(follower.inner.election_timeout)
                    &&& actions == seq![
                        append_entries_ack(request, self.server_id, before.current_term, true),
                    ]
                }
            },
            Event::IncomingRpc(RpcMessage::Reply(ReplyTo::RequestVote(vote))) => {
                &&& record == before
                &&& if vote.term == before.current_term && vote.vote_granted {
                    let votes = counted(self.inner.votes_received@, vote.from);
                    if votes.len() >= quorum(self.other_servers@.len()) {
                        &&& after matches Node::Leader(leader)
                        &&& self.same_server(&leader)
                        &&& leader.inner.last_heartbeat_sent == self.current_time
                        &&& leader.inner.next_index@ == Map::<u64, LogIndex>::empty()
                        &&& leader.inner.match_index@ == Map::<u64, LogIndex>::empty()
                        &&& heartbeat_round(
                            actions,
                            self.server_id,
                            self.other_servers@,
                            before.current_term,
                            self.commit_index,
                            config.leader_heartbeat_interval,
                        )
                    } else {
                        &&& after matches Node::Candidate(candidate)
                        &&& self.same_server(&candidate)
                        &&& candidate.inner.last_election_timer_started
                            == self.inner.last_election_timer_started
                        &&& candidate.inner.election_timeout == self.inner.election_timeout
                        &&& candidate.inner.votes_received@ == votes
                        &&& actions == Seq::<Action<C>>::empty()
                    }
                } else {
                    after == Node::Candidate(*self) && actions == Seq::<Action<C>>::empty()
                }
            },
            Event::IncomingRpc(RpcMessage::Reply(ReplyTo::AppendEntries(_))) => {
                &&& after == Node::Candidate(*self)
                &&& record == before
                &&& actions == Seq::<Action<C>>::empty()
            },
            Event::LogEntryAppliedByApplication(_) => true,
        }
    }

    /// Restarts the election timer at the node's clock reading, with a timeout
    /// drawn anew, and returns the timeout.
    fn reset_election_timer(&mut self, config: &RaftConfig, rng: &mut ChaCha8Rng) -> (timeout:
        Duration)
        requires
            config.valid(),
        ensures
            config.offers(timeout),
            *final(self) == (NodeState {
                inner: Candidate {
                    last_election_timer_started: old(self).current_time,
                    election_timeout: timeout,
                    ..old(self).inner
                },
                ..*old(self)
            }),
    {
        let election_timeout = draw_election_timeout(config, rng);
        self.inner.election_timeout = election_timeout;
        self.inner.last_election_timer_started = self.current_time;
        election_timeout
    }

    /// The vote request to `to`, under the identifier `request_id`.
    fn vote_request<C: LogCommand>(&self, to: ServerId, term: TermIndex, request_id: Uuid) -> (action:
        Action<C>)
        ensures
            is_vote_request(action, self.server_id, to, term),
            action matches Action::OutgoingRpc(message) && message.spec_request_id() == request_id,
    {
        Action::OutgoingRpc(
            RpcMessage::request_vote(
                RequestVote {
                    request_id,
                    from: self.server_id,
                    to,
                    term,
                    last_log_index: LogIndex(0),
                    last_log_term: TermIndex(0),
                },
            ),
        )
    }

    /// Opens an election: moves to the next term, votes for itself and makes
    /// both durable, restarts the election timer, forgets the votes of the
    /// last election and asks every peer for its vote.
    pub fn start_new_election<PS, C>(
        &mut self,
        config: &RaftConfig,
        storage: &mut PS,
        rng: &mut ChaCha8Rng,
    ) -> (started: Result<Vec<Action<C>>, PersistentStorageError>) where
        PS: PersistentStorage<C>,
        C: LogCommand,

        requires
            config.valid(),
            old(storage).election().current_term.0 < u64::MAX,
        ensures
            final(storage).election() == old(storage).election().campaigning(old(self).server_id),
            match started {
                Ok(actions) => {
                    &&& old(self).election_opened(
                        old(storage).election(),
                        *config,
                        *final(self),
                        final(storage).election(),
                        actions@,
                    )
                    &&& final(self).inner.votes_received.wf()
                    &&& final(storage).durable() == final(storage).election()
                },
                Err(_) => *final(self) == *old(self),
            },
    {
        let mut term = storage.current_term();
        let next_term = term.increment();
        storage.update_term(next_term);
        storage.record_vote(self.server_id);
        match storage.sync() {
            Err(error) => {
                return Err(error);
            },
            Ok(()) => {},
        }
        let election_timeout = self.reset_election_timer(config, rng);
        let mut votes = ServerSet::new();
        votes.insert(self.server_id);
        self.inner.votes_received = votes;

        let mut actions: Vec<Action<C>> = Vec::new();
        actions.push(Action::SetNextTimeout(election_timeout));
        let mut i: usize = 0;
        while i < self.other_servers.len()
            invariant
                i <= self.other_servers@.len(),
                actions@.len() == i + 1,
                actions@[0] == Action::<C>::SetNextTimeout(election_timeout),
                forall|j: int|
                    0 <= j < i ==> is_vote_request(
                        #[trigger] actions@[j + 1],
                        self.server_id,
                        self.other_servers@[j],
                        next_term,
                    ),
            decreases self.other_servers@.len() - i,
        {
            let to = self.other_servers.get(i);
            let action = self.vote_request(to, next_term, new_request_id(rng));
            actions.push(action);
            i += 1;
        }
        Ok(actions)
    }

    /// Opens an election and, where the node's own vote is all it takes,
    /// wins it at once: [`NodeState::election_started`].
    pub fn campaign<PS, C>(
        self,
        config: &RaftConfig,
        storage: &mut PS,
        rng: &mut ChaCha8Rng,
    ) -> (campaigned: Result<(Node, Vec<Action<C>>), PersistentStorageError>) where
        PS: PersistentStorage<C>,
        C: LogCommand,

        requires
            self.other_servers.wf(),
            config.valid(),
            old(storage).election().current_term.0 < u64::MAX,
        ensures
            final(storage).election() == old(storage).election().campaigning(self.server_id),
            campaigned matches Ok((after, actions)) ==> {
                &&& after.wf()
                &&& self.election_started(
                    old(storage).election(),
                    *config,
                    after,
                    final(storage).election(),
                    actions@,
                )
                &&& final(storage).durable() == final(storage).election()
            },
    {
        let mut candidate = self;
        let mut actions = match candidate.start_new_election(config, storage, rng) {
            Ok(actions) => actions,
            Err(error) => {
                return Err(error);
            },
        };
        let needed = votes_needed(candidate.other_servers.len());
        if candidate.inner.votes_received.len() as u128 >= needed {
            let ghost asked = actions@;
            let mut leader = candidate.into_leader();
            let mut heartbeats = leader.send_leader_heartbeat_to_cluster(&*storage, config, rng);
            let ghost round = heartbeats@;
            actions.append(&mut heartbeats);
            proof {
                assert(actions@.take(asked.len() as int) =~= asked);
                assert(actions@.skip(asked.len() as int) =~= round);
                assert(actions@[0] == asked[0]);
            }
            Ok((Node::Leader(leader), actions))
        } else {
            Ok((Node::Candidate(candidate), actions))
        }
    }

    /// Wins the election.
    fn into_leader(self) -> (leader: NodeState<Leader>)
        ensures
            self.same_server(&leader),
            leader.inner.last_heartbeat_sent == self.current_time,
            leader.inner.next_index@ == Map::<u64, LogIndex>::empty(),
            leader.inner.match_index@ == Map::<u64, LogIndex>::empty(),
    {
        NodeState {
            inner: Leader {
                last_heartbeat_sent: self.current_time,
                next_index: HashMap::new(),
                match_index: HashMap::new(),
            },
            server_id: self.server_id,
            start_time: self.start_time,
            current_time: self.current_time,
            other_servers: self.other_servers,
            commit_index: self.commit_index,
            last_applied: self.last_applied,
        }
    }

    /// Gives the election up for another server's leadership.
    fn into_follower(self) -> (follower: NodeState<Follower>)
        ensures
            self.same_server(&follower),
            follower.inner.leader_id is None,
            follower.inner.last_election_timer_started == self.current_time,
            follower.inner.election_timeout == self.inner.election_timeout,
    {
        NodeState {
            inner: Follower {
                last_election_timer_started: self.current_time,
                election_timeout: self.inner.election_timeout,
                leader_id: None,
            },
            server_id: self.server_id,
            start_time: self.start_time,
            current_time: self.current_time,
            other_servers: self.other_servers,
            commit_index: self.commit_index,
            last_applied: self.last_applied,
        }
    }

    /// One step of a candidate.
    pub fn handle_event<C, PS>(
        self,
        event: Event<C>,
        storage: &mut PS,
        config: &RaftConfig,
        rng: &mut ChaCha8Rng,
    ) -> (step: Result<(Node, Vec<Action<C>>), PersistentStorageError>) where
        C: LogCommand,
        PS: PersistentStorage<C>,

        requires
            self.wf(),
            config.valid(),
            !(event is LogEntryAppliedByApplication),
            match event {
                Event::Tick(tick) => self.timer_expired(tick) ==> old(
                    storage,
                ).election().current_term.0 < u64::MAX,
                _ => true,
            },
            event matches Event::IncomingRpc(RpcMessage::Request(Request::AppendEntries(request)))
                ==> request.term.0 <= old(storage).election().current_term.0,
        ensures
            match step {
                Ok((after, actions)) => {
                    &&& after.wf()
                    &&& self.handles(
                        old(storage).election(),
                        event,
                        *config,
                        after,
                        final(storage).election(),
                        actions@,
                    )
                    &&& fenced::<C, PS>(old(storage), final(storage))
                },
                Err(_) => self.persists(event),
            },
            final(storage).election() == self.leaves(old(storage).election(), event),
            !self.persists(event) ==> final(storage).durable() == old(storage).durable(),
            advances(old(storage).election(), final(storage).election()),
            casts_in_its_term(old(storage).election(), final(storage).election()),
    {
        let mut state = self;
        match event {
            Event::Tick(tick) => {
                if tick.has_passed(
                    state.inner.last_election_timer_started,
                    state.inner.election_timeout,
                ) {
                    state.campaign(config, storage, rng)
                } else {
                    Ok((Node::Candidate(state), Vec::new()))
                }
            },
            Event::LogEntryAppliedByApplication(_) => Ok((Node::Candidate(state), Vec::new())),
            Event::IncomingRpc(RpcMessage::Request(rpc_req)) => match rpc_req {
                Request::RequestVote(req) => {
                    let vote = state.vote_no(&*storage, &req);
                    Ok((Node::Candidate(state), vote))
                },
                Request::AppendEntries(req) => {
                    if req.term.0 < storage.current_term().0 {
                        let ack = state.ack_append_entries(&*storage, &req, false);
                        Ok((Node::Candidate(state), ack))
                    } else {
                        let mut follower_state = state.into_follower();
                        let ack = follower_state.ack_append_entries(&*storage, &req, true);
                        follower_state.inner.leader_id = Some(req.from);
                        follower_state.reset_election_timer(config, rng);
                        Ok((Node::Follower(follower_state), ack))
                    }
                },
            },
            Event::IncomingRpc(RpcMessage::Reply(reply)) => match reply {
                ReplyTo::RequestVote(vote) => {
                    let needed = votes_needed(state.other_servers.len());
                    if vote.term.0 == storage.current_term().0 && vote.vote_granted {
                        state.inner.votes_received.insert(vote.from);
                        if state.inner.votes_received.len() as u128 >= needed {
                            let mut new_state = state.into_leader();
                            let actions = new_state.send_leader_heartbeat_to_cluster(
                                &*storage,
                                config,
                                rng,
                            );
                            Ok((Node::Leader(new_state), actions))
                        } else {
                            Ok((Node::Candidate(state), Vec::new()))
                        }
                    } else {
                        Ok((Node::Candidate(state), Vec::new()))
                    }
                },
                ReplyTo::AppendEntries(_) => Ok((Node::Candidate(state), Vec::new())),
            },
        }
    }
}

impl NodeState<Follower> {
    /// The peers hold no server twice.
    pub open spec fn wf(&self) -> bool {
        self.other_servers.wf()
    }

    /// Whether a tick made at `tick` finds the election timeout over.
    pub open spec fn timer_expired(&self, tick: Instant) -> bool {
        tick.is_after(self.inner.last_election_timer_started, self.inner.election_timeout)
    }

    /// This follower with no leader known.
    pub open spec fn without_leader(&self) -> NodeState<Follower> {
        NodeState { inner: Follower { leader_id: None, ..self.inner }, ..*self }
    }

    /// Whether the step on `event` writes to storage, and so may fail.
    pub open spec fn persists<C: LogCommand>(&self, before: Election, event: Event<C>) -> bool {
        match event {
            Event::Tick(tick) => self.timer_expired(tick),
            Event::IncomingRpc(RpcMessage::Request(Request::RequestVote(request))) => {
                request.term.0 >= before.current_term.0 && before.grants(request.from)
            },
            _ => false,
        }
    }

    /// The record that the step on `event` leaves, whether it goes well or
    /// fails on storage.
    pub open spec fn leaves<C: LogCommand>(&self, before: Election, event: Event<C>) -> Election {
        match event {
            Event::Tick(tick) => if self.timer_expired(tick) {
                before.campaigning(self.server_id)
            } else {
                before
            },
            _ => before.answering(event),
        }
    }

    /// What a follower may answer to `event` while its record is `before`.
    pub open spec fn handles<C: LogCommand>(
        &self,
        before: Election,
        event: Event<C>,
        config: RaftConfig,
        after: Node,
        record: Election,
        actions: Seq<Action<C>>,
    ) -> bool {
        match event {
            Event::Tick(tick) => if self.timer_expired(tick) {
                self.election_started(before, config, after, record, actions)
            } else {
                &&& after == Node::Follower(*self)
                &&& record == before
                &&& actions == Seq::<Action<C>>::empty()
            },
            Event::IncomingRpc(RpcMessage::Request(Request::RequestVote(request))) => {
                if request.term.0 < before.current_term.0 {
                    &&& after == Node::Follower(*self)
                    &&& record == before
                    &&& actions == seq![
                        vote_reply::<C>(request, self.server_id, before.current_term, false),
                    ]
                } else {
                    let granted = before.grants(request.from);
                    &&& after == Node::Follower(self.without_leader())
                    &&& record == if granted {
                        before.with_vote(request.from)
                    } else {
                        before
                    }
                    &&& actions == seq![
                        vote_reply::<C>(request, self.server_id, before.current_term, granted),
                    ]
                }
            },
            Event::IncomingRpc(RpcMessage::Request(Request::AppendEntries(request))) => {
                &&& record == before
                &&& if request.term.0 < before.current_term.0 {
                    &&& after == Node::Follower(*self)
                    &&& actions == seq![
                        append_entries_ack(request, self.server_id, before.current_term, false),
                    ]
                } else {
                    &&& after matches Node::Follower(follower)
                    &&& self.same_server(&follower)
                    &&& follower.inner.leader_id == Some(request.from)
                    &&& follower.inner.last_election_timer_started == self.current_time
                    &&& config.offers(follower.inner.election_timeout)
                    &&& actions == seq![
                        append_entries_ack(request, self.server_id, before.current_term, true),
                        Action::SetNextTimeout(follower.inner.election_timeout),
                    ]
                }
            },
            Event::IncomingRpc(RpcMessage::Reply(_)) => {
                &&& after == Node::Follower(*self)
                &&& record == before
                &&& actions == Seq::<Action<C>>::empty()
            },
            Event::LogEntryAppliedByApplication(_) => true,
        }
    }

    /// A follower that has just come up, with its clock at `now` and its first
    /// election timeout `election_timeout` running from `now`.
    fn starting(
        server_id: ServerId,
        other_servers: ServerSet,
        now: Instant,
        election_timeout: Duration,
    ) -> (state: Self)
        ensures
            state == (NodeState {
                server_id,
                start_time: now,
                current_time: now,
                other_servers,
                commit_index: LogIndex(0),
                last_applied: LogIndex(0),
                inner: Follower {
                    last_election_timer_started: now,
                    election_timeout,
                    leader_id: None,
                },
            }),
    {
        NodeState {
            server_id,
            start_time: now,
            current_time: now,
            other_servers,
            commit_index: LogIndex(0),
            last_applied: LogIndex(0),
            inner: Follower { last_election_timer_started: now, election_timeout, leader_id: None },
        }
    }

    /// A follower that comes up now, with its first election timeout drawn.
    pub fn new(
        server_id: ServerId,
        other_servers: ServerSet,
        config: &RaftConfig,
        rng: &mut ChaCha8Rng,
    ) -> (created: (Self, FirstElectionTimeout))
        requires
            config.valid(),
        ensures
            config.offers(created.1.0),
            created.0.server_id == server_id,
            created.0.other_servers == other_servers,
            created.0.start_time == created.0.current_time,
            created.0.commit_index == LogIndex(0),
            created.0.last_applied == LogIndex(0),
            created.0.inner.leader_id is None,
            created.0.inner.election_timeout == created.1.0,
            created.0.inner.last_election_timer_started == created.0.current_time,
    {
        let election_timeout = draw_election_timeout(config, rng);
        let node_state = Self::starting(server_id, other_servers, now(), election_timeout);
        (node_state, FirstElectionTimeout(election_timeout))
    }

    /// Restarts the election timer at the node's clock reading, with a timeout
    /// drawn anew, and returns the timeout.
    fn reset_election_timer(&mut self, config: &RaftConfig, rng: &mut ChaCha8Rng) -> (timeout:
        Duration)
        requires
            config.valid(),
        ensures
            config.offers(timeout),
            *final(self) == (NodeState {
                inner: Follower {
                    last_election_timer_started: old(self).current_time,
                    election_timeout: timeout,
                    ..old(self).inner
                },
                ..*old(self)
            }),
    {
        let election_timeout = draw_election_timeout(config, rng);
        self.inner.election_timeout = election_timeout;
        self.inner.last_election_timer_started = self.current_time;
        election_timeout
    }

    /// Opens an election of its own.
    fn into_candidate(self) -> (candidate: NodeState<Candidate>)
        ensures
            self.same_server(&candidate),
            candidate.inner.last_election_timer_started == self.current_time,
            candidate.inner.election_timeout == (Duration { nanos: 0 }),
            candidate.inner.votes_received@ == Seq::<ServerId>::empty(),
            candidate.inner.votes_received.wf(),
    {
        NodeState {
            inner: Candidate {
                last_election_timer_started: self.current_time,
                election_timeout: Duration { nanos: 0 },
                votes_received: ServerSet::new(),
            },
            server_id: self.server_id,
            start_time: self.start_time,
            current_time: self.current_time,
            other_servers: self.other_servers,
            commit_index: self.commit_index,
            last_applied: self.last_applied,
        }
    }

    /// Decides a vote request: the vote is granted where the candidate's term
    /// is not behind and this node has not voted for another server in its
    /// term. A granted vote is durable before the reply is made.
    pub fn vote_in_election<C, PS>(&mut self, storage: &mut PS, vote_req: &RequestVote) -> (voted: Result<
        Vec<Action<C>>,
        PersistentStorageError,
    >) where C: LogCommand, PS: PersistentStorage<C>
        ensures
            *final(self) == old(self).without_leader(),
            ({
                let before = old(storage).election();
                let granted = vote_req.term.0 >= before.current_term.0 && before.grants(
                    vote_req.from,
                );
                &&& final(storage).election() == if granted {
                    before.with_vote(vote_req.from)
                } else {
                    before
                }
                &&& match voted {
                    Ok(actions) => {
                        &&& actions@ == seq![
                            vote_reply::<C>(
                                *vote_req,
                                old(self).server_id,
                                before.current_term,
                                granted,
                            ),
                        ]
                        &&& if granted {
                            final(storage).durable() == final(storage).election()
                        } else {
                            final(storage).durable() == old(storage).durable()
                        }
                    },
                    Err(_) => granted,
                }
            }),
    {
        self.inner.leader_id = None;

        let candidate_has_same_or_newer_term = vote_req.term.0 >= storage.current_term().0;
        let may_vote_for_candidate = match storage.voted_for_in_current_term() {
            None => true,
            Some(server) => server.0 == vote_req.from.0,
        };
        let vote_granted = candidate_has_same_or_newer_term && may_vote_for_candidate;

        if vote_granted {
            storage.record_vote(vote_req.from);
            match storage.sync() {
                Err(error) => {
                    return Err(error);
                },
                Ok(()) => {},
            }
        }
        let vote = Action::OutgoingRpc(
            RpcMessage::vote(
                Vote {
                    request_id: vote_req.request_id,
                    from: self.server_id,
                    to: vote_req.from,
                    term: storage.current_term(),
                    vote_granted,
                },
            ),
        );
        let mut actions = Vec::new();
        actions.push(vote);
        Ok(actions)
    }

    /// One step of a follower.
    pub fn handle_event<C, PS>(
        self,
        event: Event<C>,
        storage: &mut PS,
        config: &RaftConfig,
        rng: &mut ChaCha8Rng,
    ) -> (step: Result<(Node, Vec<Action<C>>), PersistentStorageError>) where
        C: LogCommand,
        PS: PersistentStorage<C>,

        requires
            self.wf(),
            config.valid(),
            !(event is LogEntryAppliedByApplication),
            match event {
                Event::Tick(tick) => self.timer_expired(tick) ==> old(
                    storage,
                ).election().current_term.0 < u64::MAX,
                _ => true,
            },
        ensures
            match step {
                Ok((after, actions)) => {
                    &&& after.wf()
                    &&& self.handles(
                        old(storage).election(),
                        event,
                        *config,
                        after,
                        final(storage).election(),
                        actions@,
                    )
                    &&& fenced::<C, PS>(old(storage), final(storage))
                },
                Err(_) => self.persists(old(storage).election(), event),
            },
            final(storage).election() == self.leaves(old(storage).election(), event),
            !self.persists(old(storage).election(), event) ==> final(storage).durable() == old(
                storage,
            ).durable(),
            advances(old(storage).election(), final(storage).election()),
            casts_in_its_term(old(storage).election(), final(storage).election()),
    {
        let mut state = self;
        match event {
            Event::Tick(tick) => {
                if tick.has_passed(
                    state.inner.last_election_timer_started,
                    state.inner.election_timeout,
                ) {
                    let new_state = state.into_candidate();
                    new_state.campaign(config, storage, rng)
                } else {
                    Ok((Node::Follower(state), Vec::new()))
                }
            },
            Event::LogEntryAppliedByApplication(_) => Ok((Node::Follower(state), Vec::new())),
            Event::IncomingRpc(RpcMessage::Request(rpc_req)) => match rpc_req {
                Request::RequestVote(req) => {
                    if req.term.0 < storage.current_term().0 {
                        let vote = state.vote_no(&*storage, &req);
                        Ok((Node::Follower(state), vote))
                    } else {
                        match state.vote_in_election(storage, &req) {
                            Ok(vote) => Ok((Node::Follower(state), vote)),
                            Err(error) => Err(error),
                        }
                    }
                },
                Request::AppendEntries(req) => {
                    if req.term.0 < storage.current_term().0 {
                        let ack = state.ack_append_entries(&*storage, &req, false);
                        Ok((Node::Follower(state), ack))
                    } else {
                        state.inner.leader_id = Some(req.from);
                        let election_timeout = state.reset_election_timer(config, rng);
                        let mut ack_and_timer = state.ack_append_entries(&*storage, &req, true);
                        ack_and_timer.push(Action::SetNextTimeout(election_timeout));
                        assert(ack_and_timer@ =~= seq![
                            append_entries_ack(
                                req,
                                state.server_id,
                                storage.election().current_term,
                                true,
                            ),
                            Action::SetNextTimeout(election_timeout),
                        ]);
                        Ok((Node::Follower(state), ack_and_timer))
                    }
                },
            },
            Event::IncomingRpc(RpcMessage::Reply(_)) => Ok((Node::Follower(state), Vec::new())),
        }
    }
}

impl Node {
    /// The server that this node is.
    pub open spec fn spec_server_id(&self) -> ServerId {
        match self {
            Node::Leader(state) => state.server_id,
            Node::Follower(state) => state.server_id,
            Node::Candidate(state) => state.server_id,
        }
    }

    /// The node with its clock reading replaced by `now`.
    pub open spec fn at(&self, now: Instant) -> Node {
        match self {
            Node::Leader(state) => Node::Leader(NodeState { current_time: now, ..*state }),
            Node::Follower(state) => Node::Follower(NodeState { current_time: now, ..*state }),
            Node::Candidate(state) => Node::Candidate(NodeState { current_time: now, ..*state }),
        }
    }

    /// Whether a tick made at `tick` finds the node's election timer over. A
    /// leader has none.
    pub open spec fn election_due(&self, tick: Instant) -> bool {
        match self {
            Node::Leader(_) => false,
            Node::Follower(state) => state.timer_expired(tick),
            Node::Candidate(state) => state.timer_expired(tick),
        }
    }

    /// The events that a node can be stepped on. Out are the reserved event,
    /// a tick that would open an election in a term beyond the last one, and
    /// an append request that reaches a leader from another leader of its
    /// own term.
    pub open spec fn accepts<C: LogCommand>(&self, record: Election, event: Event<C>) -> bool {
        &&& !(event is LogEntryAppliedByApplication)
        &&& match event {
            Event::Tick(tick) => self.election_due(tick) ==> record.current_term.0 < u64::MAX,
            _ => true,
        }
        &&& self is Leader ==> (event matches Event::IncomingRpc(
            RpcMessage::Request(Request::AppendEntries(request)),
        ) ==> request.term != record.current_term)
    }

    /// Whether the step on `event` writes to storage, and so may fail.
    pub open spec fn persists<C: LogCommand>(&self, before: Election, event: Event<C>) -> bool {
        observes_higher_term(event, before) || match self {
            Node::Leader(_) => false,
            Node::Follower(state) => state.persists(before, event),
            Node::Candidate(state) => state.persists(event),
        }
    }

    /// The record that a step on `event` leaves where it goes well: the term
    /// that the event shows is adopted, and the node then answers in its
    /// role, as a follower where it adopted a term.
    pub open spec fn leaves<C: LogCommand>(&self, before: Election, event: Event<C>) -> Election {
        if observes_higher_term(event, before) {
            before.adopting(event).answering(event)
        } else {
            match self {
                Node::Leader(_) => before,
                Node::Follower(state) => state.leaves(before, event),
                Node::Candidate(state) => state.leaves(before, event),
            }
        }
    }

    /// Whether `record` is what a step on `event` leaves where it fails on
    /// storage: the record that the step was about to make durable, which
    /// is the one with the adopted term where adopting it failed, and else
    /// the one that the step leaves where it goes well.
    pub open spec fn leaves_undone<C: LogCommand>(
        &self,
        before: Election,
        event: Event<C>,
        record: Election,
    ) -> bool {
        record == self.leaves(before, event) || (observes_higher_term(event, before) && record
            == before.adopting(event))
    }

    /// The first half of a step. Where `event` shows a higher term, the node
    /// adopts it and stands as a follower that knows no leader, with its
    /// election timer restarted; `timer` then arms that timer. Otherwise all
    /// stays as it is.
    pub open spec fn adopts<C: LogCommand>(
        &self,
        before: Election,
        event: Event<C>,
        config: RaftConfig,
        after: Node,
        record: Election,
        timer: Seq<Action<C>>,
    ) -> bool {
        if observes_higher_term(event, before) {
            &&& record == before.with_term(carried_term(event).unwrap())
            &&& after matches Node::Follower(follower)
            &&& match self {
                Node::Leader(state) => state.same_server(&follower),
                Node::Follower(state) => state.same_server(&follower),
                Node::Candidate(state) => state.same_server(&follower),
            }
            &&& follower.inner.leader_id is None
            &&& follower.inner.last_election_timer_started == follower.current_time
            &&& config.offers(follower.inner.election_timeout)
            &&& timer == seq![Action::<C>::SetNextTimeout(follower.inner.election_timeout)]
        } else {
            after == *self && record == before && timer == Seq::<Action<C>>::empty()
        }
    }

    /// The second half of a step: the node answers `event` in its role.
    pub open spec fn handles<C: LogCommand>(
        &self,
        before: Election,
        event: Event<C>,
        config: RaftConfig,
        after: Node,
        record: Election,
        actions: Seq<Action<C>>,
    ) -> bool {
        match self {
            Node::Leader(state) => state.handles(before, event, config, after, record, actions),
            Node::Follower(state) => state.handles(before, event, config, after, record, actions),
            Node::Candidate(state) => state.handles(before, event, config, after, record, actions),
        }
    }

    /// A whole step at the clock reading `now`: the node adopts a higher term
    /// if the event shows one, then answers the event in the role it then
    /// has. The actions of the answer come first, the timer of the adoption
    /// last.
    pub open spec fn steps<C: LogCommand>(
        &self,
        now: Instant,
        before: Election,
        event: Event<C>,
        config: RaftConfig,
        after: Node,
        record: Election,
        actions: Seq<Action<C>>,
    ) -> bool {
        exists|
            between: Node,
            adopted: Election,
            timer: Seq<Action<C>>,
            answer: Seq<Action<C>>,
        |
            {
                &&& #[trigger] self.at(now).adopts(before, event, config, between, adopted, timer)
                &&& #[trigger] between.handles(adopted, event, config, after, record, answer)
                &&& actions == answer + timer
            }
    }

    /// The server that this node is.
    #[verifier::when_used_as_spec(spec_server_id)]
    pub fn server_id(&self) -> (id: ServerId)
        ensures
            id == self.spec_server_id(),
    {
        match self {
            Node::Leader(state) => state.server_id,
            Node::Follower(state) => state.server_id,
            Node::Candidate(state) => state.server_id,
        }
    }

    /// Computes [`Node::election_due`].
    pub fn is_election_due(&self, tick: Instant) -> (due: bool)
        ensures
            due == self.election_due(tick),
    {
        match self {
            Node::Leader(_) => false,
            Node::Follower(state) => tick.has_passed(
                state.inner.last_election_timer_started,
                state.inner.election_timeout,
            ),
            Node::Candidate(state) => tick.has_passed(
                state.inner.last_election_timer_started,
                state.inner.election_timeout,
            ),
        }
    }

    /// Sets the node's clock reading to `now`.
    pub fn update_clock(&mut self, now: Instant)
        ensures
            *final(self) == old(self).at(now),
    {
        match self {
            Node::Leader(state) => state.current_time = now,
            Node::Follower(state) => state.current_time = now,
            Node::Candidate(state) => state.current_time = now,
        }
    }

    /// A node that comes up now: a follower that knows no leader, with its
    /// first election timeout drawn and running.
    pub fn new(
        server_id: ServerId,
        other_servers: ServerSet,
        config: &RaftConfig,
        rng: &mut ChaCha8Rng,
    ) -> (created: (Self, FirstElectionTimeout))
        requires
            config.valid(),
            other_servers.wf(),
        ensures
            config.offers(created.1.0),
            created.0.wf(),
            created.0 matches Node::Follower(state) && state.server_id == server_id
                && state.other_servers == other_servers && state.start_time == state.current_time
                && state.commit_index == LogIndex(0) && state.last_applied == LogIndex(0)
                && state.inner.leader_id is None && state.inner.election_timeout == created.1.0
                && state.inner.last_election_timer_started == state.current_time,
    {
        let (initial_state, first_timer) = NodeState::<Follower>::new(
            server_id,
            other_servers,
            config,
            rng,
        );
        (Node::Follower(initial_state), first_timer)
    }

    /// The first half of a step, [`Node::adopts`]. The new term is durable
    /// before the node goes on.
    pub fn if_rpc_message_has_higher_term_become_follower<C, PS>(
        self,
        storage: &mut PS,
        event: &Event<C>,
        config: &RaftConfig,
        rng: &mut ChaCha8Rng,
    ) -> (adopted: Result<(Node, Vec<Action<C>>), PersistentStorageError>) where
        C: LogCommand,
        PS: PersistentStorage<C>,

        requires
            self.wf(),
            config.valid(),
        ensures
            match adopted {
                Ok((after, timer)) => {
                    &&& after.wf()
                    &&& self.adopts(
                        old(storage).election(),
                        *event,
                        *config,
                        after,
                        final(storage).election(),
                        timer@,
                    )
                    &&& fenced::<C, PS>(old(storage), final(storage))
                },
                Err(_) => observes_higher_term(*event, old(storage).election()),
            },
            final(storage).election() == old(storage).election().adopting(*event),
            !observes_higher_term(*event, old(storage).election()) ==> final(storage).durable()
                == old(storage).durable(),
            advances(old(storage).election(), final(storage).election()),
    {
        let (should_become_follower, new_term) = match event {
            Event::IncomingRpc(RpcMessage::Request(r)) => (
                r.term().0 > storage.current_term().0,
                r.term(),
            ),
            Event::IncomingRpc(RpcMessage::Reply(r)) => (
                r.term().0 > storage.current_term().0,
                r.term(),
            ),
            _ => (false, storage.current_term()),
        };

        if should_become_follower {
            storage.update_term(new_term);
            match storage.sync() {
                Err(error) => {
                    return Err(error);
                },
                Ok(()) => {},
            }
            let mut follower_state: NodeState<Follower> = match self {
                Node::Leader(state) => state.into_follower(),
                Node::Follower(state) => state,
                Node::Candidate(state) => state.into_follower(),
            };
            // A new term may bring a new leader: its first heartbeat will name it.
            follower_state.inner.leader_id = None;
            let election_timeout = follower_state.reset_election_timer(config, rng);
            let mut timer = Vec::new();
            timer.push(Action::SetNextTimeout(election_timeout));
            Ok((Node::Follower(follower_state), timer))
        } else {
            Ok((self, Vec::new()))
        }
    }

    /// One step at the clock reading `now`, [`Node::steps`]. Whatever the
    /// step wrote to the election record is durable before the step returns
    /// its actions; where storage fails, the step is given up.
    pub fn next_at<C, PS>(
        self,
        now: Instant,
        event: Event<C>,
        storage: &mut PS,
        config: &RaftConfig,
        rng: &mut ChaCha8Rng,
    ) -> (step: Result<(Node, Vec<Action<C>>), PersistentStorageError>) where
        C: LogCommand,
        PS: PersistentStorage<C>,

        requires
            self.wf(),
            config.valid(),
            self.accepts(old(storage).election(), event),
        ensures
            match step {
                Ok((after, actions)) => {
                    &&& after.wf()
                    &&& self.steps(
                        now,
                        old(storage).election(),
                        event,
                        *config,
                        after,
                        final(storage).election(),
                        actions@,
                    )
                    &&& fenced::<C, PS>(old(storage), final(storage))
                },
                Err(_) => {
                    &&& self.at(now).persists(old(storage).election(), event)
                    &&& self.leaves_undone(
                        old(storage).election(),
                        event,
                        final(storage).election(),
                    )
                },
            },
            step is Ok ==> final(storage).election() == self.leaves(old(storage).election(), event),
            !self.at(now).persists(old(storage).election(), event) ==> final(storage).durable()
                == old(storage).durable(),
            advances(old(storage).election(), final(storage).election()),
            casts_in_its_term(old(storage).election(), final(storage).election()),
    {
        let mut node = self;
        node.update_clock(now);
        let ghost refreshed = node;
        let ghost before = storage.election();

        let (new_node, mut maybe_tick_timer) =
            match node.if_rpc_message_has_higher_term_become_follower(storage, &event, config, rng) {
            Ok(adopted) => adopted,
            Err(error) => {
                return Err(error);
            },
        };
        let ghost between = new_node;
        let ghost adopted = storage.election();

        let handled = match new_node {
            Node::Leader(state) => state.handle_event(event, storage, config, rng),
            Node::Follower(state) => state.handle_event(event, storage, config, rng),
            Node::Candidate(state) => state.handle_event(event, storage, config, rng),
        };
        match handled {
            Ok((new_node, mut actions)) => {
                let ghost answer = actions@;
                let ghost timer = maybe_tick_timer@;
                actions.append(&mut maybe_tick_timer);
                proof {
                    assert(refreshed.adopts(before, event, *config, between, adopted, timer));
                    assert(between.handles(
                        adopted,
                        event,
                        *config,
                        new_node,
                        storage.election(),
                        answer,
                    ));
                    assert(actions@ == answer + timer);
                }
                Ok((new_node, actions))
            },
            Err(error) => Err(error),
        }
    }

    /// One step at the clock's present reading: [`Node::next_at`] for whatever
    /// the clock shows.
    pub fn next<C, PS>(
        self,
        event: Event<C>,
        storage: &mut PS,
        config: &RaftConfig,
        rng: &mut ChaCha8Rng,
    ) -> (step: Result<(Node, Vec<Action<C>>), PersistentStorageError>) where
        C: LogCommand,
        PS: PersistentStorage<C>,

        requires
            self.wf(),
            config.valid(),
            self.accepts(old(storage).election(), event),
        ensures
            match step {
                Ok((after, actions)) => {
                    &&& after.wf()
                    &&& exists|now: Instant| #[trigger]
                        self.steps(
                            now,
                            old(storage).election(),
                            event,
                            *config,
                            after,
                            final(storage).election(),
                            actions@,
                        )
                    &&& fenced::<C, PS>(old(storage), final(storage))
                },
                Err(_) => {
                    &&& self.persists(old(storage).election(), event)
                    &&& self.leaves_undone(
                        old(storage).election(),
                        event,
                        final(storage).election(),
                    )
                },
            },
            step is Ok ==> final(storage).election() == self.leaves(old(storage).election(), event),
            !self.persists(old(storage).election(), event) ==> final(storage).durable() == old(
                storage,
            ).durable(),
            advances(old(storage).election(), final(storage).election()),
            casts_in_its_term(old(storage).election(), final(storage).election()),
    {
        self.next_at(now(), event, storage, config, rng)
    }
}

/// None of `actions` hands commands to the application.
pub open spec fn applies_nothing<C: LogCommand>(actions: Seq<Action<C>>) -> bool {
    forall|i: int| 0 <= i < actions.len() ==> !(#[trigger] actions[i] is ApplyLogEntries)
}

/// A step sends messages and arms timers: it hands no commands to the
/// application.
pub proof fn step_applies_nothing<C: LogCommand>(
    node: Node,
    now: Instant,
    before: Election,
    event: Event<C>,
    config: RaftConfig,
    after: Node,
    record: Election,
    actions: Seq<Action<C>>,
)
    requires
        !(event is LogEntryAppliedByApplication),
        node.steps(now, before, event, config, after, record, actions),
    ensures
        applies_nothing(actions),
{
    let (between, adopted, timer, answer) = choose|
        between: Node,
        adopted: Election,
        timer: Seq<Action<C>>,
        answer: Seq<Action<C>>,
    |
        {
            &&& #[trigger] node.at(now).adopts(before, event, config, between, adopted, timer)
            &&& #[trigger] between.handles(adopted, event, config, after, record, answer)
            &&& actions == answer + timer
        };
    assert forall|i: int| 0 <= i < answer.len() implies !(#[trigger] answer[i]
        is ApplyLogEntries) by {
        if i >= 1 {
            // A vote request stands one place behind the peer it goes to.
            assert(answer[i] == answer[(i - 1) + 1]);
        }
    }
    assert forall|i: int| 0 <= i < actions.len() implies !(#[trigger] actions[i]
        is ApplyLogEntries) by {
        if i < answer.len() {
            assert(actions[i] == answer[i]);
        } else {
            assert(actions[i] == timer[i - answer.len()]);
        }
    }
}

} // verus!

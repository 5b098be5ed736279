//! Why an election is safe: a term has one leader at most, and the nodes of
//! a term that name a leader name the same one.
//!
//! The argument is made for a cluster of nodes that are stepped one at a
//! time, on ticks and on messages that were sent to them before, in any
//! order, any number of times, with any of the messages lost. A message
//! reaches only the server that it is addressed to. A node may come up anew
//! at any time, with the election record it had or, after a step that
//! failed on storage, with one that the step may have left behind. Every
//! node knows every other member of the cluster as its peer.
//!
//! The argument rests on what a step may do ([`Node::steps`]), and on
//! nothing that is drawn at random. Its core is that a server votes once in
//! a term, and that two groups of more than half of the members share a
//! member: [`Cluster::safe`] holds when a cluster starts and is kept by
//! whatever the cluster does next, and in a safe cluster no two claims to
//! lead a term, or to know the leader of a term, name different servers.

use vstd::prelude::*;
use vstd::set_lib::lemma_len_subset;
use vstd::set_lib::lemma_set_intersect_union_lens;
use crate::common::Election;
use crate::common::LogCommand;
use crate::common::RaftConfig;
use crate::common::ServerId;
use crate::common::TermIndex;
use crate::raft_thread::snapshot;
use crate::raft_thread::RaftNodeState;
use crate::raft_thread::RaftStateEvent;
use crate::rpc_messages::AppendEntries;
use crate::rpc_messages::ReplyTo;
use crate::rpc_messages::Request;
use crate::rpc_messages::RpcMessage;
use crate::rpc_messages::Vote;
use crate::simulator::invariant_checker::at_most_one_leader_per_term;
use crate::simulator::invariant_checker::at_most_one_named_leader_per_term;
use crate::simulator::invariant_checker::both_lead;
use crate::simulator::invariant_checker::name_different_leaders;
use crate::state_machine::advances;
use crate::state_machine::casts_in_its_term;
use crate::state_machine::counted;
use crate::state_machine::quorum;
use crate::state_machine::wins_alone;
use crate::state_machine::Action;
use crate::state_machine::Event;
use crate::state_machine::Node;
use crate::system_clock::Instant;

verus! {

/// The peers of a node, in their order.
pub open spec fn peers_of(node: Node) -> Seq<ServerId> {
    match node {
        Node::Leader(state) => state.other_servers@,
        Node::Follower(state) => state.other_servers@,
        Node::Candidate(state) => state.other_servers@,
    }
}

/// Whether `actions` send `message`.
pub open spec fn sends<C: LogCommand>(actions: Seq<Action<C>>, message: RpcMessage<C>) -> bool {
    exists|i: int| 0 <= i < actions.len() && #[trigger] actions[i] == Action::OutgoingRpc(message)
}

/// The vote that `event` brings, where it brings one that counts in `term`.
pub open spec fn brings_vote<C: LogCommand>(event: Event<C>, term: TermIndex) -> Option<Vote> {
    match event {
        Event::IncomingRpc(RpcMessage::Reply(ReplyTo::RequestVote(vote))) => if vote.term == term
            && vote.vote_granted {
            Some(vote)
        } else {
            None
        },
        _ => None,
    }
}

/// Whether `node` is a candidate to whom `event` brings the vote that gives
/// it a quorum in the term of `record`.
pub open spec fn won_with<C: LogCommand>(node: Node, event: Event<C>, record: Election) -> bool {
    &&& node matches Node::Candidate(candidate)
    &&& brings_vote(event, record.current_term) matches Some(vote)
    &&& counted(candidate.inner.votes_received@, vote.from).len() >= quorum(
        candidate.other_servers@.len(),
    )
}

/// The votes that a candidate has once `event` is counted in.
pub open spec fn votes_with<C: LogCommand>(node: Node, event: Event<C>, record: Election) -> Seq<
    ServerId,
> {
    let votes = node->Candidate_0.inner.votes_received@;
    match brings_vote(event, record.current_term) {
        Some(vote) => counted(votes, vote.from),
        None => votes,
    }
}

/// A step leaves the node the server it was, with the peers it had.
pub proof fn step_keeps_identity<C: LogCommand>(
    node: Node,
    now: Instant,
    before: Election,
    event: Event<C>,
    config: RaftConfig,
    after: Node,
    record: Election,
    actions: Seq<Action<C>>,
)
    requires
        !(event is LogEntryAppliedByApplication),
        node.steps(now, before, event, config, after, record, actions),
    ensures
        after.spec_server_id() == node.spec_server_id(),
        peers_of(after) == peers_of(node),
{
}

/// A vote that a step writes is written for the term the step ends in.
pub proof fn step_casts_in_its_term<C: LogCommand>(
    node: Node,
    now: Instant,
    before: Election,
    event: Event<C>,
    config: RaftConfig,
    after: Node,
    record: Election,
    actions: Seq<Action<C>>,
)
    requires
        node.accepts(before, event),
        node.steps(now, before, event, config, after, record, actions),
    ensures
        record.voted_for != before.voted_for ==> (record.voted_for matches Some((term, _)) && term
            == record.current_term),
{
}

/// A vote is granted only by the node that has it on record: the reply
/// comes from the node itself, in the term of its record, to the server that
/// the record names.
pub proof fn granted_vote_is_on_record<C: LogCommand>(
    node: Node,
    now: Instant,
    before: Election,
    event: Event<C>,
    config: RaftConfig,
    after: Node,
    record: Election,
    actions: Seq<Action<C>>,
    vote: Vote,
)
    requires
        !(event is LogEntryAppliedByApplication),
        node.steps(now, before, event, config, after, record, actions),
        sends(actions, RpcMessage::Reply(ReplyTo::RequestVote(vote))),
        vote.vote_granted,
    ensures
        vote.from == node.spec_server_id(),
        vote.term == record.current_term,
        record.voted_for == Some((vote.term, vote.to)),
{
    let (between, adopted, timer, answer) = choose|
        between: Node,
        adopted: Election,
        timer: Seq<Action<C>>,
        answer: Seq<Action<C>>,
    |
        {
            &&& #[trigger] node.at(now).adopts(before, event, config, between, adopted, timer)
            &&& #[trigger] between.handles(adopted, event, config, after, record, answer)
            &&& actions == answer + timer
        };
    let message = RpcMessage::<C>::Reply(ReplyTo::RequestVote(vote));
    let i = choose|i: int| 0 <= i < actions.len() && #[trigger] actions[i] == Action::OutgoingRpc(message);
    if i < answer.len() {
        assert(actions[i] == answer[i]);
        if i >= 1 {
            assert(answer[i] == answer[(i - 1) + 1]);
        }
    } else {
        assert(actions[i] == timer[i - answer.len()]);
    }
}

/// Only a leader sends append requests: they come from the node itself, in
/// the term of its record.
pub proof fn append_request_comes_from_a_leader<C: LogCommand>(
    node: Node,
    now: Instant,
    before: Election,
    event: Event<C>,
    config: RaftConfig,
    after: Node,
    record: Election,
    actions: Seq<Action<C>>,
    request: AppendEntries<C>,
)
    requires
        !(event is LogEntryAppliedByApplication),
        node.steps(now, before, event, config, after, record, actions),
        sends(actions, RpcMessage::Request(Request::AppendEntries(request))),
    ensures
        after is Leader,
        request.from == node.spec_server_id(),
        request.term == record.current_term,
{
    let (between, adopted, timer, answer) = choose|
        between: Node,
        adopted: Election,
        timer: Seq<Action<C>>,
        answer: Seq<Action<C>>,
    |
        {
            &&& #[trigger] node.at(now).adopts(before, event, config, between, adopted, timer)
            &&& #[trigger] between.handles(adopted, event, config, after, record, answer)
            &&& actions == answer + timer
        };
    let message = RpcMessage::Request(Request::AppendEntries(request));
    let i = choose|i: int| 0 <= i < actions.len() && #[trigger] actions[i] == Action::OutgoingRpc(message);
    if i < answer.len() {
        assert(actions[i] == answer[i]);
        if i >= 1 {
            assert(answer[i] == answer[(i - 1) + 1]);
        }
    } else {
        assert(actions[i] == timer[i - answer.len()]);
    }
}

/// A leader sends append requests to its peers only.
pub proof fn append_request_goes_to_a_peer<C: LogCommand>(
    node: Node,
    now: Instant,
    before: Election,
    event: Event<C>,
    config: RaftConfig,
    after: Node,
    record: Election,
    actions: Seq<Action<C>>,
    request: AppendEntries<C>,
)
    requires
        !(event is LogEntryAppliedByApplication),
        node.steps(now, before, event, config, after, record, actions),
        sends(actions, RpcMessage::Request(Request::AppendEntries(request))),
    ensures
        peers_of(node).contains(request.to),
{
    let (between, adopted, timer, answer) = choose|
        between: Node,
        adopted: Election,
        timer: Seq<Action<C>>,
        answer: Seq<Action<C>>,
    |
        {
            &&& #[trigger] node.at(now).adopts(before, event, config, between, adopted, timer)
            &&& #[trigger] between.handles(adopted, event, config, after, record, answer)
            &&& actions == answer + timer
        };
    let message = RpcMessage::Request(Request::AppendEntries(request));
    let i = choose|i: int| 0 <= i < actions.len() && #[trigger] actions[i] == Action::OutgoingRpc(message);
    if i < answer.len() {
        assert(actions[i] == answer[i]);
        if i >= 1 {
            assert(answer[i] == answer[(i - 1) + 1]);
        }
        if i < peers_of(node).len() {
            assert(peers_of(node)[i] == request.to);
        }
    } else {
        assert(actions[i] == timer[i - answer.len()]);
    }
}

/// Whether `node` opens, on `event`, an election that its own vote wins: its
/// election is due and it has no peers.
pub open spec fn wins_alone_on<C: LogCommand>(node: Node, event: Event<C>) -> bool {
    &&& event matches Event::Tick(tick)
    &&& node.election_due(tick)
    &&& wins_alone(peers_of(node).len())
}

/// A node leads after a step only where it led before, where it was a
/// candidate and the step brought the vote that gave it a quorum, or where
/// it opened an election that its own vote wins. In the first two cases its
/// record is the same; in the last it is the record of the election.
pub proof fn leader_was_leader_or_won<C: LogCommand>(
    node: Node,
    now: Instant,
    before: Election,
    event: Event<C>,
    config: RaftConfig,
    after: Node,
    record: Election,
    actions: Seq<Action<C>>,
)
    requires
        node.accepts(before, event),
        node.steps(now, before, event, config, after, record, actions),
        after is Leader,
    ensures
        ({
            ||| (node is Leader && record == before)
            ||| (won_with(node, event, before) && record == before)
            ||| (wins_alone_on(node, event) && record == before.campaigning(node.spec_server_id()))
        }),
{
}

/// A node is a candidate after a step only where it opened an election in
/// the step, with its own vote as the only one it holds, or where it was a
/// candidate before:
/// then its record is the same and its votes are those it had, with the
/// vote that the step brought counted in.
pub proof fn candidate_opened_or_went_on<C: LogCommand>(
    node: Node,
    now: Instant,
    before: Election,
    event: Event<C>,
    config: RaftConfig,
    after: Node,
    record: Election,
    actions: Seq<Action<C>>,
)
    requires
        node.accepts(before, event),
        node.steps(now, before, event, config, after, record, actions),
        after is Candidate,
    ensures
        ({
            let votes = after->Candidate_0.inner.votes_received@;
            ||| (record == before.campaigning(node.spec_server_id()) && votes == seq![
                node.spec_server_id(),
            ])
            ||| (node is Candidate && record == before && votes == votes_with(node, event, before))
        }),
{
}

/// A follower names a leader after a step only where the step brought an
/// append request from that server in the term the step ends in, or where
/// the follower named that leader before and its term is the same.
pub proof fn named_leader_sent_or_was_named<C: LogCommand>(
    node: Node,
    now: Instant,
    before: Election,
    event: Event<C>,
    config: RaftConfig,
    after: Node,
    record: Election,
    actions: Seq<Action<C>>,
    leader: ServerId,
)
    requires
        node.accepts(before, event),
        node.steps(now, before, event, config, after, record, actions),
        after matches Node::Follower(follower) && follower.inner.leader_id == Some(leader),
    ensures
        ({
            ||| (event matches Event::IncomingRpc(
                RpcMessage::Request(Request::AppendEntries(request)),
            ) && request.from == leader && request.term == record.current_term)
            ||| (node matches Node::Follower(follower) && follower.inner.leader_id == Some(leader)
                && record.current_term == before.current_term)
        }),
{
}

/// A cluster as the argument sees it: the nodes with their election
/// records, the messages that are under way, and every vote that was ever
/// put on record.
#[verifier::reject_recursive_types(C)]
pub struct Cluster<C: LogCommand> {
    /// The servers of the cluster. They do not change.
    pub members: Set<ServerId>,
    pub config: RaftConfig,
    /// The node of each server.
    pub nodes: Map<ServerId, Node>,
    /// The election record of each server, as its storage holds it.
    pub records: Map<ServerId, Election>,
    /// For a server and a term, the server that it voted for in that term.
    pub ballots: Map<(ServerId, TermIndex), ServerId>,
    /// The messages that were sent and may still arrive.
    pub network: Set<RpcMessage<C>>,
}

/// The ballots once the vote of `record` is noted for `server`.
pub open spec fn noted(
    ballots: Map<(ServerId, TermIndex), ServerId>,
    server: ServerId,
    record: Election,
) -> Map<(ServerId, TermIndex), ServerId> {
    match record.voted_for {
        Some((term, candidate)) => ballots.insert((server, term), candidate),
        None => ballots,
    }
}

/// Whether more than half of the members voted for `server` in `term`.
pub open spec fn elected(
    members: Set<ServerId>,
    ballots: Map<(ServerId, TermIndex), ServerId>,
    server: ServerId,
    term: TermIndex,
) -> bool {
    exists|voters: Set<ServerId>| #[trigger]
        voters.subset_of(members) && 2 * voters.len() > members.len() && forall|voter: ServerId|
            voters.contains(voter) ==> ballots.contains_key((voter, term)) && ballots[(
                voter,
                term,
            )] == server
}

/// Whether what a snapshot claims is backed by ballots: a node that leads a
/// term was elected in it, and so was the leader that a node names.
pub open spec fn backed(
    members: Set<ServerId>,
    ballots: Map<(ServerId, TermIndex), ServerId>,
    claim: RaftStateEvent,
) -> bool {
    &&& claim.current_state == RaftNodeState::Leader ==> elected(
        members,
        ballots,
        claim.server_id,
        claim.current_term,
    )
    &&& claim.leader_for_term matches Some(leader) ==> elected(
        members,
        ballots,
        leader,
        claim.current_term,
    )
}

impl<C: LogCommand> Cluster<C> {
    /// Every member has a node and a record. A node knows which server it
    /// is, and its peers are the other members, each once.
    pub open spec fn well_formed(&self) -> bool {
        &&& self.members.finite()
        &&& self.nodes.dom() == self.members
        &&& self.records.dom() == self.members
        &&& forall|server: ServerId| #[trigger]
            self.members.contains(server) ==> {
                &&& self.nodes[server].spec_server_id() == server
                &&& self.nodes[server].wf()
                &&& peers_of(self.nodes[server]).to_set() == self.members.remove(server)
                &&& self.records[server].wf()
            }
    }

    /// Every ballot is that of a member, for a term that the member has
    /// reached; the ballot of a member's present term is the vote on its
    /// record; and the vote on a record is noted as a ballot.
    pub open spec fn ballots_match_records(&self) -> bool {
        &&& forall|voter: ServerId, term: TermIndex| #[trigger]
            self.ballots.contains_key((voter, term)) ==> {
                &&& self.members.contains(voter)
                &&& term.0 <= self.records[voter].current_term.0
                &&& term == self.records[voter].current_term
                    ==> self.records[voter].vote_in_current_term() == Some(
                    self.ballots[(voter, term)],
                )
            }
        &&& forall|voter: ServerId| #[trigger]
            self.members.contains(voter) ==> (self.records[voter].voted_for matches Some(
                (term, candidate),
            ) ==> self.ballots.contains_key((voter, term)) && self.ballots[(voter, term)]
                == candidate)
    }

    /// Every granted vote that is under way is backed by the ballot of its
    /// sender.
    pub open spec fn votes_are_backed(&self) -> bool {
        forall|vote: Vote| #[trigger]
            self.network.contains(RpcMessage::Reply(ReplyTo::RequestVote(vote)))
                && vote.vote_granted ==> self.ballots.contains_key((vote.from, vote.term))
                && self.ballots[(vote.from, vote.term)] == vote.to
    }

    /// Every vote that a candidate holds is backed by a ballot for it in
    /// its term.
    pub open spec fn candidates_hold_ballots(&self) -> bool {
        forall|server: ServerId, voter: ServerId|
            self.members.contains(server) && self.nodes[server] is Candidate && (
            #[trigger] self.nodes[server]->Candidate_0.inner.votes_received@.contains(voter))
                ==> self.ballots.contains_key((voter, self.records[server].current_term))
                && self.ballots[(voter, self.records[server].current_term)] == server
    }

    /// What every node claims of itself is backed by ballots.
    pub open spec fn claims_are_backed(&self) -> bool {
        forall|server: ServerId| #[trigger]
            self.members.contains(server) ==> backed(
                self.members,
                self.ballots,
                snapshot(self.nodes[server], self.records[server]),
            )
    }

    /// Every append request that is under way comes from a server that was
    /// elected in the term of the request.
    pub open spec fn append_requests_come_from_leaders(&self) -> bool {
        forall|request: AppendEntries<C>| #[trigger]
            self.network.contains(RpcMessage::Request(Request::AppendEntries(request)))
                ==> elected(self.members, self.ballots, request.from, request.term)
    }

    /// No append request that is under way goes to its own sender.
    pub open spec fn append_requests_go_to_others(&self) -> bool {
        forall|request: AppendEntries<C>| #[trigger]
            self.network.contains(RpcMessage::Request(Request::AppendEntries(request)))
                ==> request.from != request.to
    }

    /// What holds of a cluster at all times.
    pub open spec fn safe(&self) -> bool {
        &&& self.well_formed()
        &&& self.ballots_match_records()
        &&& self.votes_are_backed()
        &&& self.candidates_hold_ballots()
        &&& self.claims_are_backed()
        &&& self.append_requests_come_from_leaders()
        &&& self.append_requests_go_to_others()
    }

    /// A cluster that comes up for the first time: every node is a follower
    /// that names no leader, every record is the first one, no ballot was
    /// cast and no message sent.
    pub open spec fn starts(&self) -> bool {
        &&& self.members.finite()
        &&& self.nodes.dom() == self.members
        &&& self.records.dom() == self.members
        &&& forall|server: ServerId| #[trigger]
            self.members.contains(server) ==> {
                &&& self.nodes[server] matches Node::Follower(follower)
                &&& follower.server_id == server
                &&& follower.inner.leader_id is None
                &&& follower.other_servers.wf()
                &&& follower.other_servers@.to_set() == self.members.remove(server)
                &&& self.records[server] == (Election {
                    current_term: TermIndex(0),
                    voted_for: None,
                })
            }
        &&& self.ballots == Map::<(ServerId, TermIndex), ServerId>::empty()
        &&& self.network == Set::<RpcMessage<C>>::empty()
    }

    /// The cluster after `server` was stepped at `now` on `event`, a tick or
    /// a message that was sent to it, with `actions` as the result. Other
    /// nodes stay as they are; the vote on the new record is noted; and the
    /// network holds no message that was not under way before or is not sent
    /// by the step.
    pub open spec fn steps_to(
        &self,
        next: Cluster<C>,
        server: ServerId,
        now: Instant,
        event: Event<C>,
        actions: Seq<Action<C>>,
    ) -> bool {
        &&& self.members.contains(server)
        &&& event matches Event::IncomingRpc(message) ==> self.network.contains(message)
            && message.spec_to() == server
        &&& self.nodes[server].accepts(self.records[server], event)
        &&& self.nodes[server].steps(
            now,
            self.records[server],
            event,
            self.config,
            next.nodes[server],
            next.records[server],
            actions,
        )
        &&& next.members == self.members
        &&& next.config == self.config
        &&& next.nodes == self.nodes.insert(server, next.nodes[server])
        &&& next.records == self.records.insert(server, next.records[server])
        &&& next.ballots == noted(self.ballots, server, next.records[server])
        &&& forall|message: RpcMessage<C>| #[trigger]
            next.network.contains(message) ==> self.network.contains(message) || sends(
                actions,
                message,
            )
    }

    /// The cluster after `server` came up anew: it is a follower that names
    /// no leader, with the peers it had. Its record is the one it had, or,
    /// where the node went down in a step that failed, one that the step may
    /// have left behind: a step moves the record forward only, and writes a
    /// vote for the term of the record only. The vote on the record is
    /// noted. A step that failed has sent nothing.
    pub open spec fn restarts_to(&self, next: Cluster<C>, server: ServerId) -> bool {
        &&& self.members.contains(server)
        &&& next.nodes[server] matches Node::Follower(follower)
        &&& follower.server_id == server
        &&& follower.inner.leader_id is None
        &&& follower.other_servers.wf()
        &&& follower.other_servers@ == peers_of(self.nodes[server])
        &&& next.members == self.members
        &&& next.config == self.config
        &&& next.nodes == self.nodes.insert(server, next.nodes[server])
        &&& next.records == self.records.insert(server, next.records[server])
        &&& advances(self.records[server], next.records[server])
        &&& casts_in_its_term(self.records[server], next.records[server])
        &&& next.ballots == noted(self.ballots, server, next.records[server])
        &&& forall|message: RpcMessage<C>| #[trigger]
            next.network.contains(message) ==> self.network.contains(message)
    }

    /// Whether `next` is what the cluster can be a moment later.
    pub open spec fn moves_to(&self, next: Cluster<C>) -> bool {
        ||| exists|server: ServerId, now: Instant, event: Event<C>, actions: Seq<Action<C>>| #[trigger]
            self.steps_to(next, server, now, event, actions)
        ||| exists|server: ServerId| #[trigger] self.restarts_to(next, server)
    }
}

/// Two groups that each hold more than half of the members share a member.
pub proof fn majorities_meet(members: Set<ServerId>, first: Set<ServerId>, second: Set<ServerId>)
    requires
        members.finite(),
        first.subset_of(members),
        second.subset_of(members),
        2 * first.len() > members.len(),
        2 * second.len() > members.len(),
    ensures
        exists|server: ServerId| first.contains(server) && second.contains(server),
{
    lemma_len_subset(first, members);
    lemma_len_subset(second, members);
    lemma_len_subset(first.union(second), members);
    lemma_set_intersect_union_lens(first, second);
    let both = first.intersect(second);
    lemma_len_subset(both, members);
    assert(both.len() > 0);
    assert(both.contains(both.choose()));
}

/// A term elects one server at most.
pub proof fn one_server_is_elected(
    members: Set<ServerId>,
    ballots: Map<(ServerId, TermIndex), ServerId>,
    first: ServerId,
    second: ServerId,
    term: TermIndex,
)
    requires
        members.finite(),
        elected(members, ballots, first, term),
        elected(members, ballots, second, term),
    ensures
        first == second,
{
    let for_first = choose|voters: Set<ServerId>| #[trigger]
        voters.subset_of(members) && 2 * voters.len() > members.len() && forall|voter: ServerId|
            voters.contains(voter) ==> ballots.contains_key((voter, term)) && ballots[(
                voter,
                term,
            )] == first;
    let for_second = choose|voters: Set<ServerId>| #[trigger]
        voters.subset_of(members) && 2 * voters.len() > members.len() && forall|voter: ServerId|
            voters.contains(voter) ==> ballots.contains_key((voter, term)) && ballots[(
                voter,
                term,
            )] == second;
    majorities_meet(members, for_first, for_second);
    let voter = choose|server: ServerId| for_first.contains(server) && for_second.contains(server);
    assert(ballots[(voter, term)] == first);
    assert(ballots[(voter, term)] == second);
}

/// An election stays won: ballots that are kept keep every server elected
/// that was elected.
pub proof fn elected_stays_elected(
    members: Set<ServerId>,
    before: Map<(ServerId, TermIndex), ServerId>,
    after: Map<(ServerId, TermIndex), ServerId>,
    server: ServerId,
    term: TermIndex,
)
    requires
        elected(members, before, server, term),
        forall|voter: ServerId, of: TermIndex| #[trigger]
            before.contains_key((voter, of)) ==> after.contains_key((voter, of)) && after[(
                voter,
                of,
            )] == before[(voter, of)],
    ensures
        elected(members, after, server, term),
{
    let voters = choose|voters: Set<ServerId>| #[trigger]
        voters.subset_of(members) && 2 * voters.len() > members.len() && forall|voter: ServerId|
            voters.contains(voter) ==> before.contains_key((voter, term)) && before[(
                voter,
                term,
            )] == server;
    assert(voters.subset_of(members) && 2 * voters.len() > members.len() && forall|voter: ServerId|
        voters.contains(voter) ==> after.contains_key((voter, term)) && after[(voter, term)]
            == server);
}

/// Election safety and leader agreement, for snapshots taken at any times:
/// of two claims that are backed by the same ballots, it is not so that
/// both nodes lead one term, nor that they name different leaders for one
/// term.
pub proof fn backed_claims_agree(
    members: Set<ServerId>,
    ballots: Map<(ServerId, TermIndex), ServerId>,
    first: RaftStateEvent,
    second: RaftStateEvent,
)
    requires
        members.finite(),
        backed(members, ballots, first),
        backed(members, ballots, second),
    ensures
        !both_lead(first, second),
        !name_different_leaders(first, second),
{
    if both_lead(first, second) {
        one_server_is_elected(
            members,
            ballots,
            first.server_id,
            second.server_id,
            first.current_term,
        );
    }
    if name_different_leaders(first, second) {
        one_server_is_elected(
            members,
            ballots,
            first.leader_for_term.unwrap(),
            second.leader_for_term.unwrap(),
            first.current_term,
        );
    }
}

/// A step leaves a node well formed: a vote that is counted in was not
/// held before.
pub proof fn step_keeps_node_well_formed<C: LogCommand>(
    node: Node,
    now: Instant,
    before: Election,
    event: Event<C>,
    config: RaftConfig,
    after: Node,
    record: Election,
    actions: Seq<Action<C>>,
)
    requires
        node.wf(),
        node.accepts(before, event),
        node.steps(now, before, event, config, after, record, actions),
    ensures
        after.wf(),
{
    step_keeps_identity(node, now, before, event, config, after, record, actions);
    if after is Candidate {
        candidate_opened_or_went_on(node, now, before, event, config, after, record, actions);
    }
}

/// A cluster that comes up for the first time is safe.
pub proof fn start_is_safe<C: LogCommand>(cluster: Cluster<C>)
    requires
        cluster.starts(),
    ensures
        cluster.safe(),
{
}

/// Noting the vote of a record that moved forward changes no ballot.
pub proof fn noting_keeps_ballots<C: LogCommand>(
    cluster: Cluster<C>,
    server: ServerId,
    record: Election,
)
    requires
        cluster.safe(),
        cluster.members.contains(server),
        advances(cluster.records[server], record),
        casts_in_its_term(cluster.records[server], record),
    ensures
        forall|voter: ServerId, term: TermIndex| #[trigger]
            cluster.ballots.contains_key((voter, term)) ==> noted(
                cluster.ballots,
                server,
                record,
            ).contains_key((voter, term)) && noted(cluster.ballots, server, record)[(voter, term)]
                == cluster.ballots[(voter, term)],
{
    assert forall|voter: ServerId, term: TermIndex| #[trigger]
        cluster.ballots.contains_key((voter, term)) implies noted(
        cluster.ballots,
        server,
        record,
    ).contains_key((voter, term)) && noted(cluster.ballots, server, record)[(voter, term)]
        == cluster.ballots[(voter, term)] by {
        assert(cluster.members.contains(voter));
    }
}

/// No ballot is ever changed: what a server voted in a term stays what it
/// voted in that term, whatever the server does later.
pub proof fn ballots_are_kept<C: LogCommand>(
    cluster: Cluster<C>,
    next: Cluster<C>,
    server: ServerId,
    now: Instant,
    event: Event<C>,
    actions: Seq<Action<C>>,
)
    requires
        cluster.safe(),
        cluster.steps_to(next, server, now, event, actions),
    ensures
        forall|voter: ServerId, term: TermIndex| #[trigger]
            cluster.ballots.contains_key((voter, term)) ==> next.ballots.contains_key((voter, term))
                && next.ballots[(voter, term)] == cluster.ballots[(voter, term)],
{
    let before = cluster.records[server];
    let record = next.records[server];
    step_casts_in_its_term(
        cluster.nodes[server],
        now,
        before,
        event,
        cluster.config,
        next.nodes[server],
        record,
        actions,
    );
    crate::laws::step_advances_record(
        cluster.nodes[server],
        now,
        before,
        event,
        cluster.config,
        next.nodes[server],
        record,
        actions,
    );
    assert forall|voter: ServerId, term: TermIndex| #[trigger]
        cluster.ballots.contains_key((voter, term)) implies next.ballots.contains_key((voter, term))
        && next.ballots[(voter, term)] == cluster.ballots[(voter, term)] by {
        assert(cluster.members.contains(voter));
        if let Some((cast_in, candidate)) = record.voted_for {
            if voter == server && term == cast_in {
                assert(cluster.members.contains(server));
            }
        }
    }
}

/// A step of one node leaves a safe cluster safe.
pub proof fn step_keeps_safe<C: LogCommand>(
    cluster: Cluster<C>,
    next: Cluster<C>,
    server: ServerId,
    now: Instant,
    event: Event<C>,
    actions: Seq<Action<C>>,
)
    requires
        cluster.safe(),
        cluster.steps_to(next, server, now, event, actions),
    ensures
        next.safe(),
{
    let node = cluster.nodes[server];
    let before = cluster.records[server];
    let after = next.nodes[server];
    let record = next.records[server];
    let config = cluster.config;
    assert(cluster.members.contains(server));
    step_keeps_identity(node, now, before, event, config, after, record, actions);
    step_keeps_node_well_formed(node, now, before, event, config, after, record, actions);
    step_casts_in_its_term(node, now, before, event, config, after, record, actions);
    crate::laws::step_advances_record(node, now, before, event, config, after, record, actions);
    ballots_are_kept(cluster, next, server, now, event, actions);

    assert(next.well_formed()) by {
        assert(next.nodes.dom() =~= next.members);
        assert(next.records.dom() =~= next.members);
        assert forall|other: ServerId| #[trigger] next.members.contains(other) implies {
            &&& next.nodes[other].spec_server_id() == other
            &&& next.nodes[other].wf()
            &&& peers_of(next.nodes[other]).to_set() == next.members.remove(other)
            &&& next.records[other].wf()
        } by {
            assert(cluster.members.contains(other));
        }
    }
    assert(next.ballots_match_records()) by {
        assert forall|voter: ServerId, term: TermIndex| #[trigger]
            next.ballots.contains_key((voter, term)) implies {
            &&& next.members.contains(voter)
            &&& term.0 <= next.records[voter].current_term.0
            &&& term == next.records[voter].current_term
                ==> next.records[voter].vote_in_current_term() == Some(next.ballots[(voter, term)])
        } by {
            if cluster.ballots.contains_key((voter, term)) {
                assert(cluster.members.contains(voter));
            }
        }
        assert forall|voter: ServerId| #[trigger] next.members.contains(voter) implies (
        next.records[voter].voted_for matches Some((term, candidate))
            ==> next.ballots.contains_key((voter, term)) && next.ballots[(voter, term)]
            == candidate) by {
            assert(cluster.members.contains(voter));
        }
    }
    assert(next.votes_are_backed()) by {
        assert forall|vote: Vote| #[trigger]
            next.network.contains(RpcMessage::Reply(ReplyTo::RequestVote(vote)))
                && vote.vote_granted implies next.ballots.contains_key((vote.from, vote.term))
            && next.ballots[(vote.from, vote.term)] == vote.to by {
            let message = RpcMessage::<C>::Reply(ReplyTo::RequestVote(vote));
            if cluster.network.contains(message) {
                assert(cluster.ballots.contains_key((vote.from, vote.term)));
            } else {
                assert(sends(actions, message));
                granted_vote_is_on_record(
                    node,
                    now,
                    before,
                    event,
                    config,
                    after,
                    record,
                    actions,
                    vote,
                );
            }
        }
    }
    assert(next.candidates_hold_ballots()) by {
        assert forall|other: ServerId, voter: ServerId|
            next.members.contains(other) && next.nodes[other] is Candidate && (
            #[trigger] next.nodes[other]->Candidate_0.inner.votes_received@.contains(voter))
                implies next.ballots.contains_key((voter, next.records[other].current_term))
            && next.ballots[(voter, next.records[other].current_term)] == other by {
            assert(cluster.members.contains(other));
            if other != server {
                assert(cluster.nodes[other]->Candidate_0.inner.votes_received@.contains(voter));
            } else {
                candidate_opened_or_went_on(
                    node,
                    now,
                    before,
                    event,
                    config,
                    after,
                    record,
                    actions,
                );
                let votes = after->Candidate_0.inner.votes_received@;
                if node is Candidate && record == before && votes == votes_with(
                    node,
                    event,
                    before,
                ) {
                    vote_counts_for_its_candidate(cluster, server, event, voter);
                } else {
                    let at = choose|i: int| 0 <= i < votes.len() && votes[i] == voter;
                    assert(votes[at] == server);
                }
            }
        }
    }
    assert(next.append_requests_come_from_leaders() && next.claims_are_backed()) by {
        step_keeps_claims_backed(cluster, next, server, now, event, actions);
    }
    assert(next.append_requests_go_to_others()) by {
        assert forall|request: AppendEntries<C>| #[trigger]
            next.network.contains(
                RpcMessage::Request(Request::AppendEntries(request)),
            ) implies request.from != request.to by {
            let message = RpcMessage::Request(Request::AppendEntries(request));
            if !cluster.network.contains(message) {
                assert(sends(actions, message));
                append_request_comes_from_a_leader(
                    node,
                    now,
                    before,
                    event,
                    config,
                    after,
                    record,
                    actions,
                    request,
                );
                append_request_goes_to_a_peer(
                    node,
                    now,
                    before,
                    event,
                    config,
                    after,
                    record,
                    actions,
                    request,
                );
                assert(peers_of(node).to_set().contains(request.to));
            }
        }
    }
}

/// A vote that a candidate counts in was cast for it: the vote was sent to
/// the candidate in the term of its record, so the ballot of the sender
/// names the candidate.
pub proof fn vote_counts_for_its_candidate<C: LogCommand>(
    cluster: Cluster<C>,
    server: ServerId,
    event: Event<C>,
    voter: ServerId,
)
    requires
        cluster.safe(),
        cluster.members.contains(server),
        cluster.nodes[server] is Candidate,
        event matches Event::IncomingRpc(message) ==> cluster.network.contains(message)
            && message.spec_to() == server,
        votes_with(cluster.nodes[server], event, cluster.records[server]).contains(voter),
    ensures
        cluster.ballots.contains_key((voter, cluster.records[server].current_term)),
        cluster.ballots[(voter, cluster.records[server].current_term)] == server,
{
    let votes = cluster.nodes[server]->Candidate_0.inner.votes_received@;
    if votes.contains(voter) {
    } else {
        let vote = brings_vote(event, cluster.records[server].current_term).unwrap();
        let with = counted(votes, vote.from);
        let at = choose|i: int| 0 <= i < with.len() && with[i] == voter;
        if at < votes.len() {
            assert(votes[at] == voter);
        }
        assert(vote.from == voter);
        assert(cluster.network.contains(RpcMessage::Reply(ReplyTo::RequestVote(vote))));
    }
}

/// A step leaves every claim backed, and every append request under way
/// sent by an elected server.
pub proof fn step_keeps_claims_backed<C: LogCommand>(
    cluster: Cluster<C>,
    next: Cluster<C>,
    server: ServerId,
    now: Instant,
    event: Event<C>,
    actions: Seq<Action<C>>,
)
    requires
        cluster.safe(),
        cluster.steps_to(next, server, now, event, actions),
    ensures
        next.claims_are_backed(),
        next.append_requests_come_from_leaders(),
{
    let node = cluster.nodes[server];
    let before = cluster.records[server];
    let after = next.nodes[server];
    let record = next.records[server];
    let config = cluster.config;
    assert(cluster.members.contains(server));
    step_keeps_identity(node, now, before, event, config, after, record, actions);
    ballots_are_kept(cluster, next, server, now, event, actions);

    // The node that was stepped: where it leads, it was elected.
    if after is Leader {
        leader_was_leader_or_won(node, now, before, event, config, after, record, actions);
        if node is Leader {
            assert(backed(cluster.members, cluster.ballots, snapshot(node, before)));
            elected_stays_elected(
                cluster.members,
                cluster.ballots,
                next.ballots,
                server,
                record.current_term,
            );
        } else if won_with(node, event, before) && record == before {
            winner_is_elected(cluster, server, event);
            elected_stays_elected(
                cluster.members,
                cluster.ballots,
                next.ballots,
                server,
                record.current_term,
            );
        } else {
            // The only member has voted for itself.
            let peers = peers_of(node);
            assert(peers.len() == 0);
            assert(cluster.members =~= set![server]) by {
                assert(peers.to_set() =~= Set::<ServerId>::empty());
                assert forall|other: ServerId| cluster.members.contains(other) implies other
                    == server by {
                    if other != server {
                        assert(cluster.members.remove(server).contains(other));
                    }
                }
            }
            let voters = set![server];
            assert(voters.len() == 1 && cluster.members.len() == 1);
            assert(next.ballots.contains_key((server, record.current_term)));
            assert(voters.subset_of(next.members) && 2 * voters.len() > next.members.len()
                && forall|voter: ServerId|
                voters.contains(voter) ==> next.ballots.contains_key((voter, record.current_term))
                    && next.ballots[(voter, record.current_term)] == server);
        }
    }
    // Where it names a leader, that server was elected.
    if let Node::Follower(follower) = after {
        if let Some(leader) = follower.inner.leader_id {
            named_leader_sent_or_was_named(
                node,
                now,
                before,
                event,
                config,
                after,
                record,
                actions,
                leader,
            );
            if let Event::IncomingRpc(RpcMessage::Request(Request::AppendEntries(request))) = event {
                if request.from == leader && request.term == record.current_term {
                    assert(cluster.network.contains(
                        RpcMessage::Request(Request::AppendEntries(request)),
                    ));
                    assert(elected(cluster.members, cluster.ballots, leader, record.current_term));
                }
            }
            if node is Follower && node->Follower_0.inner.leader_id == Some(leader)
                && record.current_term == before.current_term {
                assert(backed(cluster.members, cluster.ballots, snapshot(node, before)));
            }
            elected_stays_elected(
                cluster.members,
                cluster.ballots,
                next.ballots,
                leader,
                record.current_term,
            );
        }
    }
    assert forall|other: ServerId| #[trigger] next.members.contains(other) implies backed(
        next.members,
        next.ballots,
        snapshot(next.nodes[other], next.records[other]),
    ) by {
        assert(cluster.members.contains(other));
        if other != server {
            let claim = snapshot(cluster.nodes[other], cluster.records[other]);
            assert(backed(cluster.members, cluster.ballots, claim));
            if claim.current_state == RaftNodeState::Leader {
                elected_stays_elected(
                    cluster.members,
                    cluster.ballots,
                    next.ballots,
                    claim.server_id,
                    claim.current_term,
                );
            }
            if let Some(leader) = claim.leader_for_term {
                elected_stays_elected(
                    cluster.members,
                    cluster.ballots,
                    next.ballots,
                    leader,
                    claim.current_term,
                );
            }
        }
    }
    assert forall|request: AppendEntries<C>| #[trigger]
        next.network.contains(RpcMessage::Request(Request::AppendEntries(request))) implies elected(
        next.members,
        next.ballots,
        request.from,
        request.term,
    ) by {
        let message = RpcMessage::Request(Request::AppendEntries(request));
        if cluster.network.contains(message) {
            elected_stays_elected(
                cluster.members,
                cluster.ballots,
                next.ballots,
                request.from,
                request.term,
            );
        } else {
            assert(sends(actions, message));
            append_request_comes_from_a_leader(
                node,
                now,
                before,
                event,
                config,
                after,
                record,
                actions,
                request,
            );
        }
    }
}

/// A candidate that gets its quorum was elected: the servers whose votes it
/// holds are more than half of the members, and each cast its ballot for
/// the candidate.
pub proof fn winner_is_elected<C: LogCommand>(
    cluster: Cluster<C>,
    server: ServerId,
    event: Event<C>,
)
    requires
        cluster.safe(),
        cluster.members.contains(server),
        event matches Event::IncomingRpc(message) ==> cluster.network.contains(message)
            && message.spec_to() == server,
        won_with(cluster.nodes[server], event, cluster.records[server]),
    ensures
        elected(cluster.members, cluster.ballots, server, cluster.records[server].current_term),
{
    let node = cluster.nodes[server];
    let term = cluster.records[server].current_term;
    let votes = votes_with(node, event, cluster.records[server]);
    let peers = peers_of(node);
    let voters = votes.to_set();
    assert(votes.no_duplicates());
    votes.unique_seq_to_set();
    peers.unique_seq_to_set();
    assert(peers.to_set() == cluster.members.remove(server));
    assert(cluster.members.len() == peers.len() + 1);
    assert forall|voter: ServerId| voters.contains(voter) implies cluster.ballots.contains_key(
        (voter, term),
    ) && cluster.ballots[(voter, term)] == server by {
        vote_counts_for_its_candidate(cluster, server, event, voter);
    }
    assert(voters.subset_of(cluster.members)) by {
        assert forall|voter: ServerId| voters.contains(voter) implies cluster.members.contains(
            voter,
        ) by {
            assert(cluster.ballots.contains_key((voter, term)));
        }
    }
    assert(2 * voters.len() > cluster.members.len());
}

/// A node that comes up anew leaves a safe cluster safe.
pub proof fn restart_keeps_safe<C: LogCommand>(
    cluster: Cluster<C>,
    next: Cluster<C>,
    server: ServerId,
)
    requires
        cluster.safe(),
        cluster.restarts_to(next, server),
    ensures
        next.safe(),
{
    assert(cluster.members.contains(server));
    noting_keeps_ballots(cluster, server, next.records[server]);
    assert(next.nodes.dom() =~= next.members);
    assert(next.records.dom() =~= next.members);
    assert forall|voter: ServerId, term: TermIndex| #[trigger]
        next.ballots.contains_key((voter, term)) implies {
        &&& next.members.contains(voter)
        &&& term.0 <= next.records[voter].current_term.0
        &&& term == next.records[voter].current_term
            ==> next.records[voter].vote_in_current_term() == Some(next.ballots[(voter, term)])
    } by {
        if cluster.ballots.contains_key((voter, term)) {
            assert(cluster.members.contains(voter));
        }
    }
    assert forall|other: ServerId| #[trigger] next.members.contains(other) implies {
        &&& next.nodes[other].spec_server_id() == other
        &&& next.nodes[other].wf()
        &&& peers_of(next.nodes[other]).to_set() == next.members.remove(other)
        &&& next.records[other].wf()
        &&& backed(next.members, next.ballots, snapshot(next.nodes[other], next.records[other]))
    } by {
        assert(cluster.members.contains(other));
        let claim = snapshot(cluster.nodes[other], cluster.records[other]);
        assert(backed(cluster.members, cluster.ballots, claim));
        if other != server {
            if claim.current_state == RaftNodeState::Leader {
                elected_stays_elected(
                    cluster.members,
                    cluster.ballots,
                    next.ballots,
                    claim.server_id,
                    claim.current_term,
                );
            }
            if let Some(leader) = claim.leader_for_term {
                elected_stays_elected(
                    cluster.members,
                    cluster.ballots,
                    next.ballots,
                    leader,
                    claim.current_term,
                );
            }
        }
    }
    assert forall|vote: Vote| #[trigger]
        next.network.contains(RpcMessage::Reply(ReplyTo::RequestVote(vote)))
            && vote.vote_granted implies next.ballots.contains_key((vote.from, vote.term))
        && next.ballots[(vote.from, vote.term)] == vote.to by {
        assert(cluster.network.contains(RpcMessage::Reply(ReplyTo::RequestVote(vote))));
        assert(cluster.ballots.contains_key((vote.from, vote.term)));
    }
    assert forall|request: AppendEntries<C>| #[trigger]
        next.network.contains(RpcMessage::Request(Request::AppendEntries(request))) implies elected(
        next.members,
        next.ballots,
        request.from,
        request.term,
    ) && request.from != request.to by {
        assert(cluster.network.contains(RpcMessage::Request(Request::AppendEntries(request))));
        elected_stays_elected(
            cluster.members,
            cluster.ballots,
            next.ballots,
            request.from,
            request.term,
        );
    }
    assert forall|other: ServerId, voter: ServerId|
        next.members.contains(other) && next.nodes[other] is Candidate && (
        #[trigger] next.nodes[other]->Candidate_0.inner.votes_received@.contains(voter))
            implies next.ballots.contains_key((voter, next.records[other].current_term))
        && next.ballots[(voter, next.records[other].current_term)] == other by {
        assert(cluster.members.contains(other));
        assert(cluster.nodes[other]->Candidate_0.inner.votes_received@.contains(voter));
        assert(cluster.ballots.contains_key((voter, cluster.records[other].current_term)));
    }
    assert forall|voter: ServerId| #[trigger] next.members.contains(voter) implies (
    next.records[voter].voted_for matches Some((term, candidate)) ==> next.ballots.contains_key(
        (voter, term),
    ) && next.ballots[(voter, term)] == candidate) by {
        assert(cluster.members.contains(voter));
    }
}

/// Whatever a safe cluster does next, it stays safe.
pub proof fn move_keeps_safe<C: LogCommand>(cluster: Cluster<C>, next: Cluster<C>)
    requires
        cluster.safe(),
        cluster.moves_to(next),
    ensures
        next.safe(),
{
    if exists|server: ServerId, now: Instant, event: Event<C>, actions: Seq<Action<C>>| #[trigger]
        cluster.steps_to(next, server, now, event, actions) {
        let (server, now, event, actions) = choose|
            server: ServerId,
            now: Instant,
            event: Event<C>,
            actions: Seq<Action<C>>,
        | #[trigger] cluster.steps_to(next, server, now, event, actions);
        step_keeps_safe(cluster, next, server, now, event, actions);
    } else {
        let server = choose|server: ServerId| #[trigger] cluster.restarts_to(next, server);
        restart_keeps_safe(cluster, next, server);
    }
}

/// In a safe cluster no two nodes lead one term, and no two nodes of one
/// term name different leaders.
pub proof fn safe_cluster_has_one_leader_per_term<C: LogCommand>(
    cluster: Cluster<C>,
    first: ServerId,
    second: ServerId,
)
    requires
        cluster.safe(),
        cluster.members.contains(first),
        cluster.members.contains(second),
    ensures
        !both_lead(
            snapshot(cluster.nodes[first], cluster.records[first]),
            snapshot(cluster.nodes[second], cluster.records[second]),
        ),
        !name_different_leaders(
            snapshot(cluster.nodes[first], cluster.records[first]),
            snapshot(cluster.nodes[second], cluster.records[second]),
        ),
{
    backed_claims_agree(
        cluster.members,
        cluster.ballots,
        snapshot(cluster.nodes[first], cluster.records[first]),
        snapshot(cluster.nodes[second], cluster.records[second]),
    );
}

/// A claim that was backed stays backed, whatever the cluster does next: a
/// snapshot that a node published once can be held against every later one.
pub proof fn backed_claim_stays_backed<C: LogCommand>(
    cluster: Cluster<C>,
    next: Cluster<C>,
    claim: RaftStateEvent,
)
    requires
        cluster.safe(),
        cluster.moves_to(next),
        backed(cluster.members, cluster.ballots, claim),
    ensures
        backed(next.members, next.ballots, claim),
{
    if exists|server: ServerId, now: Instant, event: Event<C>, actions: Seq<Action<C>>| #[trigger]
        cluster.steps_to(next, server, now, event, actions) {
        let (server, now, event, actions) = choose|
            server: ServerId,
            now: Instant,
            event: Event<C>,
            actions: Seq<Action<C>>,
        | #[trigger] cluster.steps_to(next, server, now, event, actions);
        ballots_are_kept(cluster, next, server, now, event, actions);
    } else {
        let server = choose|server: ServerId| #[trigger] cluster.restarts_to(next, server);
        noting_keeps_ballots(cluster, server, next.records[server]);
    }
    if claim.current_state == RaftNodeState::Leader {
        elected_stays_elected(
            cluster.members,
            cluster.ballots,
            next.ballots,
            claim.server_id,
            claim.current_term,
        );
    }
    if let Some(leader) = claim.leader_for_term {
        elected_stays_elected(
            cluster.members,
            cluster.ballots,
            next.ballots,
            leader,
            claim.current_term,
        );
    }
}

/// In a safe cluster every member can be stepped on every message that was
/// sent to it: a leader never gets an append request from another leader of
/// its own term.
pub proof fn no_second_leader_shows<C: LogCommand>(
    cluster: Cluster<C>,
    server: ServerId,
    request: AppendEntries<C>,
)
    requires
        cluster.safe(),
        cluster.members.contains(server),
        cluster.network.contains(RpcMessage::Request(Request::AppendEntries(request))),
        request.to == server,
        cluster.nodes[server] is Leader,
    ensures
        request.term != cluster.records[server].current_term,
        cluster.nodes[server].accepts(
            cluster.records[server],
            Event::IncomingRpc(RpcMessage::Request(Request::AppendEntries(request))),
        ),
{
    if request.term == cluster.records[server].current_term {
        assert(backed(
            cluster.members,
            cluster.ballots,
            snapshot(cluster.nodes[server], cluster.records[server]),
        ));
        one_server_is_elected(
            cluster.members,
            cluster.ballots,
            request.from,
            server,
            request.term,
        );
    }
}

/// The term of a node never goes back, whatever the cluster does.
pub proof fn terms_never_go_back<C: LogCommand>(
    cluster: Cluster<C>,
    next: Cluster<C>,
    server: ServerId,
)
    requires
        cluster.safe(),
        cluster.moves_to(next),
        cluster.members.contains(server),
    ensures
        next.records[server].current_term.0 >= cluster.records[server].current_term.0,
{
    if exists|stepped: ServerId, now: Instant, event: Event<C>, actions: Seq<Action<C>>| #[trigger]
        cluster.steps_to(next, stepped, now, event, actions) {
        let (stepped, now, event, actions) = choose|
            stepped: ServerId,
            now: Instant,
            event: Event<C>,
            actions: Seq<Action<C>>,
        | #[trigger] cluster.steps_to(next, stepped, now, event, actions);
        crate::laws::step_advances_record(
            cluster.nodes[stepped],
            now,
            cluster.records[stepped],
            event,
            cluster.config,
            next.nodes[stepped],
            next.records[stepped],
            actions,
        );
    } else {
        let restarted = choose|restarted: ServerId| #[trigger] cluster.restarts_to(next, restarted);
    }
}

/// A server votes once in a term: a ballot that is cast is the same ballot
/// whatever the cluster does next.
pub proof fn ballot_is_cast_once<C: LogCommand>(
    cluster: Cluster<C>,
    next: Cluster<C>,
    voter: ServerId,
    term: TermIndex,
)
    requires
        cluster.safe(),
        cluster.moves_to(next),
        cluster.ballots.contains_key((voter, term)),
    ensures
        next.ballots.contains_key((voter, term)),
        next.ballots[(voter, term)] == cluster.ballots[(voter, term)],
{
    if exists|server: ServerId, now: Instant, event: Event<C>, actions: Seq<Action<C>>| #[trigger]
        cluster.steps_to(next, server, now, event, actions) {
        let (server, now, event, actions) = choose|
            server: ServerId,
            now: Instant,
            event: Event<C>,
            actions: Seq<Action<C>>,
        | #[trigger] cluster.steps_to(next, server, now, event, actions);
        ballots_are_kept(cluster, next, server, now, event, actions);
    } else {
        let server = choose|server: ServerId| #[trigger] cluster.restarts_to(next, server);
        noting_keeps_ballots(cluster, server, next.records[server]);
    }
}

/// Whether `run` is a way that a cluster can go: it starts as a cluster
/// that comes up for the first time, and each of its clusters is what the
/// one before can be a moment later.
pub open spec fn is_run<C: LogCommand>(run: Seq<Cluster<C>>) -> bool {
    &&& run.len() > 0
    &&& run[0].starts()
    &&& forall|i: int| 0 <= i < run.len() - 1 ==> (#[trigger] run[i]).moves_to(run[i + 1])
}

/// Every cluster on a run is safe, and has the members of the first.
pub proof fn run_is_safe<C: LogCommand>(run: Seq<Cluster<C>>, at: int)
    requires
        is_run(run),
        0 <= at < run.len(),
    ensures
        run[at].safe(),
        run[at].members == run[0].members,
    decreases at,
{
    if at == 0 {
        start_is_safe(run[0]);
    } else {
        run_is_safe(run, at - 1);
        assert(run[at - 1].moves_to(run[at - 1 + 1]));
        move_keeps_safe(run[at - 1], run[at]);
    }
}

/// On a run, a ballot that was cast stays as it was cast, and a claim that
/// was backed stays backed.
pub proof fn run_keeps_ballots<C: LogCommand>(
    run: Seq<Cluster<C>>,
    earlier: int,
    later: int,
    claim: RaftStateEvent,
)
    requires
        is_run(run),
        0 <= earlier <= later < run.len(),
    ensures
        forall|voter: ServerId, term: TermIndex| #[trigger]
            run[earlier].ballots.contains_key((voter, term)) ==> run[later].ballots.contains_key(
                (voter, term),
            ) && run[later].ballots[(voter, term)] == run[earlier].ballots[(voter, term)],
        backed(run[earlier].members, run[earlier].ballots, claim) ==> backed(
            run[later].members,
            run[later].ballots,
            claim,
        ),
    decreases later - earlier,
{
    if earlier < later {
        run_keeps_ballots(run, earlier, later - 1, claim);
        run_is_safe(run, later - 1);
        assert(run[later - 1].moves_to(run[later - 1 + 1]));
        assert forall|voter: ServerId, term: TermIndex| #[trigger]
            run[earlier].ballots.contains_key(
                (voter, term),
            ) implies run[later].ballots.contains_key((voter, term)) && run[later].ballots[(
            voter,
            term,
        )] == run[earlier].ballots[(voter, term)] by {
            ballot_is_cast_once(run[later - 1], run[later], voter, term);
        }
        if backed(run[earlier].members, run[earlier].ballots, claim) {
            backed_claim_stays_backed(run[later - 1], run[later], claim);
        }
    }
}

/// On a run, the term of a member never goes back.
pub proof fn run_keeps_terms<C: LogCommand>(
    run: Seq<Cluster<C>>,
    earlier: int,
    later: int,
    server: ServerId,
)
    requires
        is_run(run),
        0 <= earlier <= later < run.len(),
        run[0].members.contains(server),
    ensures
        run[later].records[server].current_term.0 >= run[earlier].records[server].current_term.0,
    decreases later - earlier,
{
    if earlier < later {
        run_keeps_terms(run, earlier, later - 1, server);
        run_is_safe(run, later - 1);
        assert(run[later - 1].moves_to(run[later - 1 + 1]));
        terms_never_go_back(run[later - 1], run[later], server);
    }
}

/// Snapshots that are all backed by the same ballots show one leader per
/// term at most, and one named leader per term at most.
pub proof fn backed_snapshots_are_consistent(
    members: Set<ServerId>,
    ballots: Map<(ServerId, TermIndex), ServerId>,
    snapshots: Seq<RaftStateEvent>,
)
    requires
        members.finite(),
        forall|i: int| 0 <= i < snapshots.len() ==> backed(members, ballots, #[trigger] snapshots[i]),
    ensures
        at_most_one_leader_per_term(snapshots),
        at_most_one_named_leader_per_term(snapshots),
{
    assert forall|i: int, j: int| 0 <= i < snapshots.len() && 0 <= j < snapshots.len() implies !both_lead(
        #[trigger] snapshots[i],
        #[trigger] snapshots[j],
    ) && !name_different_leaders(snapshots[i], snapshots[j]) by {
        backed_claims_agree(members, ballots, snapshots[i], snapshots[j]);
    }
}

/// Whatever the members of a cluster publish on a run, each at a time of its
/// own, shows one leader per term at most and one named leader per term at
/// most: `snapshots[i]` is the snapshot of the member `servers[i]` in the
/// cluster `run[times[i]]`.
pub proof fn published_snapshots_are_consistent<C: LogCommand>(
    run: Seq<Cluster<C>>,
    servers: Seq<ServerId>,
    times: Seq<int>,
    snapshots: Seq<RaftStateEvent>,
)
    requires
        is_run(run),
        servers.len() == snapshots.len(),
        times.len() == snapshots.len(),
        forall|i: int|
            0 <= i < snapshots.len() ==> {
                &&& 0 <= #[trigger] times[i] < run.len()
                &&& run[0].members.contains(servers[i])
                &&& snapshots[i] == snapshot(
                    run[times[i]].nodes[servers[i]],
                    run[times[i]].records[servers[i]],
                )
            },
    ensures
        at_most_one_leader_per_term(snapshots),
        at_most_one_named_leader_per_term(snapshots),
{
    let last = run.len() - 1;
    run_is_safe(run, last);
    assert forall|i: int| 0 <= i < snapshots.len() implies backed(
        run[last].members,
        run[last].ballots,
        #[trigger] snapshots[i],
    ) by {
        let at = times[i];
        run_is_safe(run, at);
        assert(run[at].members.contains(servers[i]));
        run_keeps_ballots(run, at, last, snapshots[i]);
    }
    backed_snapshots_are_consistent(run[last].members, run[last].ballots, snapshots);
}

} // verus!

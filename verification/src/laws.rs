//! What follows from the step relation of the role state machine, whatever
//! timeouts are drawn and whatever identifiers the new requests get.

use vstd::prelude::*;
use crate::common::Election;
use crate::common::LogCommand;
use crate::common::RaftConfig;
use crate::common::ServerId;
use crate::rpc_messages::AppendEntries;
use crate::rpc_messages::ReplyTo;
use crate::rpc_messages::Request;
use crate::rpc_messages::RequestVote;
use crate::rpc_messages::RpcMessage;
use crate::rpc_messages::Vote;
use crate::state_machine::advances;
use crate::state_machine::append_entries_ack;
use crate::state_machine::counted;
use crate::state_machine::quorum;
use crate::state_machine::vote_reply;
use crate::state_machine::Action;
use crate::state_machine::Candidate;
use crate::state_machine::Event;
use crate::state_machine::Follower;
use crate::state_machine::Node;
use crate::state_machine::NodeState;
use crate::system_clock::Instant;

verus! {

/// A step never takes the term of a node back, never leaves a vote behind that
/// was cast for a term the node has not reached, and never replaces the vote
/// that the node cast in a term while that term lasts.
pub proof fn step_advances_record<C: LogCommand>(
    node: Node,
    now: Instant,
    before: Election,
    event: Event<C>,
    config: RaftConfig,
    after: Node,
    record: Election,
    actions: Seq<Action<C>>,
)
    requires
        node.accepts(before, event),
        node.steps(now, before, event, config, after, record, actions),
    ensures
        advances(before, record),
{
}

/// Over any number of steps the record moves forward only: what holds from
/// one observation to the next holds from the first to the last.
pub proof fn advances_is_transitive(first: Election, second: Election, third: Election)
    requires
        advances(first, second),
        advances(second, third),
    ensures
        advances(first, third),
{
}

/// An election timer fires only strictly after its timeout: a tick made at
/// exactly `started + timeout` leaves a follower as it is, and a tick made
/// one nanosecond later opens an election in the next term, which a
/// follower without peers wins in the same step.
pub proof fn election_timer_fires_strictly_after<C: LogCommand>(
    follower: NodeState<Follower>,
    before: Election,
    tick: Instant,
    config: RaftConfig,
    after: Node,
    record: Election,
    actions: Seq<Action<C>>,
)
    requires
        follower.handles(before, Event::<C>::Tick(tick), config, after, record, actions),
    ensures
        tick.nanos == follower.inner.last_election_timer_started.nanos
            + follower.inner.election_timeout.nanos ==> after == Node::Follower(follower) && record
            == before && actions.len() == 0,
        tick.nanos == follower.inner.last_election_timer_started.nanos
            + follower.inner.election_timeout.nanos + 1 ==> (after is Candidate || after is Leader)
            && (after is Leader <==> follower.other_servers@.len() == 0) && record
            == before.campaigning(follower.server_id),
{
}

/// A node without peers wins its own election in the step that opens it:
/// its own vote is a quorum of one. A follower without peers whose election
/// timer is over ends the tick as the leader of the next term, with its own
/// vote on record; it sends nothing, arms its election timeout and then,
/// last, the heartbeat interval.
pub proof fn lone_node_wins_its_election<C: LogCommand>(
    node: Node,
    now: Instant,
    before: Election,
    tick: Instant,
    config: RaftConfig,
    after: Node,
    record: Election,
    actions: Seq<Action<C>>,
)
    requires
        node is Follower,
        node->Follower_0.other_servers@.len() == 0,
        node.election_due(tick),
        node.steps(now, before, Event::<C>::Tick(tick), config, after, record, actions),
    ensures
        quorum(0) == 1,
        after matches Node::Leader(leader) && leader.server_id == node.spec_server_id()
            && leader.inner.last_heartbeat_sent == now,
        record == before.campaigning(node.spec_server_id()),
        record.vote_in_current_term() == Some(node.spec_server_id()),
        actions.len() == 2,
        actions[0] matches Action::SetNextTimeout(timeout) && config.offers(timeout),
        actions[1] == Action::<C>::SetNextTimeout(config.leader_heartbeat_interval),
{
    let state = node->Follower_0;
    let (between, adopted, timer, answer) = choose|
        between: Node,
        adopted: Election,
        timer: Seq<Action<C>>,
        answer: Seq<Action<C>>,
    |
        {
            &&& #[trigger] node.at(now).adopts(
                before,
                Event::<C>::Tick(tick),
                config,
                between,
                adopted,
                timer,
            )
            &&& #[trigger] between.handles(
                adopted,
                Event::<C>::Tick(tick),
                config,
                after,
                record,
                answer,
            )
            &&& actions == answer + timer
        };
    assert(answer.take(1)[0] == answer[0]);
    assert(answer.skip(1)[0] == answer[1]);
    assert(actions =~= answer);
}

/// A vote that has been counted is not counted again: a granted vote from a
/// server whose vote the candidate already holds leaves the votes as they
/// are.
pub proof fn counted_vote_is_not_counted_again<C: LogCommand>(
    candidate: NodeState<Candidate>,
    before: Election,
    vote: Vote,
    config: RaftConfig,
    after: Node,
    record: Election,
    actions: Seq<Action<C>>,
)
    requires
        candidate.inner.votes_received@.contains(vote.from),
        candidate.handles(
            before,
            Event::<C>::IncomingRpc(RpcMessage::Reply(ReplyTo::RequestVote(vote))),
            config,
            after,
            record,
            actions,
        ),
    ensures
        counted(candidate.inner.votes_received@, vote.from) == candidate.inner.votes_received@,
        after matches Node::Candidate(still) ==> still.inner.votes_received@
            == candidate.inner.votes_received@,
{
}

/// Counting a vote twice is counting it once.
pub proof fn counting_is_idempotent(votes: Seq<ServerId>, from: ServerId)
    ensures
        counted(counted(votes, from), from) == counted(votes, from),
{
    if !votes.contains(from) {
        assert(votes.push(from)[votes.len() as int] == from);
    }
}

/// A follower that gets the same append request twice in a row, from a term
/// that is not behind its own, acknowledges it both times and ends where the
/// first delivery left it: in the request's term, following the sender.
pub proof fn repeated_append_entries_is_acknowledged_twice<C: LogCommand>(
    node: Node,
    before: Election,
    request: AppendEntries<C>,
    config: RaftConfig,
    first_at: Instant,
    once: Node,
    record_once: Election,
    first_actions: Seq<Action<C>>,
    second_at: Instant,
    twice: Node,
    record_twice: Election,
    second_actions: Seq<Action<C>>,
)
    requires
        node is Follower,
        request.term.0 >= before.current_term.0,
        node.steps(
            first_at,
            before,
            Event::IncomingRpc(RpcMessage::Request(Request::AppendEntries(request))),
            config,
            once,
            record_once,
            first_actions,
        ),
        once.steps(
            second_at,
            record_once,
            Event::IncomingRpc(RpcMessage::Request(Request::AppendEntries(request))),
            config,
            twice,
            record_twice,
            second_actions,
        ),
    ensures
        first_actions.len() >= 1 && first_actions[0] == append_entries_ack(
            request,
            node.spec_server_id(),
            request.term,
            true,
        ),
        second_actions.len() >= 1 && second_actions[0] == append_entries_ack(
            request,
            node.spec_server_id(),
            request.term,
            true,
        ),
        record_once == before.with_term(request.term),
        record_twice == record_once,
        once matches Node::Follower(follower) && follower.inner.leader_id == Some(request.from),
        twice matches Node::Follower(follower) && follower.inner.leader_id == Some(request.from)
            && follower.server_id == node.spec_server_id() && follower.other_servers
            == node->Follower_0.other_servers,
{
}

/// A node that has voted in its term refuses every other candidate of that
/// term, whatever role it plays, and its record stays as it is.
pub proof fn second_vote_in_a_term_is_refused<C: LogCommand>(
    node: Node,
    now: Instant,
    before: Election,
    request: RequestVote,
    config: RaftConfig,
    after: Node,
    record: Election,
    actions: Seq<Action<C>>,
)
    requires
        request.term == before.current_term,
        before.vote_in_current_term() matches Some(server) && server != request.from,
        node.steps(
            now,
            before,
            Event::IncomingRpc(RpcMessage::Request(Request::RequestVote(request))),
            config,
            after,
            record,
            actions,
        ),
    ensures
        actions == seq![vote_reply::<C>(request, node.spec_server_id(), before.current_term, false)],
        record == before,
{
}

/// A vote request from a higher term makes the node adopt that term before
/// it decides: whatever the node's role and whatever it voted before, it ends
/// as a follower in the request's term, with its vote given to the sender
/// and the reply made in that term.
pub proof fn higher_term_is_adopted_before_the_vote<C: LogCommand>(
    node: Node,
    now: Instant,
    before: Election,
    request: RequestVote,
    config: RaftConfig,
    after: Node,
    record: Election,
    actions: Seq<Action<C>>,
)
    requires
        request.term.0 > before.current_term.0,
        before.wf(),
        node.steps(
            now,
            before,
            Event::IncomingRpc(RpcMessage::Request(Request::RequestVote(request))),
            config,
            after,
            record,
            actions,
        ),
    ensures
        after is Follower,
        record == (Election {
            current_term: request.term,
            voted_for: Some((request.term, request.from)),
        }),
        actions.len() == 2,
        actions[0] == vote_reply::<C>(request, node.spec_server_id(), request.term, true),
        actions[1] matches Action::SetNextTimeout(timeout) && config.offers(timeout),
{
}

} // verus!

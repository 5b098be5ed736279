//! One round of the loop that drives a node: wait for a message, tick, hand
//! the message to the node, carry out what the node asks for, and report.
//!
//! The loop itself belongs to whoever owns the node's thread. It calls
//! [`run_one_iteration`] until that returns a [`Stop`].

use vstd::prelude::*;
use rand_chacha::ChaCha8Rng;
use crate::common::Election;
use crate::common::LogCommand;
use crate::common::PersistentStorage;
use crate::common::PersistentStorageError;
use crate::common::RaftConfig;
use crate::common::RaftTransportBridge;
use crate::common::RaftTransportError;
use crate::common::ServerId;
use crate::common::TermIndex;
use crate::rpc_messages::Request;
use crate::rpc_messages::RpcMessage;
use crate::state_machine::advances;
use crate::state_machine::applies_nothing;
use crate::state_machine::step_applies_nothing;
use crate::state_machine::fenced;
use crate::state_machine::Action;
use crate::state_machine::Event;
use crate::state_machine::Node;
use crate::system_clock::now;
use crate::system_clock::Duration;
use crate::system_clock::Instant;

verus! {

/// The role a node plays.
#[derive(Debug, Clone, Copy, PartialEq, Eq, Structural)]
pub enum RaftNodeState {
    Follower,
    Candidate,
    Leader,
}

/// A snapshot of a node, published at the end of each round.
#[derive(Debug, Clone, Copy, PartialEq, Eq, Structural)]
pub struct RaftStateEvent {
    pub server_id: ServerId,
    pub current_state: RaftNodeState,
    pub current_term: TermIndex,
    pub voted_for: Option<ServerId>,
    pub leader_for_term: Option<ServerId>,
}

/// The snapshots that a sink was handed, oldest first.
pub type Published = Seq<RaftStateEvent>;

/// A sink for the snapshots. It may drop them.
///
/// `published` is what the contracts speak of: what the sink was handed,
/// whatever it did with it. It is never called when the program runs.
pub trait RaftStateEventCollector: Send {
    /// The snapshots that the sink was handed so far.
    spec fn published(&self) -> Published;

    /// Hands a snapshot to the sink.
    fn push_event(&mut self, event: RaftStateEvent)
        ensures
            final(self).published() == old(self).published().push(event),
    ;
}

/// The sink that drops every snapshot.
pub struct NoOpRaftEventCollector {
    handed: Ghost<Published>,
}

impl NoOpRaftEventCollector {
    /// A sink that was handed nothing yet.
    pub fn new() -> (sink: Self)
        ensures
            sink.published() == Seq::<RaftStateEvent>::empty(),
    {
        NoOpRaftEventCollector { handed: Ghost(Seq::empty()) }
    }
}

impl RaftStateEventCollector for NoOpRaftEventCollector {
    closed spec fn published(&self) -> Published {
        self.handed@
    }

    fn push_event(&mut self, event: RaftStateEvent) {
        self.handed = Ghost(self.handed@.push(event));
    }
}

/// Why a node's loop ends.
#[derive(Debug, Clone, Copy, PartialEq, Eq)]
pub enum Stop {
    /// Durable storage failed: the node must not go on past a failed write.
    Storage(PersistentStorageError),
    /// The transport was shut down.
    Transport(RaftTransportError),
    /// A leader got an append request from another leader of its own term.
    /// This must not happen: the caller is expected to abort loudly.
    TwoLeadersInOneTerm,
    /// The node's election is due and no term is left to hold it in.
    TermsExhausted,
}

/// The snapshot of a node with the election record `record`.
pub open spec fn snapshot(node: Node, record: Election) -> RaftStateEvent {
    RaftStateEvent {
        server_id: node.spec_server_id(),
        current_state: match node {
            Node::Follower(_) => RaftNodeState::Follower,
            Node::Candidate(_) => RaftNodeState::Candidate,
            Node::Leader(_) => RaftNodeState::Leader,
        },
        current_term: record.current_term,
        voted_for: record.vote_in_current_term(),
        leader_for_term: match node {
            Node::Leader(state) => Some(state.server_id),
            Node::Follower(state) => state.inner.leader_id,
            Node::Candidate(_) => None,
        },
    }
}

/// The messages among `actions`, in their order.
pub open spec fn outgoing<C: LogCommand>(actions: Seq<Action<C>>) -> Seq<RpcMessage<C>>
    decreases actions.len(),
{
    if actions.len() == 0 {
        Seq::empty()
    } else {
        match actions.last() {
            Action::OutgoingRpc(message) => outgoing(actions.drop_last()).push(message),
            _ => outgoing(actions.drop_last()),
        }
    }
}

/// The wait that is armed after `actions`: that of the last `SetNextTimeout`
/// among them, and `wait` where there is none.
pub open spec fn armed<C: LogCommand>(actions: Seq<Action<C>>, wait: Duration) -> Duration
    decreases actions.len(),
{
    if actions.len() == 0 {
        wait
    } else {
        match actions.last() {
            Action::SetNextTimeout(timeout) => timeout,
            _ => armed(actions.drop_last(), wait),
        }
    }
}

/// What is left of `wait` after `waited`, and nothing where more was waited.
pub open spec fn remaining(wait: Duration, waited: Duration) -> Duration {
    if wait.nanos >= waited.nanos {
        Duration { nanos: (wait.nanos - waited.nanos) as u128 }
    } else {
        Duration { nanos: 0 }
    }
}

/// The second half of a round: the node, ticked, gets the message that came
/// in, where one came.
pub open spec fn receives<C: LogCommand>(
    ticked: Node,
    between: Election,
    now: Instant,
    incoming: Option<RpcMessage<C>>,
    config: RaftConfig,
    after: Node,
    record: Election,
    actions: Seq<Action<C>>,
) -> bool {
    match incoming {
        Some(message) => ticked.steps(
            now,
            between,
            Event::IncomingRpc(message),
            config,
            after,
            record,
            actions,
        ),
        None => after == ticked && record == between && actions == Seq::<Action<C>>::empty(),
    }
}

/// A round at the clock reading `now`: the node is stepped on a tick made at
/// `now` and then on the message that came in. The actions of the tick come
/// first.
pub open spec fn wakes<C: LogCommand>(
    node: Node,
    before: Election,
    now: Instant,
    incoming: Option<RpcMessage<C>>,
    config: RaftConfig,
    after: Node,
    record: Election,
    actions: Seq<Action<C>>,
) -> bool {
    exists|ticked: Node, between: Election, first: Seq<Action<C>>, second: Seq<Action<C>>|
        {
            &&& #[trigger] node.steps(
                now,
                before,
                Event::<C>::Tick(now),
                config,
                ticked,
                between,
                first,
            )
            &&& #[trigger] receives(ticked, between, now, incoming, config, after, record, second)
            &&& actions == first + second
        }
}

/// Computes [`snapshot`].
pub fn state_event<C, PS>(node: &Node, storage: &PS) -> (event: RaftStateEvent) where
    C: LogCommand,
    PS: PersistentStorage<C>,

    ensures
        event == snapshot(*node, storage.election()),
{
    RaftStateEvent {
        server_id: node.server_id(),
        current_state: match node {
            Node::Follower(_) => RaftNodeState::Follower,
            Node::Candidate(_) => RaftNodeState::Candidate,
            Node::Leader(_) => RaftNodeState::Leader,
        },
        current_term: storage.current_term(),
        voted_for: storage.voted_for_in_current_term(),
        leader_for_term: match node {
            Node::Leader(state) => Some(state.server_id),
            Node::Follower(follower) => follower.inner.leader_id,
            Node::Candidate(_) => None,
        },
    }
}

/// Carries out `actions` in their order: hands each message to the
/// transport, and lets each `SetNextTimeout` replace the wait. Stops at the
/// first message that the transport does not take; the messages before it
/// have been handed over.
pub fn drain_actions<C, T>(actions: Vec<Action<C>>, transport: &mut T, max_wait: Duration) -> (drained:
    Result<Duration, RaftTransportError>) where C: LogCommand, T: RaftTransportBridge<C>
    requires
        applies_nothing(actions@),
    ensures
        final(transport).waits() == old(transport).waits(),
        match drained {
            Ok(wait) => {
                &&& final(transport).sent() == old(transport).sent() + outgoing(actions@)
                &&& wait == armed(actions@, max_wait)
            },
            Err(_) => exists|done: int|
                0 <= done < actions@.len() && actions@[done] is OutgoingRpc
                    && final(transport).sent() == old(transport).sent() + outgoing(
                    #[trigger] actions@.take(done),
                ),
        },
{
    let ghost all = actions@;
    let mut pending = actions;
    let mut max_wait_time = max_wait;
    let mut done: usize = 0;
    let total = pending.len();
    proof {
        assert(all.take(0) =~= Seq::empty());
        assert(old(transport).sent() + Seq::<RpcMessage<C>>::empty() =~= old(transport).sent());
    }
    while done < total
        invariant
            done <= total,
            total == all.len(),
            all == actions@,
            pending@ == all.skip(done as int),
            applies_nothing(all),
            transport.sent() == old(transport).sent() + outgoing(all.take(done as int)),
            transport.waits() == old(transport).waits(),
            max_wait_time == armed(all.take(done as int), max_wait),
        decreases total - done,
    {
        let action = pending.remove(0);
        proof {
            assert(action == all[done as int]);
            assert(pending@ =~= all.skip(done + 1));
            assert(all.take(done + 1).drop_last() =~= all.take(done as int));
            assert(all.take(done + 1).last() == all[done as int]);
        }
        match action {
            Action::OutgoingRpc(RpcMessage::Request(request)) => {
                match transport.enqueue_outgoing_request(request) {
                    Err(error) => {
                        proof {
                            let handed = all.take(done as int);
                            assert(transport.sent() == old(transport).sent() + outgoing(handed));
                        }
                        return Err(error);
                    },
                    Ok(()) => {},
                }
                proof {
                    assert(transport.sent() =~= old(transport).sent() + outgoing(
                        all.take(done + 1),
                    ));
                }
            },
            Action::OutgoingRpc(RpcMessage::Reply(message)) => {
                match transport.enqueue_reply(message) {
                    Err(error) => {
                        proof {
                            let handed = all.take(done as int);
                            assert(transport.sent() == old(transport).sent() + outgoing(handed));
                        }
                        return Err(error);
                    },
                    Ok(()) => {},
                }
                proof {
                    assert(transport.sent() =~= old(transport).sent() + outgoing(
                        all.take(done + 1),
                    ));
                }
            },
            Action::SetNextTimeout(timer_duration) => {
                max_wait_time = timer_duration;
            },
            Action::ApplyLogEntries(_) => {},
        }
        done += 1;
    }
    proof {
        assert(all.take(total as int) =~= all);
    }
    Ok(max_wait_time)
}

/// The message that came in, if the transport gave one.
pub open spec fn message_of<C: LogCommand>(
    incoming: Result<Option<RpcMessage<C>>, RaftTransportError>,
) -> Option<RpcMessage<C>> {
    match incoming {
        Ok(message) => message,
        Err(_) => None,
    }
}

/// Whether a leader of the term in `record` would get `incoming` from
/// another leader of that term.
pub open spec fn from_second_leader<C: LogCommand>(
    incoming: Option<RpcMessage<C>>,
    record: Election,
) -> bool {
    incoming matches Some(RpcMessage::Request(Request::AppendEntries(request))) && request.term
        == record.current_term
}

/// A whole round, as [`handle_wakeup`] leaves it where it goes well: the
/// node was stepped as [`wakes`] says, every message among its actions was
/// handed to the transport in order, and the wait is the one that the last
/// `SetNextTimeout` asked for, or else what was left of the wait before.
pub open spec fn round_done<C: LogCommand>(
    node: Node,
    before: Election,
    max_wait: Duration,
    waited: Duration,
    now: Instant,
    incoming: Option<RpcMessage<C>>,
    config: RaftConfig,
    sent_before: Seq<RpcMessage<C>>,
    after: Node,
    record: Election,
    wait: Duration,
    sent: Seq<RpcMessage<C>>,
) -> bool {
    exists|actions: Seq<Action<C>>|
        {
            &&& #[trigger] wakes(node, before, now, incoming, config, after, record, actions)
            &&& sent == sent_before + outgoing(actions)
            &&& wait == armed(actions, remaining(max_wait, waited))
        }
}

/// Whether the node can be stepped on a tick made at `now`, with `ticked`
/// and `between` as the node and its record afterwards.
pub open spec fn ticks_to<C: LogCommand>(
    node: Node,
    before: Election,
    now: Instant,
    config: RaftConfig,
    ticked: Node,
    between: Election,
) -> bool {
    exists|first: Seq<Action<C>>| #[trigger]
        node.steps(now, before, Event::<C>::Tick(now), config, ticked, between, first)
}

/// A round that storage cut short, with the record it leaves: the tick
/// failed on storage, or, with the tick stepped, the message that came in
/// did. Either way the record is the one that the failed step was about to
/// make durable.
pub open spec fn round_needs_storage<C: LogCommand>(
    node: Node,
    before: Election,
    now: Instant,
    incoming: Option<RpcMessage<C>>,
    config: RaftConfig,
    record: Election,
) -> bool {
    ||| (node.persists(before, Event::<C>::Tick(now)) && node.leaves_undone(
        before,
        Event::<C>::Tick(now),
        record,
    ))
    ||| (incoming is Some && exists|ticked: Node, between: Election| #[trigger]
        ticks_to::<C>(node, before, now, config, ticked, between) && ticked.persists(
            between,
            Event::IncomingRpc(incoming.unwrap()),
        ) && ticked.leaves_undone(between, Event::IncomingRpc(incoming.unwrap()), record))
}

/// A round that the transport cut short while it took the node's messages:
/// the node was stepped as [`wakes`] says, and the messages before the one
/// that the transport refused were handed over.
pub open spec fn round_cut_short<C: LogCommand>(
    node: Node,
    before: Election,
    now: Instant,
    incoming: Option<RpcMessage<C>>,
    config: RaftConfig,
    sent_before: Seq<RpcMessage<C>>,
    record: Election,
    sent: Seq<RpcMessage<C>>,
) -> bool {
    exists|after: Node, actions: Seq<Action<C>>, done: int|
        {
            &&& #[trigger] wakes(node, before, now, incoming, config, after, record, actions)
            &&& 0 <= done < actions.len()
            &&& actions[done] is OutgoingRpc
            &&& sent == sent_before + outgoing(#[trigger] actions.take(done))
        }
}

/// How a round ends, once the wait took `waited` and gave `incoming` and the
/// clock shows `now`: what it returns, the record and the transport
/// afterwards, and what was published.
///
/// A round that goes well has stepped the node as [`wakes`] says, handed
/// its messages over, armed the wait and published the node's snapshot. A
/// round that stops the node publishes nothing. It stops on a tick that
/// would need a term beyond the last one, and only there, with nothing
/// done. A node that led before the round is stopped by a second leader
/// exactly where the message that came in is an append request of its own
/// term; a node that did not lead can be stopped so only once the tick has
/// made it the leader, which storage decides. It stops on storage only
/// where a step writes, and on the transport where the wait ended in a
/// shutdown or a message was refused.
pub open spec fn round_ends<C: LogCommand>(
    state: Node,
    before: Election,
    max_wait: Duration,
    waited: Duration,
    now: Instant,
    incoming: Result<Option<RpcMessage<C>>, RaftTransportError>,
    config: RaftConfig,
    sent_before: Seq<RpcMessage<C>>,
    published_before: Seq<RaftStateEvent>,
    round: Result<(Node, Duration), Stop>,
    record: Election,
    sent: Seq<RpcMessage<C>>,
    published: Seq<RaftStateEvent>,
) -> bool {
    &&& round == Err::<(Node, Duration), Stop>(Stop::TermsExhausted) <==> state.election_due(now)
        && before.current_term.0 == u64::MAX
    &&& state is Leader ==> (round == Err::<(Node, Duration), Stop>(Stop::TwoLeadersInOneTerm)
        <==> from_second_leader(message_of(incoming), before))
    &&& match round {
        Ok((after, wait)) => {
            &&& incoming is Ok
            &&& round_done(
                state,
                before,
                max_wait,
                waited,
                now,
                message_of(incoming),
                config,
                sent_before,
                after,
                record,
                wait,
                sent,
            )
            &&& published == published_before.push(snapshot(after, record))
        },
        Err(Stop::TermsExhausted) => {
            &&& record == before
            &&& sent == sent_before
            &&& published == published_before
        },
        Err(Stop::Storage(_)) => {
            &&& sent == sent_before
            &&& published == published_before
            &&& round_needs_storage(state, before, now, message_of(incoming), config, record)
        },
        Err(Stop::TwoLeadersInOneTerm) => {
            &&& sent == sent_before
            &&& published == published_before
            &&& exists|ticked: Node| #[trigger]
                ticks_to::<C>(state, before, now, config, ticked, record) && ticked is Leader
            &&& from_second_leader(message_of(incoming), record)
        },
        Err(Stop::Transport(error)) => {
            &&& published == published_before
            &&& match incoming {
                Err(shutdown) => {
                    &&& error == shutdown
                    &&& sent == sent_before
                    &&& exists|ticked: Node| #[trigger]
                        ticks_to::<C>(state, before, now, config, ticked, record)
                },
                Ok(message) => round_cut_short(
                    state,
                    before,
                    now,
                    message,
                    config,
                    sent_before,
                    record,
                    sent,
                ),
            }
        },
    }
}

/// What a round does once the wait is over: the node is stepped on a tick
/// made at `now`, then on the message that came in; what the node asks for
/// is carried out; and the node's snapshot is published. `waited` is how
/// long the wait took, `incoming` what the transport returned from it.
///
/// The round stops the node where it cannot be stepped (an election is due
/// and no term is left for it, or a second leader shows in the node's term),
/// where storage fails, and where the transport is shut down. A tick is
/// stepped before the transport's shutdown is looked at.
pub fn handle_wakeup<C, PS, T, E>(
    state: Node,
    max_wait_time: Duration,
    waited: Duration,
    now: Instant,
    incoming: Result<Option<RpcMessage<C>>, RaftTransportError>,
    storage: &mut PS,
    config: &RaftConfig,
    rng: &mut ChaCha8Rng,
    transport: &mut T,
    event_collector: &mut E,
) -> (round: Result<(Node, Duration), Stop>) where
    C: LogCommand,
    PS: PersistentStorage<C>,
    T: RaftTransportBridge<C>,
    E: RaftStateEventCollector,

    requires
        state.wf(),
        config.valid(),
    ensures
        advances(old(storage).election(), final(storage).election()),
        final(transport).waits() == old(transport).waits(),
        round matches Ok((after, _)) ==> after.wf() && fenced::<C, PS>(old(storage), final(storage)),
        round_ends(
            state,
            old(storage).election(),
            max_wait_time,
            waited,
            now,
            incoming,
            *config,
            old(transport).sent(),
            old(event_collector).published(),
            round,
            final(storage).election(),
            final(transport).sent(),
            final(event_collector).published(),
        ),
{
    let ghost before = storage.election();
    if state.is_election_due(now) && storage.current_term().0 == u64::MAX {
        return Err(Stop::TermsExhausted);
    }
    let (ticked, mut tick_actions) = match state.next_at(
        now,
        Event::Tick(now),
        storage,
        config,
        rng,
    ) {
        Ok(stepped) => stepped,
        Err(error) => {
            return Err(Stop::Storage(error));
        },
    };
    let ghost ticked_node = ticked;
    let ghost between = storage.election();
    let ghost first = tick_actions@;
    proof {
        step_applies_nothing(state, now, before, Event::<C>::Tick(now), *config, ticked, between, first);
        assert(ticks_to::<C>(state, before, now, *config, ticked_node, between));
    }

    let maybe_message = match incoming {
        Ok(maybe_message) => maybe_message,
        Err(error) => {
            return Err(Stop::Transport(error));
        },
    };
    let (new_state, mut actions_after_processing_message) = match maybe_message {
        Some(incoming_message) => {
            let second_leader = match (&ticked, &incoming_message) {
                (Node::Leader(_), RpcMessage::Request(Request::AppendEntries(request))) => {
                    request.term.0 == storage.current_term().0
                },
                _ => false,
            };
            if second_leader {
                return Err(Stop::TwoLeadersInOneTerm);
            }
            let ghost message = incoming_message;
            match ticked.next_at(now, Event::IncomingRpc(incoming_message), storage, config, rng) {
                Ok(stepped) => {
                    proof {
                        step_applies_nothing(
                            ticked_node,
                            now,
                            between,
                            Event::IncomingRpc(message),
                            *config,
                            stepped.0,
                            storage.election(),
                            stepped.1@,
                        );
                    }
                    stepped
                },
                Err(error) => {
                    proof {
                        assert(ticked_node.persists(between, Event::IncomingRpc(message)));
                        assert(ticked_node.leaves_undone(
                            between,
                            Event::IncomingRpc(message),
                            storage.election(),
                        ));
                    }
                    return Err(Stop::Storage(error));
                },
            }
        },
        None => (ticked, Vec::new()),
    };
    let ghost second = actions_after_processing_message@;
    proof {
        assert(receives(
            ticked_node,
            between,
            now,
            message_of(incoming),
            *config,
            new_state,
            storage.election(),
            second,
        ));
    }

    let left = match max_wait_time.checked_sub(waited) {
        Some(left) => left,
        None => Duration::from_millis(0),
    };
    tick_actions.append(&mut actions_after_processing_message);
    proof {
        assert(tick_actions@ == first + second);
        assert(wakes(
            state,
            before,
            now,
            message_of(incoming),
            *config,
            new_state,
            storage.election(),
            tick_actions@,
        ));
    }
    let ghost all = tick_actions@;
    let max_wait_time = match drain_actions(tick_actions, transport, left) {
        Ok(wait) => wait,
        Err(error) => {
            proof {
                let done = choose|done: int|
                    0 <= done < all.len() && all[done] is OutgoingRpc && transport.sent() == old(
                        transport,
                    ).sent() + outgoing(#[trigger] all.take(done));
                assert(wakes(
                    state,
                    before,
                    now,
                    message_of(incoming),
                    *config,
                    new_state,
                    storage.election(),
                    all,
                ));
                assert(transport.sent() == old(transport).sent() + outgoing(all.take(done)));
            }
            return Err(Stop::Transport(error));
        },
    };

    event_collector.push_event(state_event(&new_state, &*storage));
    Ok((new_state, max_wait_time))
}

/// One round of a node's loop: asks the transport to wait for a message for
/// `max_wait_time` at most, reads the clock, and ends as [`round_ends`] says,
/// for whatever the transport returned and whatever the clock shows.
pub fn run_one_iteration<C, PS, T, E>(
    state: Node,
    max_wait_time: Duration,
    storage: &mut PS,
    config: &RaftConfig,
    rng: &mut ChaCha8Rng,
    transport: &mut T,
    event_collector: &mut E,
) -> (round: Result<(Node, Duration), Stop>) where
    C: LogCommand,
    PS: PersistentStorage<C>,
    T: RaftTransportBridge<C>,
    E: RaftStateEventCollector,

    requires
        state.wf(),
        config.valid(),
    ensures
        advances(old(storage).election(), final(storage).election()),
        final(transport).waits() == old(transport).waits().push(max_wait_time),
        round matches Ok((after, _)) ==> after.wf() && fenced::<C, PS>(old(storage), final(storage)),
        round == Err::<(Node, Duration), Stop>(Stop::TermsExhausted) ==> !(state is Leader) && old(
            storage,
        ).election().current_term.0 == u64::MAX,
        exists|
            waited: Duration,
            now: Instant,
            incoming: Result<Option<RpcMessage<C>>, RaftTransportError>,
        | #[trigger]
            round_ends(
                state,
                old(storage).election(),
                max_wait_time,
                waited,
                now,
                incoming,
                *config,
                old(transport).sent(),
                old(event_collector).published(),
                round,
                final(storage).election(),
                final(transport).sent(),
                final(event_collector).published(),
            ),
{
    let time_before_waiting = now();
    let maybe_next_message = transport.wait_for_next_incoming_message(max_wait_time);
    let woke_at = now();
    let waited = woke_at.saturating_duration_since(time_before_waiting);
    handle_wakeup(
        state,
        max_wait_time,
        waited,
        woke_at,
        maybe_next_message,
        storage,
        config,
        rng,
        transport,
        event_collector,
    )
}

} // verus!

use raft_consensus::raft_thread::drain_actions;
use raft_consensus::raft_thread::handle_wakeup;
use raft_consensus::raft_thread::run_one_iteration;
use raft_consensus::raft_thread::state_event;
use raft_consensus::raft_thread::Stop;
use raft_consensus::rpc_messages::AppendEntries;
use raft_consensus::rpc_messages::AppendEntriesAck;
use raft_consensus::rpc_messages::ReplyTo;
use raft_consensus::rpc_messages::Request;
use raft_consensus::rpc_messages::RequestVote;
use raft_consensus::rpc_messages::RpcMessage;
use raft_consensus::rpc_messages::Vote;
use raft_consensus::server_set::ServerSet;
use raft_consensus::state_machine::Action;
use raft_consensus::state_machine::Event;
use raft_consensus::state_machine::Node;
use raft_consensus::system_clock::Duration;
use raft_consensus::system_clock::Instant;
use raft_consensus::Election;
use raft_consensus::LogEntry;
use raft_consensus::LogIndex;
use raft_consensus::NoOpRaftEventCollector;
use raft_consensus::PersistentStorage;
use raft_consensus::PersistentStorageError;
use raft_consensus::Published;
use raft_consensus::RaftConfig;
use raft_consensus::RaftNodeState;
use raft_consensus::RaftStateEvent;
use raft_consensus::RaftStateEventCollector;
use raft_consensus::RaftTransportBridge;
use raft_consensus::RaftTransportError;
use raft_consensus::Sent;
use raft_consensus::ServerId;
use raft_consensus::TermIndex;
use raft_consensus::Waits;
use rand::SeedableRng;
use rand_chacha::ChaCha8Rng;
use uuid::Uuid;

struct MemoryStorage {
    election: Election,
    durable: Election,
    fail_syncs: bool,
}

impl MemoryStorage {
    fn at_term(term: u64) -> Self {
        let election = Election { current_term: TermIndex(term), voted_for: None };
        MemoryStorage { election, durable: election, fail_syncs: false }
    }
}

impl PersistentStorage<u64> for MemoryStorage {
    fn election(&self) -> Election {
        self.election
    }
    fn durable(&self) -> Election {
        self.durable
    }
    fn current_term(&self) -> TermIndex {
        self.election.current_term()
    }
    fn voted_for_in_current_term(&self) -> Option<ServerId> {
        self.election.vote_for_current_term()
    }
    fn update_term(&mut self, term: TermIndex) {
        self.election.update_term(term);
    }
    fn record_vote(&mut self, voted_for: ServerId) {
        self.election.record_vote(voted_for);
    }
    fn last_entry_index(&self) -> Option<LogIndex> {
        None
    }
    fn has_entry(&self, _index: LogIndex, _term: TermIndex) -> bool {
        false
    }
    fn append(&mut self, _entries: Vec<LogEntry<u64>>) {}
    fn sync(&mut self) -> Result<(), PersistentStorageError> {
        if self.fail_syncs {
            Err(PersistentStorageError::IoError)
        } else {
            self.durable = self.election;
            Ok(())
        }
    }
}

/// A transport that returns what it is told to, takes a given number of
/// messages and is shut down after that.
struct ScriptedTransport {
    incoming: Vec<Result<Option<RpcMessage<u64>>, RaftTransportError>>,
    waits: Vec<Duration>,
    sent: Vec<RpcMessage<u64>>,
    takes: usize,
    advance_clock_by: Option<std::time::Duration>,
}

impl ScriptedTransport {
    fn open() -> Self {
        ScriptedTransport { incoming: Vec::new(), waits: Vec::new(), sent: Vec::new(), takes: usize::MAX, advance_clock_by: None }
    }

    fn take(&mut self, message: RpcMessage<u64>) -> Result<(), RaftTransportError> {
        if self.sent.len() < self.takes {
            self.sent.push(message);
            Ok(())
        } else {
            Err(RaftTransportError::TransportShutdown)
        }
    }
}

impl RaftTransportBridge<u64> for ScriptedTransport {
    fn sent(&self) -> Sent<u64> {
        unreachable!("only contracts speak of this")
    }
    fn waits(&self) -> Waits {
        unreachable!("only contracts speak of this")
    }
    fn wait_for_next_incoming_message(&mut self, max_wait: Duration) -> Result<Option<RpcMessage<u64>>, RaftTransportError> {
        self.waits.push(max_wait);
        if let Some(by) = self.advance_clock_by {
            mock_instant::global::MockClock::advance(by);
        }
        if self.incoming.is_empty() {
            Ok(None)
        } else {
            self.incoming.remove(0)
        }
    }
    fn enqueue_reply(&mut self, reply: ReplyTo) -> Result<(), RaftTransportError> {
        self.take(RpcMessage::Reply(reply))
    }
    fn enqueue_outgoing_request(&mut self, request: Request<u64>) -> Result<(), RaftTransportError> {
        self.take(RpcMessage::Request(request))
    }
}

struct Snapshots {
    events: Vec<RaftStateEvent>,
}

impl RaftStateEventCollector for Snapshots {
    fn published(&self) -> Published {
        unreachable!("only contracts speak of this")
    }
    fn push_event(&mut self, event: RaftStateEvent) {
        self.events.push(event);
    }
}

fn config() -> RaftConfig {
    RaftConfig {
        leader_heartbeat_interval: Duration::from_millis(100),
        min_election_timeout_ms: 150,
        max_election_timeout_ms: 300,
    }
}

fn at_millis(millis: u64) -> Instant {
    Instant { nanos: (millis as u128) * 1_000_000 }
}

fn peers(ids: &[u64]) -> ServerSet {
    let mut set = ServerSet::new();
    for id in ids {
        set.insert(ServerId(*id));
    }
    set
}

/// A follower whose clock and election timer stand at `started`.
fn follower(id: u64, others: &[u64], rng: &mut ChaCha8Rng, started: Instant) -> (Node, Duration) {
    let (mut node, first) = Node::new(ServerId(id), peers(others), &config(), rng);
    node.update_clock(started);
    if let Node::Follower(state) = &mut node {
        state.start_time = started;
        state.inner.last_election_timer_started = started;
    }
    (node, first.0)
}

fn leader(storage: &mut MemoryStorage, rng: &mut ChaCha8Rng) -> Node {
    let (node, first) = follower(0, &[1, 2], rng, at_millis(0));
    let tick = Instant { nanos: first.nanos + 1 };
    let (node, _) = node.next_at(tick, Event::Tick(tick), storage, &config(), rng).unwrap();
    let term = storage.current_term();
    let vote = Vote { request_id: Uuid::new_v4(), from: ServerId(1), to: ServerId(0), term, vote_granted: true };
    let (node, _) = node
        .next_at(at_millis(400), Event::IncomingRpc(RpcMessage::Reply(ReplyTo::RequestVote(vote))), storage, &config(), rng)
        .unwrap();
    assert!(matches!(node, Node::Leader(_)));
    node
}

fn heartbeat(from: u64, to: u64, term: u64) -> AppendEntries<u64> {
    AppendEntries {
        request_id: Uuid::new_v4(),
        from: ServerId(from),
        to: ServerId(to),
        term: TermIndex(term),
        prev_log_index: LogIndex(0),
        prev_log_term: TermIndex(0),
        entries: Vec::new(),
        leader_commit: LogIndex(0),
    }
}

fn vote_request(from: u64, to: u64, term: u64) -> RequestVote {
    RequestVote {
        request_id: Uuid::new_v4(),
        from: ServerId(from),
        to: ServerId(to),
        term: TermIndex(term),
        last_log_index: LogIndex(0),
        last_log_term: TermIndex(0),
    }
}

#[test]
fn drain_hands_messages_over_in_order_and_the_last_timeout_wins() {
    let request = vote_request(0, 1, 3);
    let ack = AppendEntriesAck { request_id: Uuid::new_v4(), from: ServerId(0), to: ServerId(2), term: TermIndex(3), success: true };
    let actions: Vec<Action<u64>> = vec![
        Action::SetNextTimeout(Duration::from_millis(10)),
        Action::OutgoingRpc(RpcMessage::Request(Request::RequestVote(request.clone()))),
        Action::SetNextTimeout(Duration::from_millis(20)),
        Action::OutgoingRpc(RpcMessage::Reply(ReplyTo::AppendEntries(ack.clone()))),
    ];
    let mut transport = ScriptedTransport::open();
    let wait = drain_actions(actions, &mut transport, Duration::from_millis(99));
    assert_eq!(wait.unwrap(), Duration::from_millis(20));
    assert_eq!(
        transport.sent,
        vec![RpcMessage::Request(Request::RequestVote(request)), RpcMessage::Reply(ReplyTo::AppendEntries(ack))]
    );
}

#[test]
fn drain_without_a_timeout_keeps_the_wait() {
    let mut transport = ScriptedTransport::open();
    let wait = drain_actions(Vec::<Action<u64>>::new(), &mut transport, Duration::from_millis(99));
    assert_eq!(wait.unwrap(), Duration::from_millis(99));
    assert!(transport.sent.is_empty());
}

#[test]
fn drain_stops_at_the_first_message_that_is_not_taken() {
    let actions: Vec<Action<u64>> = vec![
        Action::OutgoingRpc(RpcMessage::Request(Request::RequestVote(vote_request(0, 1, 3)))),
        Action::OutgoingRpc(RpcMessage::Request(Request::RequestVote(vote_request(0, 2, 3)))),
        Action::OutgoingRpc(RpcMessage::Request(Request::RequestVote(vote_request(0, 3, 3)))),
    ];
    let mut transport = ScriptedTransport::open();
    transport.takes = 1;
    let drained = drain_actions(actions, &mut transport, Duration::from_millis(99));
    assert!(matches!(drained, Err(RaftTransportError::TransportShutdown)));
    assert_eq!(transport.sent.len(), 1);
    assert_eq!(transport.sent[0].to(), ServerId(1));
}

#[test]
fn snapshot_of_every_role() {
    let mut rng = ChaCha8Rng::seed_from_u64(1);
    let mut storage = MemoryStorage::at_term(0);
    let (node, first) = follower(0, &[1, 2], &mut rng, at_millis(0));
    assert_eq!(
        state_event::<u64, MemoryStorage>(&node, &storage),
        RaftStateEvent {
            server_id: ServerId(0),
            current_state: RaftNodeState::Follower,
            current_term: TermIndex(0),
            voted_for: None,
            leader_for_term: None,
        }
    );
    let (node, _) = node
        .next_at(at_millis(5), Event::IncomingRpc(RpcMessage::Request(Request::AppendEntries(heartbeat(2, 0, 4)))), &mut storage, &config(), &mut rng)
        .unwrap();
    assert_eq!(
        state_event::<u64, MemoryStorage>(&node, &storage),
        RaftStateEvent {
            server_id: ServerId(0),
            current_state: RaftNodeState::Follower,
            current_term: TermIndex(4),
            voted_for: None,
            leader_for_term: Some(ServerId(2)),
        }
    );
    let _ = first;
    let tick = at_millis(1_000);
    let (node, _) = node.next_at(tick, Event::Tick(tick), &mut storage, &config(), &mut rng).unwrap();
    assert_eq!(
        state_event::<u64, MemoryStorage>(&node, &storage),
        RaftStateEvent {
            server_id: ServerId(0),
            current_state: RaftNodeState::Candidate,
            current_term: TermIndex(5),
            voted_for: Some(ServerId(0)),
            leader_for_term: None,
        }
    );
    let vote = Vote { request_id: Uuid::new_v4(), from: ServerId(1), to: ServerId(0), term: TermIndex(5), vote_granted: true };
    let (node, _) = node
        .next_at(tick, Event::IncomingRpc(RpcMessage::Reply(ReplyTo::RequestVote(vote))), &mut storage, &config(), &mut rng)
        .unwrap();
    assert_eq!(
        state_event::<u64, MemoryStorage>(&node, &storage),
        RaftStateEvent {
            server_id: ServerId(0),
            current_state: RaftNodeState::Leader,
            current_term: TermIndex(5),
            voted_for: Some(ServerId(0)),
            leader_for_term: Some(ServerId(0)),
        }
    );
}

#[test]
fn quiet_round_subtracts_the_time_waited_and_stops_at_zero() {
    let mut rng = ChaCha8Rng::seed_from_u64(2);
    let mut storage = MemoryStorage::at_term(3);
    let mut transport = ScriptedTransport::open();
    let mut snapshots = Snapshots { events: Vec::new() };
    let (node, _) = follower(0, &[1, 2], &mut rng, at_millis(0));
    let (node, wait) = handle_wakeup(
        node,
        Duration::from_millis(120),
        Duration::from_millis(50),
        at_millis(50),
        Ok(None),
        &mut storage,
        &config(),
        &mut rng,
        &mut transport,
        &mut snapshots,
    )
    .unwrap();
    assert_eq!(wait, Duration::from_millis(70));
    assert!(transport.sent.is_empty());
    assert_eq!(snapshots.events.len(), 1);
    assert_eq!(snapshots.events[0].current_state, RaftNodeState::Follower);

    let (_, wait) = handle_wakeup(
        node,
        Duration::from_millis(70),
        Duration::from_millis(90),
        at_millis(140),
        Ok(None),
        &mut storage,
        &config(),
        &mut rng,
        &mut transport,
        &mut snapshots,
    )
    .unwrap();
    assert_eq!(wait, Duration::from_millis(0));
    assert_eq!(snapshots.events.len(), 2);
}

#[test]
fn round_ticks_before_it_hands_the_message_to_the_node() {
    let mut rng = ChaCha8Rng::seed_from_u64(3);
    let mut storage = MemoryStorage::at_term(3);
    let mut transport = ScriptedTransport::open();
    let mut snapshots = Snapshots { events: Vec::new() };
    let (node, first) = follower(0, &[1, 2], &mut rng, at_millis(0));
    // The election timer is over when the heartbeat comes in: the tick opens
    // an election in term 4 first, and the heartbeat of term 4 ends it.
    let now = Instant { nanos: first.nanos + 1 };
    let request = heartbeat(1, 0, 4);
    let (node, wait) = handle_wakeup(
        node,
        first,
        Duration { nanos: first.nanos + 1 },
        now,
        Ok(Some(RpcMessage::Request(Request::AppendEntries(request.clone())))),
        &mut storage,
        &config(),
        &mut rng,
        &mut transport,
        &mut snapshots,
    )
    .unwrap();
    assert_eq!(transport.sent.len(), 3);
    assert!(matches!(&transport.sent[0], RpcMessage::Request(Request::RequestVote(r)) if r.to == ServerId(1) && r.term == TermIndex(4)));
    assert!(matches!(&transport.sent[1], RpcMessage::Request(Request::RequestVote(r)) if r.to == ServerId(2) && r.term == TermIndex(4)));
    assert_eq!(
        transport.sent[2],
        RpcMessage::Reply(ReplyTo::AppendEntries(AppendEntriesAck {
            request_id: request.request_id,
            from: ServerId(0),
            to: ServerId(1),
            term: TermIndex(4),
            success: true,
        }))
    );
    // The timeout that the election armed stays: a candidate that yields arms none.
    assert!(wait.as_millis() >= 150 && wait.as_millis() < 300);
    match node {
        Node::Follower(state) => assert_eq!(state.inner.leader_id, Some(ServerId(1))),
        _ => panic!("expected a follower"),
    }
    assert_eq!(
        snapshots.events,
        vec![RaftStateEvent {
            server_id: ServerId(0),
            current_state: RaftNodeState::Follower,
            current_term: TermIndex(4),
            voted_for: Some(ServerId(0)),
            leader_for_term: Some(ServerId(1)),
        }]
    );
}

#[test]
fn round_stops_when_no_term_is_left() {
    let mut rng = ChaCha8Rng::seed_from_u64(4);
    let mut storage = MemoryStorage::at_term(u64::MAX);
    let mut transport = ScriptedTransport::open();
    let mut snapshots = Snapshots { events: Vec::new() };
    let (node, first) = follower(0, &[1, 2], &mut rng, at_millis(0));
    // As long as no election is due, the node goes on in the last term.
    let (node, _) = handle_wakeup(
        node,
        first,
        first,
        Instant { nanos: first.nanos },
        Ok(Some(RpcMessage::Request(Request::AppendEntries(heartbeat(1, 0, u64::MAX))))),
        &mut storage,
        &config(),
        &mut rng,
        &mut transport,
        &mut snapshots,
    )
    .unwrap();
    assert_eq!(snapshots.events.len(), 1);
    assert!(node.is_election_due(at_millis(1_000)));
    assert!(!node.is_election_due(Instant { nanos: first.nanos }));
    let round = handle_wakeup(
        node,
        Duration::from_millis(10),
        Duration::from_millis(10),
        at_millis(1_000),
        Ok(None),
        &mut storage,
        &config(),
        &mut rng,
        &mut transport,
        &mut snapshots,
    );
    assert!(matches!(round, Err(Stop::TermsExhausted)));
    assert_eq!(storage.election, Election { current_term: TermIndex(u64::MAX), voted_for: None });
    assert_eq!(snapshots.events.len(), 1);
}

#[test]
fn round_stops_when_storage_fails() {
    let mut rng = ChaCha8Rng::seed_from_u64(5);
    let mut storage = MemoryStorage::at_term(3);
    storage.fail_syncs = true;
    let mut transport = ScriptedTransport::open();
    let mut snapshots = Snapshots { events: Vec::new() };
    let (node, _) = follower(0, &[1, 2], &mut rng, at_millis(0));
    let round = handle_wakeup(
        node,
        Duration::from_millis(10),
        Duration::from_millis(10),
        at_millis(10),
        Ok(Some(RpcMessage::Request(Request::RequestVote(vote_request(1, 0, 3))))),
        &mut storage,
        &config(),
        &mut rng,
        &mut transport,
        &mut snapshots,
    );
    assert!(matches!(round, Err(Stop::Storage(PersistentStorageError::IoError))));
    assert!(transport.sent.is_empty());
    assert!(snapshots.events.is_empty());
}

#[test]
fn round_stops_when_the_transport_is_shut_down() {
    let mut rng = ChaCha8Rng::seed_from_u64(6);
    let mut storage = MemoryStorage::at_term(3);
    let mut transport = ScriptedTransport::open();
    let mut snapshots = Snapshots { events: Vec::new() };
    let (node, first) = follower(0, &[1, 2], &mut rng, at_millis(0));
    let now = Instant { nanos: first.nanos + 1 };
    let round = handle_wakeup(
        node,
        first,
        first,
        now,
        Err(RaftTransportError::TransportShutdown),
        &mut storage,
        &config(),
        &mut rng,
        &mut transport,
        &mut snapshots,
    );
    assert!(matches!(round, Err(Stop::Transport(RaftTransportError::TransportShutdown))));
    // The tick was stepped first: the election is on record.
    assert_eq!(storage.durable, Election { current_term: TermIndex(4), voted_for: Some((TermIndex(4), ServerId(0))) });
    assert!(transport.sent.is_empty());

    // The transport may also refuse what the node sends.
    let (node, first) = follower(0, &[1, 2], &mut rng, at_millis(0));
    let now = Instant { nanos: first.nanos + 1 };
    transport.takes = 1;
    let round = handle_wakeup(node, first, first, now, Ok(None), &mut storage, &config(), &mut rng, &mut transport, &mut snapshots);
    assert!(matches!(round, Err(Stop::Transport(RaftTransportError::TransportShutdown))));
    assert_eq!(transport.sent.len(), 1);
    assert!(snapshots.events.is_empty());
}

#[test]
fn round_stops_when_a_second_leader_shows() {
    let mut rng = ChaCha8Rng::seed_from_u64(7);
    let mut storage = MemoryStorage::at_term(0);
    let node = leader(&mut storage, &mut rng);
    let term = storage.current_term().0;
    let mut transport = ScriptedTransport::open();
    let mut snapshots = Snapshots { events: Vec::new() };
    let round = handle_wakeup(
        node,
        Duration::from_millis(100),
        Duration::from_millis(10),
        at_millis(410),
        Ok(Some(RpcMessage::Request(Request::AppendEntries(heartbeat(2, 0, term))))),
        &mut storage,
        &config(),
        &mut rng,
        &mut transport,
        &mut snapshots,
    );
    assert!(matches!(round, Err(Stop::TwoLeadersInOneTerm)));
    assert!(transport.sent.is_empty());
}

#[test]
fn iteration_waits_for_the_armed_time_and_reads_the_clock_after_the_wait() {
    mock_instant::global::MockClock::set_time(std::time::Duration::from_millis(1_000));
    let mut rng = ChaCha8Rng::seed_from_u64(8);
    let mut storage = MemoryStorage::at_term(3);
    let (node, _) = follower(0, &[1, 2], &mut rng, at_millis(1_000));
    let mut transport = ScriptedTransport::open();
    transport.advance_clock_by = Some(std::time::Duration::from_millis(40));
    transport.incoming.push(Ok(Some(RpcMessage::Request(Request::AppendEntries(heartbeat(1, 0, 3))))));
    let mut collector = NoOpRaftEventCollector::new();
    let (node, wait) = run_one_iteration(node, Duration::from_millis(120), &mut storage, &config(), &mut rng, &mut transport, &mut collector).unwrap();
    assert_eq!(transport.waits, vec![Duration::from_millis(120)]);
    assert_eq!(transport.sent.len(), 1);
    match &node {
        Node::Follower(state) => {
            assert_eq!(state.current_time, at_millis(1_040));
            assert_eq!(state.inner.last_election_timer_started, at_millis(1_040));
            assert_eq!(state.inner.election_timeout, wait);
            assert_eq!(state.inner.leader_id, Some(ServerId(1)));
        }
        _ => panic!("expected a follower"),
    }

    let (_, left) = run_one_iteration(node, wait, &mut storage, &config(), &mut rng, &mut transport, &mut collector).unwrap();
    assert_eq!(left.nanos, wait.nanos - 40_000_000);
    assert_eq!(transport.waits.len(), 2);
    assert_eq!(transport.waits[1], wait);
}

#[test]
fn iteration_ends_with_the_transport() {
    let mut rng = ChaCha8Rng::seed_from_u64(9);
    let mut storage = MemoryStorage::at_term(3);
    let (node, _) = Node::new(ServerId(0), peers(&[1, 2]), &config(), &mut rng);
    let mut transport = ScriptedTransport::open();
    transport.incoming.push(Err(RaftTransportError::TransportShutdown));
    let mut collector = NoOpRaftEventCollector::new();
    let round = run_one_iteration(node, Duration::from_millis(0), &mut storage, &config(), &mut rng, &mut transport, &mut collector);
    assert!(matches!(round, Err(Stop::Transport(RaftTransportError::TransportShutdown))));
}

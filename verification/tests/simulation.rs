use raft_consensus::raft_thread::handle_wakeup;
use raft_consensus::raft_thread::Stop;
use raft_consensus::rpc_messages::ReplyTo;
use raft_consensus::rpc_messages::Request;
use raft_consensus::rpc_messages::RpcMessage;
use raft_consensus::server_set::ServerSet;
use raft_consensus::simulator::common::SimTime;
use raft_consensus::simulator::common::SimulatorAction;
use raft_consensus::simulator::common::SimulatorEvent;
use raft_consensus::simulator::common::WakeUpAtOrBefore;
use raft_consensus::simulator::invariant_checker::InvariantChecker;
use raft_consensus::simulator::scheduler::Move;
use raft_consensus::simulator::scheduler::Scheduler;
use raft_consensus::simulator::sim_network::Routing;
use raft_consensus::simulator::sim_network::SimNetwork;
use raft_consensus::state_machine::Node;
use raft_consensus::system_clock::Duration;
use raft_consensus::system_clock::Instant;
use raft_consensus::Election;
use raft_consensus::LogEntry;
use raft_consensus::LogIndex;
use raft_consensus::PersistentStorage;
use raft_consensus::PersistentStorageError;
use raft_consensus::Published;
use raft_consensus::RaftConfig;
use raft_consensus::RaftNodeState;
use raft_consensus::RaftStateEvent;
use raft_consensus::RaftStateEventCollector;
use raft_consensus::RaftTransportBridge;
use raft_consensus::RaftTransportError;
use raft_consensus::Sent;
use raft_consensus::ServerId;
use raft_consensus::TermIndex;
use raft_consensus::Waits;
use quickcheck::Arbitrary;
use quickcheck::Gen;
use quickcheck::QuickCheck;
use rand::RngCore;
use rand::SeedableRng;
use rand_chacha::ChaCha8Rng;
use rand_distr::Bernoulli;
use rand_distr::Distribution;
use rand_distr::LogNormal;
use std::sync::atomic::AtomicU64;
use std::sync::atomic::Ordering;
use std::sync::Arc;

/// Counts the operations on storage down, over all servers: the operation
/// that brings the count to zero fails, and the count starts again.
struct Faults {
    until_next: AtomicU64,
    every: AtomicU64,
}

impl Faults {
    fn none() -> Arc<Faults> {
        Arc::new(Faults { until_next: AtomicU64::new(u64::MAX), every: AtomicU64::new(u64::MAX) })
    }

    fn fail_every(&self, n: u64) {
        self.every.store(n, Ordering::Release);
        self.until_next.store(1, Ordering::Release);
    }

    fn fail_next(&self) {
        self.until_next.store(1, Ordering::Release);
    }

    fn restore(&self) {
        self.every.store(u64::MAX, Ordering::Release);
        self.until_next.store(u64::MAX, Ordering::Release);
    }
}

/// Storage that keeps its record in memory and takes the operations that a
/// file would take, each of which can be made to fail.
struct SimStorage {
    election: Election,
    durable: Election,
    faults: Arc<Faults>,
}

impl SimStorage {
    fn operation(&mut self) -> Result<(), PersistentStorageError> {
        if self.faults.until_next.fetch_sub(1, Ordering::AcqRel) == 1 {
            self.faults.until_next.store(self.faults.every.load(Ordering::Acquire), Ordering::Release);
            Err(PersistentStorageError::IoError)
        } else {
            Ok(())
        }
    }
}

impl PersistentStorage<u64> for SimStorage {
    fn election(&self) -> Election {
        self.election
    }
    fn durable(&self) -> Election {
        self.durable
    }
    fn current_term(&self) -> TermIndex {
        self.election.current_term()
    }
    fn voted_for_in_current_term(&self) -> Option<ServerId> {
        self.election.vote_for_current_term()
    }
    fn update_term(&mut self, term: TermIndex) {
        self.election.update_term(term);
    }
    fn record_vote(&mut self, voted_for: ServerId) {
        self.election.record_vote(voted_for);
    }
    fn last_entry_index(&self) -> Option<LogIndex> {
        None
    }
    fn has_entry(&self, _index: LogIndex, _term: TermIndex) -> bool {
        false
    }
    fn append(&mut self, _entries: Vec<LogEntry<u64>>) {}
    fn sync(&mut self) -> Result<(), PersistentStorageError> {
        // Rewind, write, flush.
        self.operation()?;
        self.operation()?;
        self.operation()?;
        self.durable = Election::from_bytes(&self.election.to_bytes()).unwrap();
        Ok(())
    }
}

struct Outbox {
    sent: Vec<RpcMessage<u64>>,
}

impl RaftTransportBridge<u64> for Outbox {
    fn sent(&self) -> Sent<u64> {
        unreachable!("only contracts speak of this")
    }
    fn waits(&self) -> Waits {
        unreachable!("only contracts speak of this")
    }
    fn wait_for_next_incoming_message(&mut self, _max_wait: Duration) -> Result<Option<RpcMessage<u64>>, RaftTransportError> {
        Ok(None)
    }
    fn enqueue_reply(&mut self, reply: ReplyTo) -> Result<(), RaftTransportError> {
        self.sent.push(RpcMessage::Reply(reply));
        Ok(())
    }
    fn enqueue_outgoing_request(&mut self, request: Request<u64>) -> Result<(), RaftTransportError> {
        self.sent.push(RpcMessage::Request(request));
        Ok(())
    }
}

struct Snapshots {
    events: Vec<RaftStateEvent>,
}

impl RaftStateEventCollector for Snapshots {
    fn published(&self) -> Published {
        unreachable!("only contracts speak of this")
    }
    fn push_event(&mut self, event: RaftStateEvent) {
        self.events.push(event);
    }
}

struct Process {
    id: ServerId,
    node: Option<Node>,
    storage: SimStorage,
    rng: ChaCha8Rng,
    max_wait: Duration,
    waiting_since: SimTime,
    restarts: u64,
}

struct Results {
    was_leader_elected: bool,
    all_elected_leaders: Vec<ServerId>,
}

struct ClusterSim {
    config: RaftConfig,
    scheduler: Scheduler<u64>,
    network: SimNetwork,
    checker: InvariantChecker,
    processes: Vec<Process>,
    rng: ChaCha8Rng,
    packet_loss: Bernoulli,
    latency: LogNormal<f64>,
    snapshots: Snapshots,
    results: Results,
    log: Vec<String>,
    terms_seen: Vec<(ServerId, TermIndex)>,
    faults: Arc<Faults>,
}

fn config() -> RaftConfig {
    RaftConfig {
        leader_heartbeat_interval: Duration::from_millis(100),
        min_election_timeout_ms: 150,
        max_election_timeout_ms: 300,
    }
}

fn instant(time: SimTime) -> Instant {
    Instant { nanos: time.0.nanos }
}

fn describe(message: &RpcMessage<u64>) -> String {
    format!("{} (req id: {:?})", describe_route(message), message.request_id())
}

fn describe_route(message: &RpcMessage<u64>) -> String {
    match message {
        RpcMessage::Request(Request::AppendEntries(request)) => {
            format!("AppendEntries from {:?} to {:?} for term {:?}", request.from, request.to, request.term)
        }
        RpcMessage::Request(Request::RequestVote(request)) => {
            format!("RequestVote from {:?} to {:?} for term {:?}", request.from, request.to, request.term)
        }
        RpcMessage::Reply(ReplyTo::AppendEntries(reply)) => {
            format!("AppendEntriesReply(success={}) from {:?} to {:?} for term {:?}", reply.success, reply.from, reply.to, reply.term)
        }
        RpcMessage::Reply(ReplyTo::RequestVote(reply)) => {
            format!("RequestVoteReply(vote_granted={}) from {:?} to {:?} for term {:?}", reply.vote_granted, reply.from, reply.to, reply.term)
        }
    }
}

impl ClusterSim {
    fn new(num_servers: u64, seed: u64, packet_loss: f64, mean_latency: f64, latency_std_dev: f64) -> ClusterSim {
        let rng = ChaCha8Rng::seed_from_u64(seed);
        let faults = Faults::none();
        let mut processes = Vec::new();
        for id in 0..num_servers {
            let mut node_rng = rng.clone();
            node_rng.set_stream(id);
            processes.push(Process {
                id: ServerId(id),
                node: None,
                storage: SimStorage { election: Election::new(), durable: Election::new(), faults: faults.clone() },
                rng: node_rng,
                max_wait: Duration::from_millis(0),
                waiting_since: SimTime::from_millis(0),
                restarts: 0,
            });
        }
        let mut sim = ClusterSim {
            config: config(),
            scheduler: Scheduler::new(),
            network: SimNetwork::with_defaults(num_servers),
            checker: InvariantChecker::new(),
            processes,
            rng,
            packet_loss: Bernoulli::new(packet_loss).unwrap(),
            latency: LogNormal::new(mean_latency.ln(), latency_std_dev).unwrap(),
            snapshots: Snapshots { events: Vec::new() },
            results: Results { was_leader_elected: false, all_elected_leaders: Vec::new() },
            log: Vec::new(),
            terms_seen: Vec::new(),
            faults,
        };
        for at in 0..sim.processes.len() {
            sim.start(at);
        }
        sim
    }

    fn now(&self) -> SimTime {
        self.scheduler.now()
    }

    /// Brings a process up with the record that its storage holds durably.
    fn start(&mut self, at: usize) {
        let now = self.now();
        let count = self.processes.len() as u64;
        let process = &mut self.processes[at];
        process.storage.election = process.storage.durable;
        let mut others = ServerSet::new();
        for id in 0..count {
            if id != process.id.0 {
                others.insert(ServerId(id));
            }
        }
        let (mut node, first) = Node::new(process.id, others, &self.config, &mut process.rng);
        node.update_clock(instant(now));
        if let Node::Follower(state) = &mut node {
            state.start_time = instant(now);
            state.inner.last_election_timer_started = instant(now);
        }
        process.node = Some(node);
        process.max_wait = first.0;
        process.waiting_since = now;
        self.ask_for_wake_up(at);
    }

    /// The time at which a process is woken. The simulated clock moves in
    /// steps of a millisecond at least: a process whose wait is over at this
    /// very moment is woken a millisecond later, since its timers fire
    /// strictly after their deadline.
    fn wake_up_time(process: &Process) -> SimTime {
        let wait = std::cmp::max(process.max_wait.nanos, 1_000_000);
        SimTime(Duration { nanos: process.waiting_since.0.nanos + wait })
    }

    fn ask_for_wake_up(&mut self, at: usize) {
        let due = ClusterSim::wake_up_time(&self.processes[at]);
        self.scheduler.request_wake_up(WakeUpAtOrBefore(due));
    }

    fn enqueue_event(&mut self, event: SimulatorEvent<u64>) {
        let line = match &event.action {
            SimulatorAction::SendOverNetwork(message) => format!(
                "TIME {}ms: SEND {} with latency {}ns",
                self.now().as_millis(),
                describe(message),
                event.time.0.nanos - self.now().0.nanos
            ),
            other => format!("TIME {}ms: QUEUED {:?}", self.now().as_millis(), other),
        };
        self.log.push(line);
        self.scheduler.enqueue_event(event).expect("an event must not be due in the past");
    }

    /// One round of one process: a tick, and the message if one came in.
    fn run_round(&mut self, at: usize, incoming: Option<RpcMessage<u64>>) {
        let now = self.now();
        let process = &mut self.processes[at];
        let node = match process.node.take() {
            Some(node) => node,
            None => return,
        };
        let waited = now.checked_sub(&process.waiting_since).unwrap();
        let mut outbox = Outbox { sent: Vec::new() };
        let round = handle_wakeup(
            node,
            process.max_wait,
            waited,
            instant(now),
            Ok(incoming),
            &mut process.storage,
            &self.config,
            &mut process.rng,
            &mut outbox,
            &mut self.snapshots,
        );
        match round {
            Ok((node, wait)) => {
                process.node = Some(node);
                process.max_wait = wait;
                process.waiting_since = now;
                self.ask_for_wake_up(at);
            }
            Err(Stop::Storage(_)) => {
                process.restarts += 1;
                self.log.push(format!("TIME {}ms: server {:?} lost its storage and comes up anew", now.as_millis(), process.id));
                self.start(at);
            }
            Err(stop) => panic!("server {:?} stopped: {:?}", self.processes[at].id, stop),
        }
        for message in outbox.sent {
            let lost = self.packet_loss.sample(&mut self.rng);
            let latency_ms = self.latency.sample(&mut self.rng) as u64;
            match self.network.route(message, now, lost, latency_ms) {
                Routing::Deliver(event) => self.enqueue_event(event),
                Routing::Drop(message) => {
                    self.log.push(format!("TIME {}ms: DROPPED {}", now.as_millis(), describe(&message)));
                }
                Routing::Unconnected(message) => panic!("no link for {}", describe(&message)),
            }
        }
    }

    fn check_invariants(&mut self) {
        let events: Vec<RaftStateEvent> = self.snapshots.events.drain(..).collect();
        for event in &events {
            // The checker's own view of the terms, kept once more by hand.
            match self.terms_seen.iter_mut().find(|(id, _)| *id == event.server_id) {
                Some((_, term)) => {
                    assert!(event.current_term.0 >= term.0);
                    *term = event.current_term;
                }
                None => self.terms_seen.push((event.server_id, event.current_term)),
            }
        }
        match self.checker.check_invariants(&events) {
            Ok(changed) => {
                if changed {
                    let mut states = self.checker.get_current_state();
                    states.sort_by_key(|state| state.server_id);
                    self.log.push(format!("TIME {}ms: ServerStates... {:?}", self.now().as_millis(), states));
                }
            }
            Err(violation) => panic!("CLUSTER INVARIANT VIOLATED: {:?}", violation),
        }
        if let Some(leader) = self.checker.get_current_leader() {
            self.results.was_leader_elected = true;
            if !self.results.all_elected_leaders.contains(&leader) {
                self.results.all_elected_leaders.push(leader);
            }
        }
    }

    fn run_step(&mut self) -> bool {
        match self.scheduler.step() {
            Move::WakeNodes(time) => {
                for at in 0..self.processes.len() {
                    if ClusterSim::wake_up_time(&self.processes[at]).at_or_before(&time) {
                        self.run_round(at, None);
                    }
                }
                self.check_invariants();
                true
            }
            Move::Process(event) => {
                match event.action {
                    SimulatorAction::SendOverNetwork(message) => {
                        self.log.push(format!("TIME {}ms: RECV {}", self.now().as_millis(), describe(&message)));
                        let to = message.to();
                        let at = self.processes.iter().position(|process| process.id == to).unwrap();
                        self.run_round(at, Some(message));
                    }
                    SimulatorAction::PartitionNetwork(partitions) => {
                        self.log.push(format!("TIME {}ms: PartitionNetwork {:?}", self.now().as_millis(), partitions));
                        self.network.partition_network(&partitions).unwrap();
                    }
                    SimulatorAction::HealNetworkPartition => {
                        self.log.push(format!("TIME {}ms: HealNetworkPartition", self.now().as_millis()));
                        self.network.heal_network_partition();
                    }
                    SimulatorAction::InjectIOFailureEveryNOps(n) => {
                        self.log.push(format!("TIME {}ms: InjectIOFaultEveryNOps({})", self.now().as_millis(), n));
                        self.faults.fail_every(n);
                    }
                    SimulatorAction::RestoreIOFunctioning => {
                        self.log.push(format!("TIME {}ms: RestoreIOFunctioning", self.now().as_millis()));
                        self.faults.restore();
                    }
                }
                self.check_invariants();
                true
            }
            Move::Idle => false,
        }
    }

    fn run_until_time(&mut self, millis: u64) {
        let end = SimTime::from_millis(millis);
        while self.now().at_or_before(&end) {
            let before = self.now();
            if !self.run_step() {
                break;
            }
            assert!(before.at_or_before(&self.now()), "simulated time went backwards");
        }
    }

    fn reset_results(&mut self) {
        self.results.was_leader_elected = false;
        self.results.all_elected_leaders.clear();
    }
}

fn group(ids: &[u64]) -> Vec<ServerId> {
    ids.iter().map(|id| ServerId(*id)).collect()
}

fn five_servers(seed: u64) -> ClusterSim {
    ClusterSim::new(5, seed, 0.01, 5.0, 2.0)
}

const SIMULATION_MILLIS: u64 = 300_000;

#[test]
fn should_elect_leader_without_network_partition() {
    let mut sim = five_servers(1);
    sim.run_until_time(SIMULATION_MILLIS);
    assert_eq!(sim.results.was_leader_elected, true);
}

#[test]
fn should_elect_leader_during_network_partition_if_we_have_quorum() {
    let mut sim = five_servers(2);
    let now = sim.now();
    sim.enqueue_event(SimulatorEvent {
        time: now,
        action: SimulatorAction::PartitionNetwork(vec![group(&[0, 1, 3]), group(&[2, 4])]),
    });
    sim.run_until_time(SIMULATION_MILLIS);
    assert_eq!(sim.results.was_leader_elected, true);
    // 2 and 4 are in a partition without quorum: neither can be elected.
    assert!(!sim.results.all_elected_leaders.contains(&ServerId(2)));
    assert!(!sim.results.all_elected_leaders.contains(&ServerId(4)));
}

#[test]
fn should_not_be_able_to_elect_leader_without_quorum() {
    let mut sim = five_servers(3);
    sim.enqueue_event(SimulatorEvent {
        time: SimTime::from_millis(0),
        action: SimulatorAction::PartitionNetwork(vec![group(&[0, 1]), group(&[2, 3]), group(&[4])]),
    });
    sim.run_until_time(SIMULATION_MILLIS);
    assert_eq!(sim.results.was_leader_elected, false);
}

#[test]
fn should_have_a_leader_again_after_the_partition_heals() {
    let mut sim = five_servers(4);
    sim.enqueue_event(SimulatorEvent {
        time: SimTime::from_millis(0),
        action: SimulatorAction::PartitionNetwork(vec![group(&[0, 1, 3]), group(&[2, 4])]),
    });
    sim.enqueue_event(SimulatorEvent { time: SimTime::from_millis(30_000), action: SimulatorAction::HealNetworkPartition });
    sim.run_until_time(29_999);
    // While the partition lasts, only the side with the quorum elects, and
    // the checker has seen to it that no term had two leaders.
    assert!(sim.results.was_leader_elected);
    for leader in &sim.results.all_elected_leaders {
        assert!([ServerId(0), ServerId(1), ServerId(3)].contains(leader));
    }
    let leading: Vec<RaftStateEvent> = sim
        .checker
        .get_current_state()
        .into_iter()
        .filter(|state| state.current_state == RaftNodeState::Leader)
        .collect();
    assert!(leading.len() <= 1 || leading.iter().all(|a| leading.iter().all(|b| a.server_id == b.server_id || a.current_term != b.current_term)));

    sim.run_until_time(40_000);
    sim.reset_results();
    sim.run_until_time(SIMULATION_MILLIS);
    assert!(sim.results.was_leader_elected);
}

#[test]
fn should_elect_leader_while_storage_fails_now_and_then() {
    let mut sim = five_servers(5);
    sim.enqueue_event(SimulatorEvent {
        time: SimTime::from_millis(5_000),
        action: SimulatorAction::InjectIOFailureEveryNOps(1000),
    });
    sim.run_until_time(60_000);
    assert!(sim.results.was_leader_elected);
}

#[test]
fn should_survive_storage_that_fails_often() {
    let mut sim = five_servers(6);
    sim.enqueue_event(SimulatorEvent {
        time: SimTime::from_millis(0),
        action: SimulatorAction::InjectIOFailureEveryNOps(7),
    });
    sim.enqueue_event(SimulatorEvent {
        time: SimTime::from_millis(0),
        action: SimulatorAction::PartitionNetwork(vec![group(&[0, 1, 2]), group(&[3, 4])]),
    });
    sim.enqueue_event(SimulatorEvent { time: SimTime::from_millis(20_000), action: SimulatorAction::HealNetworkPartition });
    sim.enqueue_event(SimulatorEvent { time: SimTime::from_millis(40_000), action: SimulatorAction::RestoreIOFunctioning });
    sim.run_until_time(60_000);
    let restarts: u64 = sim.processes.iter().map(|process| process.restarts).sum();
    assert!(restarts > 0);
    sim.reset_results();
    sim.run_until_time(120_000);
    assert!(sim.results.was_leader_elected);
}

#[test]
fn should_replay_the_same_log_from_the_same_seed() {
    let mut first = five_servers(42);
    first.run_until_time(20_000);
    let mut second = five_servers(42);
    second.run_until_time(20_000);
    assert!(first.log.len() > 100);
    assert_eq!(first.log, second.log);
    assert_eq!(first.log.join("\n").as_bytes(), second.log.join("\n").as_bytes());

    let mut other = five_servers(43);
    other.run_until_time(20_000);
    assert_ne!(first.log, other.log);
}

#[test]
fn terms_of_every_node_only_grow() {
    let mut sim = five_servers(7);
    sim.enqueue_event(SimulatorEvent {
        time: SimTime::from_millis(1_000),
        action: SimulatorAction::PartitionNetwork(vec![group(&[0]), group(&[1]), group(&[2]), group(&[3]), group(&[4])]),
    });
    sim.enqueue_event(SimulatorEvent { time: SimTime::from_millis(10_000), action: SimulatorAction::HealNetworkPartition });
    sim.run_until_time(20_000);
    assert_eq!(sim.terms_seen.len(), 5);
    for (_, term) in &sim.terms_seen {
        assert!(term.0 > 1);
    }
    let states = sim.checker.get_current_state();
    let leaders: Vec<&RaftStateEvent> = states.iter().filter(|state| state.current_state == RaftNodeState::Leader).collect();
    for a in &leaders {
        for b in &leaders {
            assert!(a.server_id == b.server_id || a.current_term != b.current_term);
        }
    }
    assert!(sim.results.was_leader_elected);
}

// Stateful tests: a sequence of instructions is drawn at random, and the
// simulation is run through it.
// - PartitionNetwork separates some servers from the rest of the cluster
// - HealNetworkPartition makes the network whole again
// - FailNextIOOperation lets the next operation on storage fail

#[derive(Debug, Clone)]
struct SimInstructionSequence {
    generated_state_changes: Vec<SimulatorEvent<u64>>,
    fail_next_io_operation: bool,
}

const NODES: [ServerId; 5] = [ServerId(0), ServerId(1), ServerId(2), ServerId(3), ServerId(4)];

const CLOCK_ADVANCE_CHOICES: [u64; 9] = [100, 500, 100, 1000, 500, 1000, 100, 5000, 10000];
const INSTRUCTION_PARTITION_NETWORK: &str = "PartitionNetwork";
const INSTRUCTION_HEAL_NETWORK_PARTITION: &str = "HealNetworkPartition";
const FAIL_NEXT_IO_OPERATION: &str = "FailNextIOOperation";

impl Arbitrary for SimInstructionSequence {
    fn arbitrary(g: &mut Gen) -> Self {
        let mut network_partition: Option<Vec<Vec<ServerId>>> = None;
        let mut sequence_of_events = Vec::<SimulatorEvent<u64>>::new();
        let mut fail_next_io_operation = false;
        let mut clock: u64 = 0;

        let num_instructions = g.size();
        for _ in 0..num_instructions {
            let mut options = vec![FAIL_NEXT_IO_OPERATION];
            match network_partition {
                Some(_) => options.push(INSTRUCTION_HEAL_NETWORK_PARTITION),
                None => options.push(INSTRUCTION_PARTITION_NETWORK),
            }

            let next_event_time = g.choose(CLOCK_ADVANCE_CHOICES.as_slice()).unwrap();
            clock = clock + *next_event_time;
            let next_event_type = g.choose(&options).unwrap();

            match *next_event_type {
                INSTRUCTION_PARTITION_NETWORK => {
                    let num_partitions = *g.choose(&[2usize, 3, 4, 5]).unwrap();
                    let mut partitions: Vec<Vec<ServerId>> = vec![Vec::new(); num_partitions];
                    let mut nodes_available: Vec<ServerId> = NODES.to_vec();
                    let mut current_partition = 0;
                    while nodes_available.len() > 0 {
                        let node = *g.choose(&nodes_available).unwrap();
                        partitions[current_partition].push(node);
                        nodes_available.retain(|other| *other != node);
                        current_partition += 1;
                        current_partition %= num_partitions;
                    }
                    sequence_of_events.push(SimulatorEvent {
                        time: SimTime::from_millis(clock),
                        action: SimulatorAction::PartitionNetwork(partitions.clone()),
                    });
                    network_partition = Some(partitions);
                }
                INSTRUCTION_HEAL_NETWORK_PARTITION => {
                    sequence_of_events.push(SimulatorEvent {
                        time: SimTime::from_millis(clock),
                        action: SimulatorAction::HealNetworkPartition,
                    });
                    network_partition = None;
                }
                FAIL_NEXT_IO_OPERATION => {
                    fail_next_io_operation = true;
                }
                _ => panic!("Unknown instruction type"),
            }
        }

        SimInstructionSequence { generated_state_changes: sequence_of_events, fail_next_io_operation }
    }

    fn shrink(&self) -> Box<dyn Iterator<Item = Self>> {
        quickcheck::empty_shrinker()
    }
}

fn new_seed(maybe_seed: Option<u64>) -> u64 {
    match maybe_seed {
        Some(seed) => seed,
        None => {
            let seed = ChaCha8Rng::from_entropy().next_u64();
            println!("====================================");
            println!("RNG SEED FOR TESTS: {seed}", seed = seed);
            println!("====================================");
            seed
        }
    }
}

fn run_simulation_with_sequence_of_events(events: SimInstructionSequence, maybe_rng_seed: Option<u64>) {
    let mut sim = five_servers(new_seed(maybe_rng_seed));
    if events.fail_next_io_operation {
        sim.faults.fail_next();
    }

    let run_until_time = events.generated_state_changes.iter().map(|e| e.time.as_millis() as u64).max().unwrap();
    for event in events.generated_state_changes {
        sim.enqueue_event(event);
    }
    sim.enqueue_event(SimulatorEvent {
        time: SimTime::from_millis(run_until_time),
        action: SimulatorAction::HealNetworkPartition,
    });

    sim.run_until_time(run_until_time + 60_000);
    assert_eq!(sim.results.was_leader_elected, true);
}

#[test]
fn test_with_quickcheck() {
    fn prop(instructions: SimInstructionSequence) {
        run_simulation_with_sequence_of_events(instructions, None)
    }

    QuickCheck::new().tests(10).quickcheck(prop as fn(SimInstructionSequence) -> ());
}

#[test]
fn test_with_example_sequence_of_events() {
    let maybe_sequence_of_events: Option<SimInstructionSequence> = None;
    let maybe_rng_seed: Option<u64> = None;

    if let Some(events) = maybe_sequence_of_events {
        run_simulation_with_sequence_of_events(events, maybe_rng_seed);
    }
}

/// Sends what `outbox` holds over `network`, with loss and latency drawn as
/// given, and returns the messages that arrive with their times.
fn get_all_queued_outbound_messages(
    network: &SimNetwork,
    outbox: &mut Outbox,
    rng: &mut ChaCha8Rng,
    packet_loss: f64,
    mean_latency: f64,
    latency_std_dev: f64,
) -> Vec<(RpcMessage<u64>, SimTime)> {
    let packet_loss = Bernoulli::new(packet_loss).unwrap();
    let latency = LogNormal::new(mean_latency.ln(), latency_std_dev).unwrap();
    let mut messages = Vec::new();
    for message in outbox.sent.drain(..) {
        let lost = packet_loss.sample(rng);
        let latency_ms = latency.sample(rng) as u64;
        if let Routing::Deliver(event) = network.route(message, SimTime::from_millis(0), lost, latency_ms) {
            if let SimulatorAction::SendOverNetwork(message) = event.action {
                messages.push((message, event.time));
            }
        }
    }
    messages
}

fn vote_request_from_0_to_1() -> Request<u64> {
    Request::RequestVote(raft_consensus::rpc_messages::RequestVote {
        request_id: uuid::Uuid::new_v4(),
        from: ServerId(0),
        to: ServerId(1),
        term: TermIndex(1),
        last_log_index: LogIndex(0),
        last_log_term: TermIndex(0),
    })
}

#[test]
fn it_should_return_a_vec_with_all_queued_outbound_messages_from_servers() {
    let mut rng = ChaCha8Rng::seed_from_u64(new_seed(None));
    let network = SimNetwork::with_defaults(2);
    let mut originating_server_transport = Outbox { sent: Vec::new() };

    let outgoing_message = vote_request_from_0_to_1();
    let expected_message = outgoing_message.clone();

    if let Err(_) = originating_server_transport.enqueue_outgoing_request(outgoing_message) {
        panic!("Could not enqueue outgoing request! (transport shutdown)");
    }

    let messages = get_all_queued_outbound_messages(&network, &mut originating_server_transport, &mut rng, 0.0, 0.0, 0.0);
    assert_eq!(messages.len(), 1);

    let (message, _) = messages.get(0).unwrap();
    match message {
        RpcMessage::Request(request) => {
            assert_eq!(request, &expected_message);
        }
        _ => panic!("Expected a request from node"),
    }
}

#[test]
fn it_should_drop_messages_if_servers_are_in_different_network_partitions() {
    let mut rng = ChaCha8Rng::seed_from_u64(new_seed(None));
    let network = SimNetwork::with_defaults(2);
    let mut originating_server_transport = Outbox { sent: Vec::new() };

    if let Err(_) = originating_server_transport.enqueue_outgoing_request(vote_request_from_0_to_1()) {
        panic!("Could not enqueue outgoing request! (transport shutdown)");
    }

    let messages = get_all_queued_outbound_messages(&network, &mut originating_server_transport, &mut rng, 1.0, 0.0, 0.0);
    assert_eq!(messages.len(), 0);

    // The same holds of a link that a partition has cut, whatever is drawn.
    let mut network = SimNetwork::with_defaults(2);
    network.partition_network(&vec![group(&[0]), group(&[1])]).unwrap();
    originating_server_transport.enqueue_outgoing_request(vote_request_from_0_to_1()).unwrap();
    let messages = get_all_queued_outbound_messages(&network, &mut originating_server_transport, &mut rng, 0.0, 0.0, 0.0);
    assert_eq!(messages.len(), 0);
}

use raft_consensus::rpc_messages::ReplyTo;
use raft_consensus::rpc_messages::RpcMessage;
use raft_consensus::rpc_messages::Vote;
use raft_consensus::simulator::common::SimTime;
use raft_consensus::simulator::common::SimulatorAction;
use raft_consensus::simulator::common::SimulatorEvent;
use raft_consensus::simulator::common::WakeUpAtOrBefore;
use raft_consensus::simulator::invariant_checker::InvariantChecker;
use raft_consensus::simulator::invariant_checker::Violation;
use raft_consensus::simulator::scheduler::EventInThePast;
use raft_consensus::simulator::scheduler::Move;
use raft_consensus::simulator::scheduler::Scheduler;
use raft_consensus::simulator::sim_network::Link;
use raft_consensus::simulator::sim_network::PartitionError;
use raft_consensus::simulator::sim_network::Routing;
use raft_consensus::simulator::sim_network::SimNetwork;
use raft_consensus::system_clock::Duration;
use raft_consensus::RaftNodeState;
use raft_consensus::RaftStateEvent;
use raft_consensus::ServerId;
use raft_consensus::TermIndex;
use uuid::Uuid;

fn at(millis: u64) -> SimTime {
    SimTime::from_millis(millis)
}

fn heal_at(millis: u64) -> SimulatorEvent<u64> {
    SimulatorEvent { time: at(millis), action: SimulatorAction::HealNetworkPartition }
}

fn faults_at(millis: u64, every: u64) -> SimulatorEvent<u64> {
    SimulatorEvent { time: at(millis), action: SimulatorAction::InjectIOFailureEveryNOps(every) }
}

fn vote(from: u64, to: u64) -> RpcMessage<u64> {
    RpcMessage::Reply(ReplyTo::RequestVote(Vote {
        request_id: Uuid::new_v4(),
        from: ServerId(from),
        to: ServerId(to),
        term: TermIndex(1),
        vote_granted: true,
    }))
}

fn group(ids: &[u64]) -> Vec<ServerId> {
    ids.iter().map(|id| ServerId(*id)).collect()
}

fn snapshot(server: u64, state: RaftNodeState, term: u64, leader: Option<u64>) -> RaftStateEvent {
    RaftStateEvent {
        server_id: ServerId(server),
        current_state: state,
        current_term: TermIndex(term),
        voted_for: None,
        leader_for_term: leader.map(ServerId),
    }
}

#[test]
fn sim_time_arithmetic() {
    assert_eq!(at(7).as_millis(), 7);
    assert_eq!(at(7).0, Duration::from_millis(7));
    assert_eq!(at(7).checked_sub(&at(3)), Some(Duration::from_millis(4)));
    assert_eq!(at(3).checked_sub(&at(7)), None);
    assert_eq!(at(3).after_millis(4), Some(at(7)));
    assert_eq!(SimTime(Duration { nanos: u128::MAX }).after_millis(1), None);
    assert!(at(3).at_or_before(&at(3)));
    assert!(!at(4).at_or_before(&at(3)));
}

#[test]
fn scheduler_processes_events_by_time_and_ties_by_arrival() {
    let mut scheduler: Scheduler<u64> = Scheduler::new();
    scheduler.enqueue_event(faults_at(30, 1)).unwrap();
    scheduler.enqueue_event(faults_at(10, 2)).unwrap();
    scheduler.enqueue_event(faults_at(10, 3)).unwrap();
    scheduler.enqueue_event(faults_at(20, 4)).unwrap();
    assert_eq!(scheduler.pending_events(), 4);
    assert_eq!(scheduler.next_event_time(), Some(at(10)));
    let mut order = Vec::new();
    loop {
        match scheduler.step() {
            Move::Process(SimulatorEvent { time, action: SimulatorAction::InjectIOFailureEveryNOps(n) }) => {
                assert_eq!(scheduler.now(), time);
                order.push((time.as_millis(), n));
            }
            Move::Idle => break,
            other => panic!("unexpected {:?}", other),
        }
    }
    assert_eq!(order, vec![(10, 2), (10, 3), (20, 4), (30, 1)]);
    assert_eq!(scheduler.now(), at(30));
    assert_eq!(scheduler.next_event_time(), None);
}

#[test]
fn scheduler_refuses_an_event_in_the_past() {
    let mut scheduler: Scheduler<u64> = Scheduler::new();
    scheduler.enqueue_event(heal_at(10)).unwrap();
    assert!(matches!(scheduler.step(), Move::Process(_)));
    assert_eq!(scheduler.enqueue_event(heal_at(9)), Err(EventInThePast { due: at(9), now: at(10) }));
    assert_eq!(scheduler.pending_events(), 0);
    assert_eq!(scheduler.enqueue_event(heal_at(10)), Ok(()));
}

#[test]
fn scheduler_wakes_nodes_no_later_than_the_next_event() {
    let mut scheduler: Scheduler<u64> = Scheduler::new();
    scheduler.enqueue_event(heal_at(10)).unwrap();
    scheduler.request_wake_up(WakeUpAtOrBefore(at(10)));
    scheduler.request_wake_up(WakeUpAtOrBefore(at(5)));
    scheduler.request_wake_up(WakeUpAtOrBefore(at(5)));
    scheduler.request_wake_up(WakeUpAtOrBefore(at(11)));
    assert!(matches!(scheduler.step(), Move::WakeNodes(time) if time == at(5)));
    assert_eq!(scheduler.now(), at(5));
    // A wake-up at the time of an event comes before the event.
    assert!(matches!(scheduler.step(), Move::WakeNodes(time) if time == at(10)));
    assert!(matches!(scheduler.step(), Move::Process(_)));
    assert!(matches!(scheduler.step(), Move::WakeNodes(time) if time == at(11)));
    assert!(matches!(scheduler.step(), Move::Idle));
    assert_eq!(scheduler.now(), at(11));
}

#[test]
fn scheduler_never_wakes_earlier_than_now() {
    let mut scheduler: Scheduler<u64> = Scheduler::new();
    scheduler.enqueue_event(heal_at(10)).unwrap();
    assert!(matches!(scheduler.step(), Move::Process(_)));
    scheduler.request_wake_up(WakeUpAtOrBefore(at(3)));
    assert!(matches!(scheduler.step(), Move::WakeNodes(time) if time == at(10)));
    assert_eq!(scheduler.now(), at(10));
    assert!(matches!(scheduler.step(), Move::Idle));
}

#[test]
fn network_links_every_server_with_every_other() {
    let network = SimNetwork::with_defaults(3);
    assert_eq!(network.links().len(), 6);
    for from in 0..3 {
        for to in 0..3 {
            let expected = if from == to { None } else { Some(false) };
            assert_eq!(network.is_cut(ServerId(from), ServerId(to)), expected);
        }
    }
    assert_eq!(network.is_cut(ServerId(0), ServerId(3)), None);
    assert_eq!(network.links()[0], Link { from: ServerId(0), to: ServerId(1), cut: false });
}

#[test]
fn partition_cuts_the_links_between_groups_and_heal_restores_them() {
    let mut network = SimNetwork::with_defaults(5);
    network.partition_network(&vec![group(&[0, 1, 3]), group(&[2, 4])]).unwrap();
    for from in 0..5u64 {
        for to in 0..5u64 {
            if from != to {
                let together = [0, 1, 3].contains(&from) == [0, 1, 3].contains(&to);
                assert_eq!(network.is_cut(ServerId(from), ServerId(to)), Some(!together));
            }
        }
    }
    // A second partition cuts more and restores nothing.
    network.partition_network(&vec![group(&[0, 1, 2, 3]), group(&[4])]).unwrap();
    assert_eq!(network.is_cut(ServerId(0), ServerId(2)), Some(true));
    assert_eq!(network.is_cut(ServerId(2), ServerId(4)), Some(true));
    assert_eq!(network.is_cut(ServerId(0), ServerId(1)), Some(false));

    network.heal_network_partition();
    for link in network.links() {
        assert!(!link.cut);
    }
    assert_eq!(network.links().len(), 20);
}

#[test]
fn partition_must_list_every_server_once() {
    let mut network = SimNetwork::with_defaults(3);
    assert_eq!(
        network.partition_network(&vec![group(&[0, 1]), group(&[1, 2])]),
        Err(PartitionError::ServerInSeveralPartitions(ServerId(1)))
    );
    assert_eq!(
        network.partition_network(&vec![group(&[0, 2, 2]), group(&[1])]),
        Err(PartitionError::ServerInSeveralPartitions(ServerId(2)))
    );
    assert_eq!(
        network.partition_network(&vec![group(&[0]), group(&[2])]),
        Err(PartitionError::ServerInNoPartition(ServerId(1)))
    );
    for link in network.links() {
        assert!(!link.cut);
    }
    // A server without links may be listed.
    assert_eq!(network.partition_network(&vec![group(&[0, 1, 2, 9])]), Ok(()));
}

#[test]
fn routing_delivers_after_the_latency_unless_the_message_is_lost() {
    let mut network = SimNetwork::with_defaults(3);
    match network.route(vote(0, 1), at(100), false, 7) {
        Routing::Deliver(SimulatorEvent { time, action: SimulatorAction::SendOverNetwork(message) }) => {
            assert_eq!(time, at(107));
            assert_eq!(message.from(), ServerId(0));
            assert_eq!(message.to(), ServerId(1));
        }
        other => panic!("unexpected {:?}", other),
    }
    assert!(matches!(network.route(vote(0, 1), at(100), true, 7), Routing::Drop(_)));
    assert!(matches!(network.route(vote(0, 3), at(100), false, 7), Routing::Unconnected(_)));
    assert!(matches!(network.route(vote(1, 1), at(100), false, 7), Routing::Unconnected(_)));

    network.partition_network(&vec![group(&[0]), group(&[1, 2])]).unwrap();
    assert!(matches!(network.route(vote(0, 1), at(100), false, 7), Routing::Drop(_)));
    assert!(matches!(network.route(vote(1, 0), at(100), false, 7), Routing::Drop(_)));
    assert!(matches!(network.route(vote(1, 2), at(100), false, 0), Routing::Deliver(event) if event.time == at(100)));
}

#[test]
fn checker_keeps_the_latest_snapshot_of_every_server() {
    let mut checker = InvariantChecker::new();
    assert_eq!(checker.get_current_leader(), None);
    assert_eq!(checker.observe(snapshot(1, RaftNodeState::Follower, 0, None)), Ok(true));
    assert_eq!(checker.observe(snapshot(0, RaftNodeState::Candidate, 1, None)), Ok(true));
    assert_eq!(checker.observe(snapshot(0, RaftNodeState::Candidate, 1, None)), Ok(false));
    assert_eq!(checker.observe(snapshot(0, RaftNodeState::Leader, 1, Some(0))), Ok(true));
    assert_eq!(
        checker.get_current_state(),
        vec![snapshot(1, RaftNodeState::Follower, 0, None), snapshot(0, RaftNodeState::Leader, 1, Some(0))]
    );
    assert_eq!(checker.get_current_leader(), Some(ServerId(0)));
    assert_eq!(checker.assert_at_most_one_leader_in_term(), Ok(()));
}

#[test]
fn checker_reports_a_term_that_went_back() {
    let mut checker = InvariantChecker::new();
    checker.observe(snapshot(0, RaftNodeState::Follower, 4, None)).unwrap();
    let late = snapshot(0, RaftNodeState::Follower, 3, None);
    let violation = Violation::TermWentBack { server: ServerId(0), old: TermIndex(4), new: TermIndex(3) };
    assert_eq!(checker.check_state_change_invariants(&late), Err(violation));
    assert_eq!(checker.observe(late), Err(violation));
    assert_eq!(checker.get_current_state(), vec![snapshot(0, RaftNodeState::Follower, 4, None)]);
    assert_eq!(checker.check_state_change_invariants(&snapshot(0, RaftNodeState::Follower, 4, None)), Ok(()));
    assert_eq!(checker.check_state_change_invariants(&snapshot(1, RaftNodeState::Follower, 0, None)), Ok(()));

    let batch = vec![
        snapshot(1, RaftNodeState::Follower, 2, None),
        snapshot(1, RaftNodeState::Follower, 1, None),
        snapshot(2, RaftNodeState::Follower, 1, None),
    ];
    assert_eq!(
        checker.check_invariants(&batch),
        Err(Violation::TermWentBack { server: ServerId(1), old: TermIndex(2), new: TermIndex(1) })
    );
    assert_eq!(checker.get_current_state().len(), 2);
}

#[test]
fn checker_reports_two_leaders_of_one_term() {
    let mut checker = InvariantChecker::new();
    let batch = vec![
        snapshot(0, RaftNodeState::Leader, 3, Some(0)),
        snapshot(1, RaftNodeState::Leader, 4, Some(1)),
        snapshot(2, RaftNodeState::Follower, 4, Some(1)),
    ];
    assert_eq!(checker.check_invariants(&batch), Ok(true));
    assert_eq!(checker.check_invariants(&Vec::new()), Ok(false));
    assert_eq!(checker.check_invariants(&batch), Ok(false));
    assert_eq!(
        checker.check_invariants(&vec![snapshot(2, RaftNodeState::Leader, 4, Some(2))]),
        Err(Violation::TwoLeadersInTerm { term: TermIndex(4), first: ServerId(1), second: ServerId(2) })
    );
}

#[test]
fn checker_reports_nodes_that_name_different_leaders() {
    let mut checker = InvariantChecker::new();
    let batch = vec![
        snapshot(0, RaftNodeState::Follower, 4, Some(1)),
        snapshot(2, RaftNodeState::Follower, 5, Some(3)),
        snapshot(3, RaftNodeState::Follower, 4, None),
    ];
    assert_eq!(checker.check_invariants(&batch), Ok(true));
    assert_eq!(
        checker.check_invariants(&vec![snapshot(3, RaftNodeState::Follower, 4, Some(2))]),
        Err(Violation::LeadersDisagree { term: TermIndex(4), first: ServerId(1), second: ServerId(2) })
    );
}

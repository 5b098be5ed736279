//! Watches the snapshots that the nodes of a cluster publish and says when
//! they cannot come from a safe election.
//!
//! Three things are looked at: that the term of a node never goes back, that
//! no two nodes lead the same term, and that no two nodes of one term name
//! different leaders.

use vstd::prelude::*;
use crate::common::ServerId;
use crate::common::TermIndex;
use crate::raft_thread::RaftNodeState;
use crate::raft_thread::RaftStateEvent;

verus! {

/// What the checker found wrong.
#[derive(Debug, Clone, Copy, PartialEq, Eq)]
pub enum Violation {
    /// The term of `server` went from `old` back to `new`.
    TermWentBack { server: ServerId, old: TermIndex, new: TermIndex },
    /// `first` and `second` both lead `term`.
    TwoLeadersInTerm { term: TermIndex, first: ServerId, second: ServerId },
    /// In `term`, one node names `first` as the leader and another `second`.
    LeadersDisagree { term: TermIndex, first: ServerId, second: ServerId },
}

/// No two of `states` belong to the same server.
pub open spec fn one_state_per_server(states: Seq<RaftStateEvent>) -> bool {
    forall|i: int, j: int|
        0 <= i < states.len() && 0 <= j < states.len() && i != j ==> states[i].server_id
            != states[j].server_id
}

/// Whether the nodes behind `a` and `b` both lead one term though they are
/// not the same server.
pub open spec fn both_lead(a: RaftStateEvent, b: RaftStateEvent) -> bool {
    &&& a.current_state == RaftNodeState::Leader
    &&& b.current_state == RaftNodeState::Leader
    &&& a.current_term == b.current_term
    &&& a.server_id != b.server_id
}

/// Whether the nodes behind `a` and `b` are in one term and name different
/// leaders for it.
pub open spec fn name_different_leaders(a: RaftStateEvent, b: RaftStateEvent) -> bool {
    &&& a.current_term == b.current_term
    &&& a.leader_for_term matches Some(first)
    &&& b.leader_for_term matches Some(second)
    &&& first != second
}

/// Election safety: every term has at most one leader among `states`.
pub open spec fn at_most_one_leader_per_term(states: Seq<RaftStateEvent>) -> bool {
    forall|i: int, j: int|
        0 <= i < states.len() && 0 <= j < states.len() ==> !both_lead(
            #[trigger] states[i],
            #[trigger] states[j],
        )
}

/// Leader agreement: in every term, the nodes among `states` that name a
/// leader name the same one.
pub open spec fn at_most_one_named_leader_per_term(states: Seq<RaftStateEvent>) -> bool {
    forall|i: int, j: int|
        0 <= i < states.len() && 0 <= j < states.len() ==> !name_different_leaders(
            #[trigger] states[i],
            #[trigger] states[j],
        )
}

/// The place of `server` among `states`, where it has one.
pub open spec fn place_of(states: Seq<RaftStateEvent>, server: ServerId) -> Option<int> {
    if exists|i: int| 0 <= i < states.len() && states[i].server_id == server {
        Some(choose|i: int| 0 <= i < states.len() && states[i].server_id == server)
    } else {
        None
    }
}

/// Whether the term of `event` is behind the term that its server has among
/// `states`.
pub open spec fn goes_back(states: Seq<RaftStateEvent>, event: RaftStateEvent) -> bool {
    place_of(states, event.server_id) matches Some(i) && event.current_term.0
        < states[i].current_term.0
}

/// The snapshots once `event` is taken in: it replaces the snapshot of its
/// server, or goes last where the server is new.
pub open spec fn taken_in(states: Seq<RaftStateEvent>, event: RaftStateEvent) -> Seq<
    RaftStateEvent,
> {
    match place_of(states, event.server_id) {
        Some(i) => states.update(i, event),
        None => states.push(event),
    }
}

/// The snapshots once all of `events` are taken in, in their order.
pub open spec fn all_taken_in(states: Seq<RaftStateEvent>, events: Seq<RaftStateEvent>) -> Seq<
    RaftStateEvent,
>
    decreases events.len(),
{
    if events.len() == 0 {
        states
    } else {
        taken_in(all_taken_in(states, events.drop_last()), events.last())
    }
}

/// Whether no term goes back while `events` are taken in, in their order.
pub open spec fn terms_hold(states: Seq<RaftStateEvent>, events: Seq<RaftStateEvent>) -> bool
    decreases events.len(),
{
    events.len() == 0 || (terms_hold(states, events.drop_last()) && !goes_back(
        all_taken_in(states, events.drop_last()),
        events.last(),
    ))
}

/// Keeps the latest snapshot of every server that has published one, in the
/// order in which the servers first showed up.
#[derive(Debug)]
pub struct InvariantChecker {
    server_states: Vec<RaftStateEvent>,
}

impl View for InvariantChecker {
    type V = Seq<RaftStateEvent>;

    closed spec fn view(&self) -> Seq<RaftStateEvent> {
        self.server_states@
    }
}

impl InvariantChecker {
    /// Every server has one snapshot at most.
    pub open spec fn wf(&self) -> bool {
        one_state_per_server(self@)
    }

    /// A checker that has seen nothing.
    pub fn new() -> (checker: Self)
        ensures
            checker@ == Seq::<RaftStateEvent>::empty(),
            checker.wf(),
    {
        InvariantChecker { server_states: Vec::new() }
    }

    /// The latest snapshot of every server.
    pub fn get_current_state(&self) -> (states: Vec<RaftStateEvent>)
        ensures
            states@ == self@,
    {
        let mut states = Vec::new();
        let mut i: usize = 0;
        while i < self.server_states.len()
            invariant
                i <= self.server_states@.len(),
                states@ == self.server_states@.take(i as int),
            decreases self.server_states@.len() - i,
        {
            states.push(self.server_states[i]);
            proof {
                assert(self.server_states@.take(i + 1) =~= self.server_states@.take(i as int).push(
                    self.server_states@[i as int],
                ));
            }
            i += 1;
        }
        proof {
            assert(self.server_states@.take(self.server_states@.len() as int)
                =~= self.server_states@);
        }
        states
    }

    /// A server that leads by its latest snapshot: the first such in the
    /// order of the servers, `None` where no server leads.
    pub fn get_current_leader(&self) -> (leader: Option<ServerId>)
        ensures
            match leader {
                Some(id) => exists|i: int|
                    {
                        &&& 0 <= i < self@.len()
                        &&& #[trigger] self@[i].current_state == RaftNodeState::Leader
                        &&& self@[i].server_id == id
                        &&& forall|j: int|
                            0 <= j < i ==> #[trigger] self@[j].current_state
                                != RaftNodeState::Leader
                    },
                None => forall|i: int|
                    0 <= i < self@.len() ==> #[trigger] self@[i].current_state
                        != RaftNodeState::Leader,
            },
    {
        let mut i: usize = 0;
        while i < self.server_states.len()
            invariant
                i <= self.server_states@.len(),
                forall|j: int|
                    0 <= j < i ==> #[trigger] self.server_states@[j].current_state
                        != RaftNodeState::Leader,
            decreases self.server_states@.len() - i,
        {
            if self.server_states[i].current_state == RaftNodeState::Leader {
                return Some(self.server_states[i].server_id);
            }
            i += 1;
        }
        None
    }

    /// The place of the snapshot of `server`.
    fn find(&self, server: ServerId) -> (place: Option<usize>)
        ensures
            match place {
                Some(i) => i < self@.len() && self@[i as int].server_id == server,
                None => forall|i: int| 0 <= i < self@.len() ==> self@[i].server_id != server,
            },
    {
        let mut i: usize = 0;
        while i < self.server_states.len()
            invariant
                i <= self.server_states@.len(),
                forall|j: int| 0 <= j < i ==> self.server_states@[j].server_id != server,
            decreases self.server_states@.len() - i,
        {
            if self.server_states[i].server_id == server {
                return Some(i);
            }
            i += 1;
        }
        None
    }

    /// Checks one snapshot against the one that its server published before:
    /// the term must not have gone back.
    pub fn check_state_change_invariants(&self, event: &RaftStateEvent) -> (checked: Result<
        (),
        Violation,
    >)
        requires
            self.wf(),
        ensures
            checked == match place_of(self@, event.server_id) {
                Some(i) => if event.current_term.0 >= self@[i].current_term.0 {
                    Ok::<(), Violation>(())
                } else {
                    Err(
                        Violation::TermWentBack {
                            server: event.server_id,
                            old: self@[i].current_term,
                            new: event.current_term,
                        },
                    )
                },
                None => Ok(()),
            },
    {
        match self.find(event.server_id) {
            Some(i) => {
                let old_state = self.server_states[i];
                proof {
                    let chosen = place_of(self@, event.server_id).unwrap();
                    assert(chosen == i);
                }
                if event.current_term.0 >= old_state.current_term.0 {
                    Ok(())
                } else {
                    Err(
                        Violation::TermWentBack {
                            server: event.server_id,
                            old: old_state.current_term,
                            new: event.current_term,
                        },
                    )
                }
            },
            None => Ok(()),
        }
    }

    /// Takes a snapshot in: it replaces the one that its server published
    /// before, or goes last where the server is new. Says whether anything
    /// changed. A snapshot whose term went back is refused and changes
    /// nothing.
    pub fn observe(&mut self, event: RaftStateEvent) -> (observed: Result<bool, Violation>)
        requires
            old(self).wf(),
        ensures
            final(self).wf(),
            if goes_back(old(self)@, event) {
                &&& final(self)@ == old(self)@
                &&& observed == Err::<bool, Violation>(
                    Violation::TermWentBack {
                        server: event.server_id,
                        old: old(self)@[place_of(old(self)@, event.server_id).unwrap()].current_term,
                        new: event.current_term,
                    },
                )
            } else {
                &&& final(self)@ == taken_in(old(self)@, event)
                &&& observed == Ok::<bool, Violation>(final(self)@ != old(self)@)
            },
    {
        match self.check_state_change_invariants(&event) {
            Err(violation) => {
                return Err(violation);
            },
            Ok(()) => {},
        }
        match self.find(event.server_id) {
            Some(i) => {
                proof {
                    let chosen = place_of(self@, event.server_id).unwrap();
                    assert(chosen == i);
                }
                let changed = !same_state(&self.server_states[i], &event);
                self.server_states.set(i, event);
                proof {
                    if changed {
                        assert(self@[i as int] != old(self)@[i as int]);
                    } else {
                        assert(self@ =~= old(self)@);
                    }
                }
                Ok(changed)
            },
            None => {
                self.server_states.push(event);
                proof {
                    assert(self@.len() != old(self)@.len());
                }
                Ok(true)
            },
        }
    }

    /// Checks the latest snapshots against each other: no two servers may
    /// lead one term, and no two servers of one term may name different
    /// leaders. Where both fail, two leaders of one term are reported.
    pub fn assert_at_most_one_leader_in_term(&self) -> (checked: Result<(), Violation>)
        ensures
            checked is Ok <==> at_most_one_leader_per_term(self@)
                && at_most_one_named_leader_per_term(self@),
            match checked {
                Ok(()) => true,
                Err(Violation::TwoLeadersInTerm { term, first, second }) => exists|i: int, j: int|
                    0 <= i < self@.len() && 0 <= j < self@.len() && both_lead(
                        #[trigger] self@[i],
                        #[trigger] self@[j],
                    ) && self@[i].current_term == term && self@[i].server_id == first
                        && self@[j].server_id == second,
                Err(Violation::LeadersDisagree { term, first, second }) => {
                    &&& at_most_one_leader_per_term(self@)
                    &&& exists|i: int, j: int|
                        0 <= i < self@.len() && 0 <= j < self@.len() && name_different_leaders(
                            #[trigger] self@[i],
                            #[trigger] self@[j],
                        ) && self@[i].current_term == term && self@[i].leader_for_term == Some(
                            first,
                        ) && self@[j].leader_for_term == Some(second)
                },
                Err(Violation::TermWentBack { .. }) => false,
            },
    {
        let n = self.server_states.len();
        let mut i: usize = 0;
        while i < n
            invariant
                n == self.server_states@.len(),
                i <= n,
                forall|a: int, b: int|
                    0 <= a < i && 0 <= b < n ==> !both_lead(
                        #[trigger] self.server_states@[a],
                        #[trigger] self.server_states@[b],
                    ),
            decreases n - i,
        {
            let mut j: usize = 0;
            while j < n
                invariant
                    n == self.server_states@.len(),
                    i < n,
                    j <= n,
                    forall|a: int, b: int|
                        0 <= a < i && 0 <= b < n ==> !both_lead(
                            #[trigger] self.server_states@[a],
                            #[trigger] self.server_states@[b],
                        ),
                    forall|b: int|
                        0 <= b < j ==> !both_lead(
                            self.server_states@[i as int],
                            #[trigger] self.server_states@[b],
                        ),
                decreases n - j,
            {
                let a = self.server_states[i];
                let b = self.server_states[j];
                if a.current_state == RaftNodeState::Leader && b.current_state
                    == RaftNodeState::Leader && a.current_term == b.current_term && a.server_id
                    != b.server_id {
                    return Err(
                        Violation::TwoLeadersInTerm {
                            term: a.current_term,
                            first: a.server_id,
                            second: b.server_id,
                        },
                    );
                }
                j += 1;
            }
            i += 1;
        }
        let mut i: usize = 0;
        while i < n
            invariant
                n == self.server_states@.len(),
                i <= n,
                at_most_one_leader_per_term(self.server_states@),
                forall|a: int, b: int|
                    0 <= a < i && 0 <= b < n ==> !name_different_leaders(
                        #[trigger] self.server_states@[a],
                        #[trigger] self.server_states@[b],
                    ),
            decreases n - i,
        {
            let mut j: usize = 0;
            while j < n
                invariant
                    n == self.server_states@.len(),
                    i < n,
                    j <= n,
                    at_most_one_leader_per_term(self.server_states@),
                    forall|a: int, b: int|
                        0 <= a < i && 0 <= b < n ==> !name_different_leaders(
                            #[trigger] self.server_states@[a],
                            #[trigger] self.server_states@[b],
                        ),
                    forall|b: int|
                        0 <= b < j ==> !name_different_leaders(
                            self.server_states@[i as int],
                            #[trigger] self.server_states@[b],
                        ),
                decreases n - j,
            {
                let a = self.server_states[i];
                let b = self.server_states[j];
                if a.current_term == b.current_term {
                    match (a.leader_for_term, b.leader_for_term) {
                        (Some(first), Some(second)) => {
                            if first != second {
                                return Err(
                                    Violation::LeadersDisagree {
                                        term: a.current_term,
                                        first,
                                        second,
                                    },
                                );
                            }
                        },
                        _ => {},
                    }
                }
                j += 1;
            }
            i += 1;
        }
        Ok(())
    }

    /// Takes a batch of snapshots in, in their order, and then checks the
    /// latest snapshots against each other. Stops at the first snapshot
    /// whose term went back, with the snapshots before it taken in. Says
    /// whether the batch changed anything.
    pub fn check_invariants(&mut self, events: &Vec<RaftStateEvent>) -> (checked: Result<
        bool,
        Violation,
    >)
        requires
            old(self).wf(),
        ensures
            final(self).wf(),
            checked is Ok <==> terms_hold(old(self)@, events@) && at_most_one_leader_per_term(
                all_taken_in(old(self)@, events@),
            ) && at_most_one_named_leader_per_term(all_taken_in(old(self)@, events@)),
            match checked {
                Ok(changed) => {
                    &&& final(self)@ == all_taken_in(old(self)@, events@)
                    &&& changed == (final(self)@ != old(self)@)
                },
                Err(Violation::TermWentBack { .. }) => exists|k: int|
                    {
                        &&& 0 <= k < events@.len()
                        &&& terms_hold(old(self)@, events@.take(k))
                        &&& goes_back(#[trigger] all_taken_in(old(self)@, events@.take(k)), events@[k])
                        &&& final(self)@ == all_taken_in(old(self)@, events@.take(k))
                    },
                Err(_) => {
                    &&& terms_hold(old(self)@, events@)
                    &&& final(self)@ == all_taken_in(old(self)@, events@)
                },
            },
    {
        let before = self.get_current_state();
        let mut i: usize = 0;
        proof {
            assert(events@.take(0) =~= Seq::<RaftStateEvent>::empty());
        }
        while i < events.len()
            invariant
                i <= events@.len(),
                self.wf(),
                before@ == old(self)@,
                terms_hold(old(self)@, events@.take(i as int)),
                self@ == all_taken_in(old(self)@, events@.take(i as int)),
            decreases events@.len() - i,
        {
            proof {
                assert(events@.take(i + 1).drop_last() =~= events@.take(i as int));
                assert(events@.take(i + 1).last() == events@[i as int]);
            }
            match self.observe(events[i]) {
                Ok(_) => {},
                Err(violation) => {
                    proof {
                        terms_fail_later(old(self)@, events@, i as int);
                    }
                    return Err(violation);
                },
            }
            i += 1;
        }
        proof {
            assert(events@.take(events@.len() as int) =~= events@);
        }
        match self.assert_at_most_one_leader_in_term() {
            Ok(()) => Ok(!same_states(&before, &self.server_states)),
            Err(violation) => Err(violation),
        }
    }
}

/// Once a term has gone back, the terms do not hold for any longer batch.
proof fn terms_fail_later(states: Seq<RaftStateEvent>, events: Seq<RaftStateEvent>, k: int)
    requires
        0 <= k < events.len(),
        goes_back(all_taken_in(states, events.take(k)), events[k]),
    ensures
        !terms_hold(states, events),
    decreases events.len(),
{
    if k == events.len() - 1 {
        assert(events.drop_last() =~= events.take(k));
    } else {
        assert(events.drop_last().take(k) =~= events.take(k));
        terms_fail_later(states, events.drop_last(), k);
    }
}

/// Whether two snapshots are the same.
fn same_state(a: &RaftStateEvent, b: &RaftStateEvent) -> (same: bool)
    ensures
        same == (*a == *b),
{
    a.server_id == b.server_id && a.current_state == b.current_state && a.current_term
        == b.current_term && same_server(a.voted_for, b.voted_for) && same_server(
        a.leader_for_term,
        b.leader_for_term,
    )
}

/// Whether two lists of snapshots are the same.
fn same_states(a: &Vec<RaftStateEvent>, b: &Vec<RaftStateEvent>) -> (same: bool)
    ensures
        same == (a@ == b@),
{
    if a.len() != b.len() {
        return false;
    }
    let mut i: usize = 0;
    while i < a.len()
        invariant
            a@.len() == b@.len(),
            i <= a@.len(),
            forall|j: int| 0 <= j < i ==> a@[j] == b@[j],
        decreases a@.len() - i,
    {
        if !same_state(&a[i], &b[i]) {
            return false;
        }
        i += 1;
    }
    proof {
        assert(a@ =~= b@);
    }
    true
}

/// Whether two optional servers are the same.
fn same_server(a: Option<ServerId>, b: Option<ServerId>) -> (same: bool)
    ensures
        same == (a == b),
{
    match (a, b) {
        (None, None) => true,
        (Some(x), Some(y)) => x == y,
        _ => false,
    }
}

} // verus!

//! Decides what a simulation does next: wake the nodes, or carry out the
//! event that is due. Simulated time moves forward only.

use vstd::prelude::*;
use crate::common::LogCommand;
use crate::simulator::common::SimTime;
use crate::simulator::common::SimulatorEvent;
use crate::simulator::common::WakeUpAtOrBefore;

verus! {

/// What the simulation does in one step.
#[derive(Debug)]
pub enum Move<C: LogCommand> {
    /// Advance the clock to this time and let every node look at it.
    WakeNodes(SimTime),
    /// Advance the clock to the time of this event and carry it out.
    Process(SimulatorEvent<C>),
    /// Nothing is due and nobody wants to be woken.
    Idle,
}

/// An event that was due before the present time of the simulation.
#[derive(Debug, Clone, Copy, PartialEq, Eq)]
pub struct EventInThePast {
    pub due: SimTime,
    pub now: SimTime,
}

/// Whether `time` is among `times` and none of them is earlier.
pub open spec fn is_earliest(times: Seq<SimTime>, time: SimTime) -> bool {
    &&& times.contains(time)
    &&& forall|i: int| 0 <= i < times.len() ==> time.nanos() <= (#[trigger] times[i]).nanos()
}

/// Whether the event at `place` is the next one due: none is due earlier,
/// and of those due at the same time it was queued first.
pub open spec fn is_next_due<C: LogCommand>(events: Seq<SimulatorEvent<C>>, place: int) -> bool {
    &&& 0 <= place < events.len()
    &&& forall|i: int|
        0 <= i < events.len() ==> events[place].time.nanos() <= (#[trigger] events[i]).time.nanos()
    &&& forall|i: int|
        0 <= i < place ==> events[place].time.nanos() < (#[trigger] events[i]).time.nanos()
}

/// The clock of a simulation, the events that are queued, and the times
/// at which nodes want to be woken.
#[derive(Debug)]
pub struct Scheduler<C: LogCommand> {
    now: SimTime,
    events_to_process: Vec<SimulatorEvent<C>>,
    transport_wakeup_requests: Vec<SimTime>,
}

impl<C: LogCommand> Scheduler<C> {
    /// The present time of the simulation.
    pub closed spec fn time(&self) -> SimTime {
        self.now
    }

    /// The queued events, in the order in which they were queued.
    pub closed spec fn events(&self) -> Seq<SimulatorEvent<C>> {
        self.events_to_process@
    }

    /// The times at which nodes want to be woken, each once.
    pub closed spec fn wakeups(&self) -> Seq<SimTime> {
        self.transport_wakeup_requests@
    }

    /// Nothing that is queued or asked for lies in the past, and no wake-up
    /// time is held twice.
    pub open spec fn wf(&self) -> bool {
        &&& forall|i: int|
            0 <= i < self.events().len() ==> self.time().nanos() <= (
            #[trigger] self.events()[i]).time.nanos()
        &&& forall|i: int|
            0 <= i < self.wakeups().len() ==> self.time().nanos() <= (
            #[trigger] self.wakeups()[i]).nanos()
        &&& self.wakeups().no_duplicates()
    }

    /// A simulation at time zero with nothing to do.
    pub fn new() -> (scheduler: Self)
        ensures
            scheduler.wf(),
            scheduler.time().nanos() == 0,
            scheduler.events() == Seq::<SimulatorEvent<C>>::empty(),
            scheduler.wakeups() == Seq::<SimTime>::empty(),
    {
        Scheduler {
            now: SimTime::from_millis(0),
            events_to_process: Vec::new(),
            transport_wakeup_requests: Vec::new(),
        }
    }

    /// The present time of the simulation.
    pub fn now(&self) -> (now: SimTime)
        ensures
            now == self.time(),
    {
        self.now
    }

    /// The number of queued events.
    pub fn pending_events(&self) -> (n: usize)
        ensures
            n == self.events().len(),
    {
        self.events_to_process.len()
    }

    /// Queues an event. One that is due in the past is refused.
    pub fn enqueue_event(&mut self, event: SimulatorEvent<C>) -> (queued: Result<
        (),
        EventInThePast,
    >)
        requires
            old(self).wf(),
        ensures
            final(self).wf(),
            final(self).time() == old(self).time(),
            final(self).wakeups() == old(self).wakeups(),
            if event.time.nanos() >= old(self).time().nanos() {
                queued is Ok && final(self).events() == old(self).events().push(event)
            } else {
                &&& queued == Err::<(), EventInThePast>(
                    EventInThePast { due: event.time, now: old(self).time() },
                )
                &&& final(self).events() == old(self).events()
            },
    {
        if self.now.at_or_before(&event.time) {
            self.events_to_process.push(event);
            Ok(())
        } else {
            Err(EventInThePast { due: event.time, now: self.now })
        }
    }

    /// Notes that a node wants to be woken. A time in the past counts as
    /// the present; a time that is noted already is not noted again.
    pub fn request_wake_up(&mut self, request: WakeUpAtOrBefore)
        requires
            old(self).wf(),
        ensures
            final(self).wf(),
            final(self).time() == old(self).time(),
            final(self).events() == old(self).events(),
            ({
                let at = if request.0.nanos() >= old(self).time().nanos() {
                    request.0
                } else {
                    old(self).time()
                };
                final(self).wakeups() == if old(self).wakeups().contains(at) {
                    old(self).wakeups()
                } else {
                    old(self).wakeups().push(at)
                }
            }),
    {
        let at = if self.now.at_or_before(&request.0) {
            request.0
        } else {
            self.now
        };
        let mut i: usize = 0;
        while i < self.transport_wakeup_requests.len()
            invariant
                i <= self.transport_wakeup_requests@.len(),
                *self == *old(self),
                self.wf(),
                at == if request.0.nanos() >= self.time().nanos() {
                    request.0
                } else {
                    self.time()
                },
                forall|j: int| 0 <= j < i ==> self.transport_wakeup_requests@[j] != at,
            decreases self.transport_wakeup_requests@.len() - i,
        {
            if self.transport_wakeup_requests[i].0.nanos == at.0.nanos {
                proof {
                    assert(self.wakeups()[i as int] == at);
                }
                return ;
            }
            i += 1;
        }
        proof {
            assert(!self.wakeups().contains(at));
        }
        self.transport_wakeup_requests.push(at);
    }

    /// The place of the earliest wake-up time.
    fn earliest_wakeup(&self) -> (place: Option<usize>)
        ensures
            match place {
                Some(i) => i < self.wakeups().len() && is_earliest(
                    self.wakeups(),
                    self.wakeups()[i as int],
                ),
                None => self.wakeups().len() == 0,
            },
    {
        if self.transport_wakeup_requests.len() == 0 {
            return None;
        }
        let mut best: usize = 0;
        let mut i: usize = 1;
        while i < self.transport_wakeup_requests.len()
            invariant
                1 <= i <= self.transport_wakeup_requests@.len(),
                best < i,
                forall|j: int|
                    0 <= j < i ==> self.transport_wakeup_requests@[best as int].nanos() <= (
                    #[trigger] self.transport_wakeup_requests@[j]).nanos(),
            decreases self.transport_wakeup_requests@.len() - i,
        {
            if self.transport_wakeup_requests[i].0.nanos
                < self.transport_wakeup_requests[best].0.nanos {
                best = i;
            }
            i += 1;
        }
        Some(best)
    }

    /// The place of the event that is due next.
    fn next_due(&self) -> (place: Option<usize>)
        ensures
            match place {
                Some(i) => is_next_due(self.events(), i as int),
                None => self.events().len() == 0,
            },
    {
        if self.events_to_process.len() == 0 {
            return None;
        }
        let mut best: usize = 0;
        let mut i: usize = 1;
        while i < self.events_to_process.len()
            invariant
                1 <= i <= self.events_to_process@.len(),
                best < i,
                forall|j: int|
                    0 <= j < i ==> self.events_to_process@[best as int].time.nanos() <= (
                    #[trigger] self.events_to_process@[j]).time.nanos(),
                forall|j: int|
                    0 <= j < best ==> self.events_to_process@[best as int].time.nanos() < (
                    #[trigger] self.events_to_process@[j]).time.nanos(),
            decreases self.events_to_process@.len() - i,
        {
            if self.events_to_process[i].time.0.nanos < self.events_to_process[best].time.0.nanos {
                best = i;
            }
            i += 1;
        }
        Some(best)
    }

    /// The time of the event that is due next, where one is queued.
    pub fn next_event_time(&self) -> (due: Option<SimTime>)
        requires
            self.wf(),
        ensures
            match due {
                Some(time) => exists|i: int|
                    is_next_due(self.events(), i) && (#[trigger] self.events()[i]).time == time,
                None => self.events().len() == 0,
            },
    {
        match self.next_due() {
            Some(i) => Some(self.events_to_process[i].time),
            None => None,
        }
    }

    /// One step of the simulation. Where a node wants to be woken no later
    /// than the next event is due, the clock moves to the earliest such time
    /// and the nodes are woken. Otherwise the clock moves to the next event,
    /// which leaves the queue. With neither, nothing happens.
    pub fn step(&mut self) -> (next: Move<C>)
        requires
            old(self).wf(),
        ensures
            final(self).wf(),
            final(self).time().nanos() >= old(self).time().nanos(),
            match next {
                Move::WakeNodes(at) => {
                    &&& is_earliest(old(self).wakeups(), at)
                    &&& forall|i: int|
                        0 <= i < old(self).events().len() ==> at.nanos() <= (
                        #[trigger] old(self).events()[i]).time.nanos()
                    &&& final(self).time() == at
                    &&& final(self).events() == old(self).events()
                    &&& final(self).wakeups() == old(self).wakeups().remove(
                        old(self).wakeups().index_of(at),
                    )
                },
                Move::Process(event) => {
                    &&& forall|i: int|
                        0 <= i < old(self).wakeups().len() ==> event.time.nanos() < (
                        #[trigger] old(self).wakeups()[i]).nanos()
                    &&& exists|place: int|
                        {
                            &&& #[trigger] is_next_due(old(self).events(), place)
                            &&& event == old(self).events()[place]
                            &&& final(self).events() == old(self).events().remove(place)
                        }
                    &&& final(self).time() == event.time
                    &&& final(self).wakeups() == old(self).wakeups()
                },
                Move::Idle => {
                    &&& old(self).events().len() == 0
                    &&& old(self).wakeups().len() == 0
                    &&& final(self).time() == old(self).time()
                    &&& final(self).events() == old(self).events()
                    &&& final(self).wakeups() == old(self).wakeups()
                },
            },
    {
        let wake = self.earliest_wakeup();
        let due = self.next_due();
        match wake {
            Some(w) => {
                let at = self.transport_wakeup_requests[w];
                let wake_first = match due {
                    Some(d) => at.at_or_before(&self.events_to_process[d].time),
                    None => true,
                };
                if wake_first {
                    proof {
                        let times = self.transport_wakeup_requests@;
                        assert(times.index_of(at) == w) by {
                            let k = times.index_of(at);
                            assert(times.contains(at));
                            assert(0 <= k < times.len() && times[k] == at);
                        }
                        assert forall|i: int| 0 <= i < self.events().len() implies at.nanos() <= (
                        #[trigger] self.events()[i]).time.nanos() by {
                            let d = due.unwrap() as int;
                            assert(self.events()[d].time.nanos() <= self.events()[i].time.nanos());
                        }
                    }
                    self.transport_wakeup_requests.remove(w);
                    self.now = at;
                    proof {
                        let before = old(self).wakeups();
                        let after = self.transport_wakeup_requests@;
                        assert forall|i: int| 0 <= i < after.len() implies at.nanos() <= (
                        #[trigger] after[i]).nanos() by {
                            if i < w {
                                assert(after[i] == before[i]);
                            } else {
                                assert(after[i] == before[i + 1]);
                            }
                        }
                        assert(after.no_duplicates()) by {
                            assert forall|i: int, j: int|
                                0 <= i < after.len() && 0 <= j < after.len() && i != j implies after[i]
                                != after[j] by {
                                let a = if i < w {
                                    i
                                } else {
                                    i + 1
                                };
                                let b = if j < w {
                                    j
                                } else {
                                    j + 1
                                };
                                assert(after[i] == before[a] && after[j] == before[b]);
                            }
                        }
                    }
                    return Move::WakeNodes(at);
                }
            },
            None => {},
        }
        match due {
            Some(d) => {
                proof {
                    assert forall|i: int| 0 <= i < self.wakeups().len() implies self.events()[d as int].time.nanos()
                        < (#[trigger] self.wakeups()[i]).nanos() by {
                        let w = wake.unwrap() as int;
                        assert(self.wakeups()[w].nanos() <= self.wakeups()[i].nanos());
                    }
                }
                let event = self.events_to_process.remove(d);
                self.now = event.time;
                proof {
                    let before = old(self).events();
                    let after = self.events_to_process@;
                    assert forall|i: int| 0 <= i < after.len() implies event.time.nanos() <= (
                    #[trigger] after[i]).time.nanos() by {
                        if i < d {
                            assert(after[i] == before[i]);
                        } else {
                            assert(after[i] == before[i + 1]);
                        }
                    }
                    assert(is_next_due(before, d as int));
                }
                Move::Process(event)
            },
            None => Move::Idle,
        }
    }
}

} // verus!

//! The network between the nodes of a simulation: one link for each ordered
//! pair of servers, which a partition can cut.
//!
//! Whether a message is lost on an intact link, and how long it takes, is
//! drawn by whoever runs the simulation. What is decided here is which links
//! a partition cuts, and what becomes of a message once the draws are made.

use vstd::prelude::*;
use crate::common::LogCommand;
use crate::common::ServerId;
use crate::rpc_messages::RpcMessage;
use crate::simulator::common::SimTime;
use crate::simulator::common::SimulatorAction;
use crate::simulator::common::SimulatorEvent;

verus! {

/// The link that carries what `from` sends to `to`.
#[derive(Debug, Clone, Copy, PartialEq, Eq)]
pub struct Link {
    pub from: ServerId,
    pub to: ServerId,
    /// A cut link loses every message.
    pub cut: bool,
}

/// Why a partition was refused.
#[derive(Debug, Clone, Copy, PartialEq, Eq)]
pub enum PartitionError {
    /// The server is listed more than once.
    ServerInSeveralPartitions(ServerId),
    /// The server has a link and is listed in no group.
    ServerInNoPartition(ServerId),
}

/// What becomes of a message that a node sends.
#[derive(Debug)]
pub enum Routing<C: LogCommand> {
    /// The message arrives: this event delivers it.
    Deliver(SimulatorEvent<C>),
    /// The message is lost on the way.
    Drop(RpcMessage<C>),
    /// There is no link from the sender to the receiver.
    Unconnected(RpcMessage<C>),
}

/// Whether `server` stands at place `at` of group `group`.
pub open spec fn listed_at(
    partitions: Seq<Vec<ServerId>>,
    server: ServerId,
    group: int,
    at: int,
) -> bool {
    0 <= group < partitions.len() && 0 <= at < partitions[group]@.len() && partitions[group]@[at]
        == server
}

/// Whether `server` is listed in some group.
pub open spec fn listed(partitions: Seq<Vec<ServerId>>, server: ServerId) -> bool {
    exists|group: int, at: int| listed_at(partitions, server, group, at)
}

/// Whether the place `(group, at)` comes before the place `(other, there)`.
pub open spec fn comes_before(group: int, at: int, other: int, there: int) -> bool {
    group < other || (group == other && at < there)
}

/// Whether no server is listed twice.
pub open spec fn disjoint(partitions: Seq<Vec<ServerId>>) -> bool {
    forall|server: ServerId, group: int, at: int, other: int, there: int|
        #[trigger] listed_at(partitions, server, group, at) && #[trigger] listed_at(
            partitions,
            server,
            other,
            there,
        ) ==> group == other && at == there
}

/// Whether a partition separates `from` from `to`: `from` is listed, and not
/// in one group with `to`.
pub open spec fn separates(partitions: Seq<Vec<ServerId>>, from: ServerId, to: ServerId) -> bool {
    exists|group: int, at: int| #[trigger]
        listed_at(partitions, from, group, at) && !partitions[group]@.contains(to)
}

/// Whether both ends of every link are listed.
pub open spec fn covers(partitions: Seq<Vec<ServerId>>, links: Seq<Link>) -> bool {
    forall|k: int|
        0 <= k < links.len() ==> listed(partitions, (#[trigger] links[k]).from) && listed(
            partitions,
            links[k].to,
        )
}

/// Whether `links` holds the intact link from `from` to `to`.
pub open spec fn holds_intact(links: Seq<Link>, from: u64, to: u64) -> bool {
    exists|k: int|
        0 <= k < links.len() && #[trigger] links[k] == (Link {
            from: ServerId(from),
            to: ServerId(to),
            cut: false,
        })
}

/// The network of a simulation.
#[derive(Debug)]
pub struct SimNetwork {
    connections: Vec<Link>,
}

impl View for SimNetwork {
    type V = Seq<Link>;

    closed spec fn view(&self) -> Seq<Link> {
        self.connections@
    }
}

/// The first place at which `server` is listed.
fn find_server(partitions: &Vec<Vec<ServerId>>, server: ServerId) -> (place: Option<(usize, usize)>)
    ensures
        match place {
            Some((group, at)) => {
                &&& listed_at(partitions@, server, group as int, at as int)
                &&& forall|other: int, there: int| #[trigger]
                    listed_at(partitions@, server, other, there) ==> !comes_before(
                        other,
                        there,
                        group as int,
                        at as int,
                    )
            },
            None => !listed(partitions@, server),
        },
{
    let mut group: usize = 0;
    while group < partitions.len()
        invariant
            group <= partitions@.len(),
            forall|other: int, there: int| #[trigger]
                listed_at(partitions@, server, other, there) ==> other >= group,
        decreases partitions@.len() - group,
    {
        let mut at: usize = 0;
        while at < partitions[group].len()
            invariant
                group < partitions@.len(),
                at <= partitions@[group as int]@.len(),
                forall|other: int, there: int| #[trigger]
                    listed_at(partitions@, server, other, there) ==> other >= group,
                forall|there: int| 0 <= there < at ==> partitions@[group as int]@[there] != server,
            decreases partitions@[group as int]@.len() - at,
        {
            if partitions[group][at] == server {
                return Some((group, at));
            }
            at += 1;
        }
        group += 1;
    }
    None
}

/// Whether `server` is in the group.
fn group_contains(group: &Vec<ServerId>, server: ServerId) -> (found: bool)
    ensures
        found == group@.contains(server),
{
    let mut at: usize = 0;
    while at < group.len()
        invariant
            at <= group@.len(),
            forall|there: int| 0 <= there < at ==> group@[there] != server,
        decreases group@.len() - at,
    {
        if group[at] == server {
            return true;
        }
        at += 1;
    }
    false
}

/// A server that is listed twice, where there is one.
fn find_repeated(partitions: &Vec<Vec<ServerId>>) -> (repeated: Option<ServerId>)
    ensures
        match repeated {
            Some(server) => listed(partitions@, server) && !disjoint(partitions@),
            None => disjoint(partitions@),
        },
{
    let mut group: usize = 0;
    while group < partitions.len()
        invariant
            group <= partitions@.len(),
            forall|server: ServerId, first: int, at: int, other: int, there: int|
                #[trigger] listed_at(partitions@, server, first, at) && #[trigger] listed_at(
                    partitions@,
                    server,
                    other,
                    there,
                ) && other < group ==> !comes_before(first, at, other, there),
        decreases partitions@.len() - group,
    {
        let mut at: usize = 0;
        while at < partitions[group].len()
            invariant
                group < partitions@.len(),
                at <= partitions@[group as int]@.len(),
                forall|server: ServerId, first: int, place: int, other: int, there: int|
                    #[trigger] listed_at(partitions@, server, first, place) && #[trigger] listed_at(
                        partitions@,
                        server,
                        other,
                        there,
                    ) && comes_before(other, there, group as int, at as int) ==> !comes_before(
                        first,
                        place,
                        other,
                        there,
                    ),
            decreases partitions@[group as int]@.len() - at,
        {
            let server = partitions[group][at];
            match find_server(partitions, server) {
                Some((first, place)) => {
                    if first != group || place != at {
                        proof {
                            assert(listed_at(partitions@, server, group as int, at as int));
                            assert(listed_at(partitions@, server, first as int, place as int));
                        }
                        return Some(server);
                    }
                },
                None => {
                    proof {
                        assert(listed_at(partitions@, server, group as int, at as int));
                    }
                },
            }
            at += 1;
        }
        group += 1;
    }
    proof {
        assert forall|server: ServerId, first: int, at: int, other: int, there: int|
            #[trigger] listed_at(partitions@, server, first, at) && #[trigger] listed_at(
                partitions@,
                server,
                other,
                there,
            ) implies first == other && at == there by {
            if comes_before(first, at, other, there) {
            } else if comes_before(other, there, first, at) {
            }
        }
    }
    None
}

impl SimNetwork {
    /// No two links join the same servers in the same direction.
    pub open spec fn wf(&self) -> bool {
        forall|i: int, j: int|
            0 <= i < self@.len() && 0 <= j < self@.len() && i != j ==> !(self@[i].from
                == self@[j].from && self@[i].to == self@[j].to)
    }

    /// Whether the network has the link from `from` to `to`, and whether
    /// that link is cut.
    pub open spec fn link(&self, from: ServerId, to: ServerId) -> Option<bool> {
        if exists|k: int| 0 <= k < self@.len() && self@[k].from == from && self@[k].to == to {
            let k = choose|k: int| 0 <= k < self@.len() && self@[k].from == from && self@[k].to == to;
            Some(self@[k].cut)
        } else {
            None
        }
    }

    /// The network in which each of the servers `0` to `num_servers - 1` has
    /// an intact link to every other.
    pub fn with_defaults(num_servers: u64) -> (network: SimNetwork)
        ensures
            network.wf(),
            forall|k: int|
                0 <= k < network@.len() ==> {
                    &&& (#[trigger] network@[k]).from.0 < num_servers
                    &&& network@[k].to.0 < num_servers
                    &&& network@[k].from != network@[k].to
                    &&& !network@[k].cut
                },
            forall|from: u64, to: u64|
                from < num_servers && to < num_servers && from != to ==> #[trigger] network.link(
                    ServerId(from),
                    ServerId(to),
                ) == Some(false),
    {
        let mut connections: Vec<Link> = Vec::new();
        let mut from: u64 = 0;
        while from < num_servers
            invariant
                from <= num_servers,
                forall|k: int|
                    0 <= k < connections@.len() ==> {
                        &&& (#[trigger] connections@[k]).from.0 < from
                        &&& connections@[k].to.0 < num_servers
                        &&& connections@[k].from != connections@[k].to
                        &&& !connections@[k].cut
                    },
                forall|i: int, j: int|
                    0 <= i < connections@.len() && 0 <= j < connections@.len() && i != j ==> !(
                    connections@[i].from == connections@[j].from && connections@[i].to
                        == connections@[j].to),
                forall|a: u64, b: u64|
                    a < from && b < num_servers && a != b ==> #[trigger] holds_intact(
                        connections@,
                        a,
                        b,
                    ),
            decreases num_servers - from,
        {
            let mut to: u64 = 0;
            while to < num_servers
                invariant
                    from < num_servers,
                    to <= num_servers,
                    forall|k: int|
                        0 <= k < connections@.len() ==> {
                            &&& (#[trigger] connections@[k]).from.0 <= from
                            &&& connections@[k].from.0 == from ==> connections@[k].to.0 < to
                            &&& connections@[k].to.0 < num_servers
                            &&& connections@[k].from != connections@[k].to
                            &&& !connections@[k].cut
                        },
                    forall|i: int, j: int|
                        0 <= i < connections@.len() && 0 <= j < connections@.len() && i != j ==> !(
                        connections@[i].from == connections@[j].from && connections@[i].to
                            == connections@[j].to),
                    forall|a: u64, b: u64|
                        (a < from || (a == from && b < to)) && b < num_servers && a != b
                            ==> #[trigger] holds_intact(connections@, a, b),
                decreases num_servers - to,
            {
                if from != to {
                    let ghost before = connections@;
                    connections.push(Link { from: ServerId(from), to: ServerId(to), cut: false });
                    proof {
                        assert forall|a: u64, b: u64|
                            (a < from || (a == from && b < to + 1)) && b < num_servers && a
                                != b implies #[trigger] holds_intact(connections@, a, b) by {
                            if a == from && b == to {
                                assert(connections@[before.len() as int] == (Link {
                                    from: ServerId(a),
                                    to: ServerId(b),
                                    cut: false,
                                }));
                            } else {
                                assert(holds_intact(before, a, b));
                                let k = choose|k: int|
                                    0 <= k < before.len() && #[trigger] before[k] == (Link {
                                        from: ServerId(a),
                                        to: ServerId(b),
                                        cut: false,
                                    });
                                assert(connections@[k] == before[k]);
                            }
                        }
                    }
                }
                to += 1;
            }
            from += 1;
        }
        let network = SimNetwork { connections };
        proof {
            assert forall|from: u64, to: u64|
                from < num_servers && to < num_servers && from != to implies #[trigger] network.link(
                ServerId(from),
                ServerId(to),
            ) == Some(false) by {
                assert(holds_intact(network@, from, to));
                let k = choose|k: int|
                    0 <= k < network@.len() && #[trigger] network@[k] == (Link {
                        from: ServerId(from),
                        to: ServerId(to),
                        cut: false,
                    });
                assert(network@[k].from == ServerId(from) && network@[k].to == ServerId(to));
            }
        }
        network
    }

    /// The links, in their order.
    pub fn links(&self) -> (links: &Vec<Link>)
        ensures
            links@ == self@,
    {
        &self.connections
    }

    /// Computes [`SimNetwork::link`].
    pub fn is_cut(&self, from: ServerId, to: ServerId) -> (cut: Option<bool>)
        requires
            self.wf(),
        ensures
            cut == self.link(from, to),
    {
        let mut k: usize = 0;
        while k < self.connections.len()
            invariant
                self.wf(),
                k <= self.connections@.len(),
                forall|j: int|
                    0 <= j < k ==> !(self.connections@[j].from == from && self.connections@[j].to
                        == to),
            decreases self.connections@.len() - k,
        {
            if self.connections[k].from == from && self.connections[k].to == to {
                proof {
                    assert(self@[k as int].from == from && self@[k as int].to == to);
                    let chosen = choose|c: int|
                        0 <= c < self@.len() && self@[c].from == from && self@[c].to == to;
                    assert(chosen == k);
                }
                return Some(self.connections[k].cut);
            }
            k += 1;
        }
        None
    }

    /// Cuts every link whose sender the partition separates from its
    /// receiver. Other links stay as they are. A partition that lists a
    /// server twice, or leaves out a server that has a link, is refused and
    /// changes nothing.
    pub fn partition_network(&mut self, partitions: &Vec<Vec<ServerId>>) -> (done: Result<
        (),
        PartitionError,
    >)
        requires
            old(self).wf(),
        ensures
            final(self).wf(),
            final(self)@.len() == old(self)@.len(),
            match done {
                Ok(()) => {
                    &&& disjoint(partitions@)
                    &&& covers(partitions@, old(self)@)
                    &&& forall|k: int|
                        0 <= k < old(self)@.len() ==> #[trigger] final(self)@[k] == (Link {
                            cut: old(self)@[k].cut || separates(
                                partitions@,
                                old(self)@[k].from,
                                old(self)@[k].to,
                            ),
                            ..old(self)@[k]
                        })
                },
                Err(PartitionError::ServerInSeveralPartitions(server)) => {
                    &&& !disjoint(partitions@)
                    &&& listed(partitions@, server)
                    &&& final(self)@ == old(self)@
                },
                Err(PartitionError::ServerInNoPartition(server)) => {
                    &&& disjoint(partitions@)
                    &&& !listed(partitions@, server)
                    &&& exists|k: int|
                        0 <= k < old(self)@.len() && ((#[trigger] old(self)@[k]).from == server
                            || old(self)@[k].to == server)
                    &&& final(self)@ == old(self)@
                },
            },
    {
        match find_repeated(partitions) {
            Some(server) => {
                return Err(PartitionError::ServerInSeveralPartitions(server));
            },
            None => {},
        }
        let mut k: usize = 0;
        while k < self.connections.len()
            invariant
                *self == *old(self),
                self.wf(),
                disjoint(partitions@),
                k <= self.connections@.len(),
                forall|j: int|
                    0 <= j < k ==> listed(partitions@, (#[trigger] self.connections@[j]).from)
                        && listed(partitions@, self.connections@[j].to),
            decreases self.connections@.len() - k,
        {
            let link = self.connections[k];
            if find_server(partitions, link.from).is_none() {
                return Err(PartitionError::ServerInNoPartition(link.from));
            }
            if find_server(partitions, link.to).is_none() {
                return Err(PartitionError::ServerInNoPartition(link.to));
            }
            k += 1;
        }
        let mut k: usize = 0;
        while k < self.connections.len()
            invariant
                disjoint(partitions@),
                old(self).wf(),
                covers(partitions@, old(self)@),
                k <= self.connections@.len(),
                self.connections@.len() == old(self)@.len(),
                forall|j: int|
                    0 <= j < old(self)@.len() ==> listed(partitions@, (#[trigger] old(self)@[j]).from),
                forall|j: int|
                    0 <= j < k ==> #[trigger] self.connections@[j] == (Link {
                        cut: old(self)@[j].cut || separates(
                            partitions@,
                            old(self)@[j].from,
                            old(self)@[j].to,
                        ),
                        ..old(self)@[j]
                    }),
                forall|j: int|
                    k <= j < old(self)@.len() ==> #[trigger] self.connections@[j] == old(self)@[j],
            decreases self.connections@.len() - k,
        {
            let link = self.connections[k];
            match find_server(partitions, link.from) {
                Some((group, at)) => {
                    let together = group_contains(&partitions[group], link.to);
                    proof {
                        // The sender is listed once: its group is this one.
                        if separates(partitions@, link.from, link.to) {
                            let (g, a) = choose|g: int, a: int| #[trigger]
                                listed_at(partitions@, link.from, g, a) && !partitions@[g]@.contains(
                                    link.to,
                                );
                            assert(listed_at(partitions@, link.from, group as int, at as int));
                            assert(g == group);
                        }
                        if !together {
                            assert(listed_at(partitions@, link.from, group as int, at as int));
                        }
                        assert(separates(partitions@, link.from, link.to) == !together);
                    }
                    if !together {
                        self.connections.set(
                            k,
                            Link { from: link.from, to: link.to, cut: true },
                        );
                    }
                },
                None => {
                    proof {
                        assert(listed(partitions@, old(self)@[k as int].from));
                    }
                },
            }
            k += 1;
        }
        proof {
            assert forall|i: int, j: int|
                0 <= i < self@.len() && 0 <= j < self@.len() && i != j implies !(self@[i].from
                == self@[j].from && self@[i].to == self@[j].to) by {
                assert(self@[i].from == old(self)@[i].from && self@[i].to == old(self)@[i].to);
                assert(self@[j].from == old(self)@[j].from && self@[j].to == old(self)@[j].to);
            }
        }
        Ok(())
    }

    /// Restores every link.
    pub fn heal_network_partition(&mut self)
        requires
            old(self).wf(),
        ensures
            final(self).wf(),
            final(self)@.len() == old(self)@.len(),
            forall|k: int|
                0 <= k < old(self)@.len() ==> #[trigger] final(self)@[k] == (Link {
                    cut: false,
                    ..old(self)@[k]
                }),
    {
        let mut k: usize = 0;
        while k < self.connections.len()
            invariant
                old(self).wf(),
                k <= self.connections@.len(),
                self.connections@.len() == old(self)@.len(),
                forall|j: int|
                    0 <= j < k ==> #[trigger] self.connections@[j] == (Link {
                        cut: false,
                        ..old(self)@[j]
                    }),
                forall|j: int|
                    k <= j < old(self)@.len() ==> #[trigger] self.connections@[j] == old(self)@[j],
            decreases self.connections@.len() - k,
        {
            let link = self.connections[k];
            self.connections.set(k, Link { from: link.from, to: link.to, cut: false });
            k += 1;
        }
        proof {
            assert forall|i: int, j: int|
                0 <= i < self@.len() && 0 <= j < self@.len() && i != j implies !(self@[i].from
                == self@[j].from && self@[i].to == self@[j].to) by {
                assert(self@[i].from == old(self)@[i].from && self@[i].to == old(self)@[i].to);
                assert(self@[j].from == old(self)@[j].from && self@[j].to == old(self)@[j].to);
            }
        }
    }

    /// Decides what becomes of `message`, sent at `now`, once it is drawn
    /// whether an intact link loses it (`lost`) and how many milliseconds it
    /// takes (`latency_ms`). It arrives where its link exists, is not cut,
    /// and does not lose it: then it is due `latency_ms` after `now`.
    pub fn route<C: LogCommand>(
        &self,
        message: RpcMessage<C>,
        now: SimTime,
        lost: bool,
        latency_ms: u64,
    ) -> (routing: Routing<C>)
        requires
            self.wf(),
            now.nanos() + latency_ms * 1_000_000 <= u128::MAX,
        ensures
            routing == match self.link(message.spec_from(), message.spec_to()) {
                None => Routing::Unconnected(message),
                Some(cut) => if cut || lost {
                    Routing::Drop(message)
                } else {
                    Routing::Deliver(
                        SimulatorEvent {
                            time: SimTime(
                                crate::system_clock::Duration {
                                    nanos: (now.nanos() + latency_ms * 1_000_000) as u128,
                                },
                            ),
                            action: SimulatorAction::SendOverNetwork(message),
                        },
                    )
                },
            },
    {
        match self.is_cut(message.from(), message.to()) {
            None => Routing::Unconnected(message),
            Some(cut) => {
                if cut || lost {
                    Routing::Drop(message)
                } else {
                    match now.after_millis(latency_ms) {
                        Some(time) => Routing::Deliver(
                            SimulatorEvent { time, action: SimulatorAction::SendOverNetwork(message) },
                        ),
                        None => Routing::Drop(message),
                    }
                }
            },
        }
    }
}

} // verus!

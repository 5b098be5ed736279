//! A set of servers that remembers the order in which its members arrived.
//!
//! The role machine walks its peers to address one message to each, and counts
//! the votes it has gathered. Both need a set; the fixed order makes the
//! messages of a step come out the same way every time.

use vstd::prelude::*;
use crate::common::ServerId;

verus! {

/// The servers of `ids` in the order of their first occurrence, each once.
pub open spec fn first_occurrences(ids: Seq<ServerId>) -> Seq<ServerId>
    decreases ids.len(),
{
    if ids.len() == 0 {
        Seq::empty()
    } else {
        let before = first_occurrences(ids.drop_last());
        if before.contains(ids.last()) {
            before
        } else {
            before.push(ids.last())
        }
    }
}

/// Servers in order of arrival, each at most once.
#[derive(Debug, Clone)]
pub struct ServerSet {
    ids: Vec<ServerId>,
}

impl View for ServerSet {
    type V = Seq<ServerId>;

    closed spec fn view(&self) -> Seq<ServerId> {
        self.ids@
    }
}

impl ServerSet {
    /// No server occurs twice.
    pub open spec fn wf(&self) -> bool {
        self@.no_duplicates()
    }

    /// The empty set.
    pub fn new() -> (set: ServerSet)
        ensures
            set@ == Seq::<ServerId>::empty(),
            set.wf(),
    {
        ServerSet { ids: Vec::new() }
    }

    /// The number of members.
    pub fn len(&self) -> (n: usize)
        ensures
            n == self@.len(),
    {
        self.ids.len()
    }

    /// The member that arrived as the `i`-th.
    pub fn get(&self, i: usize) -> (id: ServerId)
        requires
            i < self@.len(),
        ensures
            id == self@[i as int],
    {
        self.ids[i]
    }

    /// Whether `id` is a member.
    pub fn contains(&self, id: ServerId) -> (found: bool)
        ensures
            found == self@.contains(id),
    {
        let mut i: usize = 0;
        while i < self.ids.len()
            invariant
                i <= self.ids@.len(),
                forall|j: int| 0 <= j < i ==> self.ids@[j] != id,
            decreases self.ids@.len() - i,
        {
            if self.ids[i].0 == id.0 {
                return true;
            }
            i += 1;
        }
        false
    }

    /// Adds `id` unless it is a member already, and says whether it was added.
    /// A member keeps its place; a new one goes last.
    pub fn insert(&mut self, id: ServerId) -> (added: bool)
        requires
            old(self).wf(),
        ensures
            final(self).wf(),
            added == !old(self)@.contains(id),
            final(self)@ == if added {
                old(self)@.push(id)
            } else {
                old(self)@
            },
    {
        if self.contains(id) {
            false
        } else {
            self.ids.push(id);
            true
        }
    }

    /// The set of the servers in `ids`, in the order of their first occurrence.
    pub fn from_vec(ids: &Vec<ServerId>) -> (set: ServerSet)
        ensures
            set.wf(),
            set@ == first_occurrences(ids@),
            set@.to_set() == ids@.to_set(),
            ids@.no_duplicates() ==> set@ == ids@,
    {
        let mut set = ServerSet::new();
        let mut i: usize = 0;
        proof {
            assert(ids@.take(0) =~= Seq::<ServerId>::empty());
        }
        while i < ids.len()
            invariant
                i <= ids@.len(),
                set.wf(),
                set@ == first_occurrences(ids@.take(i as int)),
                set@.to_set() == ids@.take(i as int).to_set(),
                ids@.take(i as int).no_duplicates() ==> set@ == ids@.take(i as int),
            decreases ids@.len() - i,
        {
            let ghost before = set@;
            let id = ids[i];
            let added = set.insert(id);
            proof {
                let head = ids@.take(i as int);
                let next = ids@.take(i + 1);
                assert(next == head.push(id));
                assert(next.drop_last() =~= head);
                assert(next.last() == id);
                assert(next.to_set() == head.to_set().insert(id)) by {
                    assert forall|x: ServerId| next.to_set().contains(x) <==> head.to_set().insert(
                        id,
                    ).contains(x) by {
                        if next.contains(x) {
                            let k = choose|k: int| 0 <= k < next.len() && next[k] == x;
                            if k < head.len() {
                                assert(head[k] == x);
                            }
                        }
                        if head.contains(x) {
                            let k = choose|k: int| 0 <= k < head.len() && head[k] == x;
                            assert(next[k] == x);
                        }
                        if x == id {
                            assert(next[i as int] == x);
                        }
                    }
                }
                if added {
                    assert(set@.to_set() == before.to_set().insert(id)) by {
                        assert forall|x: ServerId| set@.to_set().contains(x)
                            <==> before.to_set().insert(id).contains(x) by {
                            if set@.contains(x) {
                                let k = choose|k: int| 0 <= k < set@.len() && set@[k] == x;
                                if k < before.len() {
                                    assert(before[k] == x);
                                }
                            }
                            if before.contains(x) {
                                let k = choose|k: int| 0 <= k < before.len() && before[k] == x;
                                assert(set@[k] == x);
                            }
                            if x == id {
                                assert(set@[before.len() as int] == x);
                            }
                        }
                    }
                } else {
                    assert(before.to_set().insert(id) == before.to_set());
                    if next.no_duplicates() {
                        assert(head.no_duplicates()) by {
                            assert forall|a: int, b: int|
                                0 <= a < head.len() && 0 <= b < head.len() && a != b implies head[a]
                                != head[b] by {
                                assert(next[a] == head[a]);
                                assert(next[b] == head[b]);
                            }
                        }
                        let k = choose|k: int| 0 <= k < before.len() && before[k] == id;
                        assert(next[k] == id && next[i as int] == id);
                        assert(false);
                    }
                }
                if next.no_duplicates() {
                    assert(head.no_duplicates()) by {
                        assert forall|a: int, b: int|
                            0 <= a < head.len() && 0 <= b < head.len() && a != b implies head[a]
                            != head[b] by {
                            assert(next[a] == head[a]);
                            assert(next[b] == head[b]);
                        }
                    }
                }
            }
            i += 1;
        }
        proof {
            assert(ids@.take(ids@.len() as int) == ids@);
        }
        set
    }
}

} // verus!

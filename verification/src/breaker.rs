//! The master's membership lifecycle per node, a circuit breaker:
//! `(absent) --join--> active --failed--> stalled --recovered or
//! timed-out--> (absent)`.
//!
//! The driver runs one watch task per member: it drains the prober's
//! signals through `watch_signal`; when the watch breaks it calls
//! `break_node`, then waits on three events at once — the abort signal of
//! a rejoin, the stall lifetime, the prober task's completion — and feeds
//! the winner to `stall_event`.  A rejoin lands in `connect`.

use crate::health::HealthStatus;
use crate::master::ReplicatorMultiClient;
use crate::master::listed;
use crate::replica::Replica;
use vstd::prelude::*;

verus! {

/// Default stay in the stall set before a failed node is forgotten, in
/// milliseconds (one hour).
pub const STALL_NODE_LIFETIME_MS: u64 = 3600000;
/// Bound on delivering the abort signal to a stalled watcher, in
/// milliseconds.
pub const ABORT_CMD_TIMEOUT_MS: u64 = 10000;

/// The event that ends a node's stall: its abort signal fired because the
/// node rejoined, the stall lifetime elapsed, or the prober task completed
/// — which reads as the node having recovered.
pub enum StallEvent {
    Rejoined,
    TimedOut,
    Recovered,
}

/// The membership engine: the coordinator it steers, and the stall set of
/// nodes removed from the active set but not yet forgotten.
pub struct CircuitBreaker {
    pub client: ReplicatorMultiClient,
    /// Names in stall.  The driver keys each one's abort signal by the
    /// same name.
    pub stall: Vec<String>,
}

impl CircuitBreaker {
    /// Whether `name` is in the stall set.
    pub open spec fn stalled(self, name: Seq<char>) -> bool {
        listed(self.stall@, name)
    }

    /// The coordinator is well-formed, stall names are unique, and the
    /// active set and the stall set are disjoint.
    pub open spec fn wf(self) -> bool {
        &&& self.client.wf()
        &&& forall|i: int, j: int|
            0 <= i < j < self.stall@.len() ==> self.stall@[i]@ != self.stall@[j]@
        &&& forall|i: int| 0 <= i < self.stall@.len() ==> !self.client.member(self.stall@[i]@)
    }

    pub fn new(client: ReplicatorMultiClient) -> (r: Self)
        requires
            client.wf(),
        ensures
            r.wf(),
            r.client == client,
            r.stall@.len() == 0,
    {
        CircuitBreaker { client, stall: Vec::new() }
    }

    /// One signal of the prober for the watched node `name`: `Healthy`
    /// clears its suspicion, `Suspected` raises it, `Failed` — or the
    /// signal channel closing — breaks the watch, and the driver then
    /// calls `break_node`.
    pub fn watch_signal(&mut self, name: &String, signal: Option<HealthStatus>) -> (brk: bool)
        requires
            old(self).wf(),
        ensures
            final(self).wf(),
            final(self).stall == old(self).stall,
            brk == match signal {
                Some(HealthStatus::Healthy) => false,
                Some(HealthStatus::Suspected) => false,
                _ => true,
            },
            signal == Some(HealthStatus::Healthy) ==> old(self).client.member(name@) ==> !final(self).client.is_suspected(name@),
            signal == Some(HealthStatus::Suspected) ==> old(self).client.member(name@) ==> final(self).client.is_suspected(name@),
            brk ==> *final(self) == *old(self),
            final(self).client.nodes@.len() == old(self).client.nodes@.len(),
            final(self).client.member(name@) == old(self).client.member(name@),
            forall|m: Seq<char>|
                m != name@ ==> final(self).client.member(m) == old(self).client.member(m) && final(self).client.is_suspected(m) == old(self).client.is_suspected(m),
            final(self).client.stash == old(self).client.stash,
            final(self).client.in_sync == old(self).client.in_sync,
            final(self).client.next_order == old(self).client.next_order,
            final(self).client.write_quorum == old(self).client.write_quorum,
    {
        let ghost pre = *self;
        let brk = match signal {
            Some(HealthStatus::Healthy) => {
                self.client.decrement_suspected(name);
                false
            },
            Some(HealthStatus::Suspected) => {
                self.client.increment_suspected(name);
                false
            },
            _ => { true },
        };
        proof {
            assert forall|i: int| 0 <= i < self.stall@.len() implies !self.client.member(
                self.stall@[i]@,
            ) by {
                assert(!pre.client.member(pre.stall@[i]@));
                if self.stall@[i]@ != name@ {
                } else {
                    assert(self.client.member(name@) == pre.client.member(name@));
                }
            }
        }
        brk
    }

    /// Breaks the connection to `name` after its watch ended: the node
    /// leaves the active set and enters the stall set, where a rejoin can
    /// still find it for `STALL_NODE_LIFETIME_MS`.  The driver publishes
    /// the node's abort signal under the same name.
    pub fn break_node(&mut self, name: &String)
        requires
            old(self).wf(),
        ensures
            final(self).wf(),
            !final(self).client.member(name@),
            final(self).stalled(name@),
            forall|m: Seq<char>|
                m != name@ ==> final(self).stalled(m) == old(self).stalled(m) && final(self).client.member(m) == old(self).client.member(m) && final(self).client.is_suspected(m) == old(self).client.is_suspected(m),
            final(self).client.suspected_count == old(self).client.suspected_count - (if old(self).client.member(name@) && old(self).client.is_suspected(name@) {
                1int
            } else {
                0int
            }),
            final(self).client.stash == old(self).client.stash,
            final(self).client.in_sync == old(self).client.in_sync,
            final(self).client.next_order == old(self).client.next_order,
            final(self).client.write_quorum == old(self).client.write_quorum,
    {
        let ghost pre = *self;
        if self.stall_index(name).is_none() {
            let ghost before = self.stall@;
            self.stall.push(name.clone());
            proof {
                assert(self.stall@ == before.push(self.stall@.last()));
                assert(self.stall@[before.len() as int]@ == name@);
                assert(listed(self.stall@, name@));
                assert forall|p: int, q: int| 0 <= p < q < self.stall@.len() implies self
                    .stall@[p]@ != self.stall@[q]@ by {
                    if q == self.stall@.len() - 1 {
                        assert(self.stall@[p] == before[p]);
                        assert(!listed(before, name@));
                    } else {
                        assert(self.stall@[p] == before[p]);
                        assert(self.stall@[q] == before[q]);
                    }
                }
                assert forall|m: Seq<char>| m != name@ implies listed(self.stall@, m) == listed(
                    before,
                    m,
                ) by {
                    if listed(before, m) {
                        let j = choose|j: int| 0 <= j < before.len() && before[j]@ == m;
                        assert(self.stall@[j]@ == m);
                    }
                    if listed(self.stall@, m) {
                        let j = choose|j: int|
                            0 <= j < self.stall@.len() && self.stall@[j]@ == m;
                        assert(j < before.len());
                        assert(before[j]@ == m);
                    }
                }
            }
        }
        let ghost mid = *self;
        self.client.del_node(name);
        proof {
            assert forall|i: int| 0 <= i < self.stall@.len() implies !self.client.member(
                self.stall@[i]@,
            ) by {
                if self.stall@[i]@ == name@ {
                } else {
                    assert(listed(mid.stall@, self.stall@[i]@));
                    assert(listed(pre.stall@, self.stall@[i]@));
                    let j = choose|j: int|
                        0 <= j < pre.stall@.len() && pre.stall@[j]@ == self.stall@[i]@;
                    assert(!pre.client.member(pre.stall@[j]@));
                }
            }
        }
    }

    /// Fires the abort signal of any earlier stall entry for `name` and
    /// forgets the entry; returns whether the driver must deliver that
    /// signal, within `ABORT_CMD_TIMEOUT_MS`.
    pub fn try_unwatch_old(&mut self, name: &String) -> (fire: bool)
        requires
            old(self).wf(),
        ensures
            final(self).wf(),
            fire == old(self).stalled(name@),
            !final(self).stalled(name@),
            forall|m: Seq<char>| m != name@ ==> final(self).stalled(m) == old(self).stalled(m),
            final(self).client == old(self).client,
    {
        match self.stall_index(name) {
            Some(i) => {
                let ghost before = self.stall@;
                self.stall.remove(i);
                proof {
                    assert(self.stall@ == before.remove(i as int));
                    assert forall|j: int| 0 <= j < self.stall@.len() implies self.stall@[j] == (
                    if j < i as int {
                        before[j]
                    } else {
                        before[j + 1]
                    }) by {}
                    assert forall|j: int| 0 <= j < self.stall@.len() implies self.stall@[j]@
                        != name@ by {
                        let jj = if j < i as int {
                            j
                        } else {
                            j + 1
                        };
                        assert(self.stall@[j] == before[jj]);
                        if jj != i as int {
                            assert(before[jj]@ != before[i as int]@);
                        }
                    }
                    assert forall|m: Seq<char>| m != name@ implies listed(self.stall@, m)
                        == listed(before, m) by {
                        if listed(before, m) {
                            let j = choose|j: int| 0 <= j < before.len() && before[j]@ == m;
                            if j < i as int {
                                assert(self.stall@[j]@ == m);
                            } else if j > i as int {
                                assert(self.stall@[j - 1]@ == m);
                            }
                        }
                        if listed(self.stall@, m) {
                            let j = choose|j: int|
                                0 <= j < self.stall@.len() && self.stall@[j]@ == m;
                            if j < i as int {
                                assert(before[j]@ == m);
                            } else {
                                assert(before[j + 1]@ == m);
                            }
                        }
                    }
                    assert forall|i2: int| 0 <= i2 < self.stall@.len() implies !self
                        .client.member(self.stall@[i2]@) by {
                        let jj = if i2 < i as int {
                            i2
                        } else {
                            i2 + 1
                        };
                        assert(self.stall@[i2] == before[jj]);
                    }
                }
                true
            },
            None => { false },
        }
    }

    /// Handles a node's `JoinRequest`: aborts any stalled watcher for it,
    /// adds it to the active set, and opens a catch-up from the order the
    /// node reported.  Returns whether the old watcher's abort signal must
    /// be delivered, and the stashed replicas to replay.
    pub fn connect(&mut self, name: &String, node_ordering: u32) -> (r: (bool, Vec<Replica>))
        requires
            old(self).wf(),
        ensures
            final(self).wf(),
            r.0 == old(self).stalled(name@),
            !final(self).stalled(name@),
            final(self).client.member(name@),
            r.1@.map(|i: int, rep: Replica| rep@) == old(self).client.stash_models().filter(
                |rep: crate::replica::ReplicaModel| rep.order > node_ordering,
            ),
            listed(final(self).client.in_sync@, name@),
            forall|m: Seq<char>|
                m != name@ ==> final(self).stalled(m) == old(self).stalled(m) && final(self).client.member(m) == old(self).client.member(m) && final(self).client.is_suspected(m) == old(self).client.is_suspected(m),
            final(self).client.suspected_count == old(self).client.suspected_count,
            final(self).client.stash == old(self).client.stash,
            final(self).client.next_order == old(self).client.next_order,
            final(self).client.write_quorum == old(self).client.write_quorum,
    {
        let fire = self.try_unwatch_old(name);
        let ghost mid = *self;
        self.client.add_node(name.clone());
        proof {
            assert forall|i: int| 0 <= i < self.stall@.len() implies !self.client.member(
                self.stall@[i]@,
            ) by {
                assert(self.stall@[i]@ != name@);
                assert(!mid.client.member(self.stall@[i]@));
            }
        }
        let replay = self.client.sync_node(name, node_ordering);
        proof {
            assert forall|i: int| 0 <= i < self.stall@.len() implies !self.client.member(
                self.stall@[i]@,
            ) by {}
        }
        (fire, replay)
    }

    /// Settles a stalled node's fate: a rejoin aborts the old watcher and
    /// nothing more is done here; an elapsed stall lifetime forgets the
    /// node; a completed prober reads as recovery, and the driver must
    /// then send the node a sync request, under the retry policy, asking
    /// it to rejoin at its current order.
    pub fn stall_event(&mut self, name: &String, event: StallEvent) -> (send_sync: bool)
        requires
            old(self).wf(),
        ensures
            final(self).wf(),
            send_sync == (event is Recovered),
            event is TimedOut ==> !final(self).stalled(name@),
            event is TimedOut ==> forall|m: Seq<char>|
                m != name@ ==> final(self).stalled(m) == old(self).stalled(m),
            event is TimedOut ==> final(self).client == old(self).client,
            !(event is TimedOut) ==> *final(self) == *old(self),
    {
        match event {
            StallEvent::Rejoined => { false },
            StallEvent::TimedOut => {
                self.try_unwatch_old(name);
                false
            },
            StallEvent::Recovered => { true },
        }
    }

    /// The position of `name` in the stall set, if any.
    fn stall_index(&self, name: &String) -> (r: Option<usize>)
        ensures
            match r {
                Some(i) => i < self.stall@.len() && self.stall@[i as int]@ == name@,
                None => !listed(self.stall@, name@),
            },
    {
        let mut i: usize = 0;
        while i < self.stall.len()
            invariant
                i <= self.stall.len(),
                forall|j: int| 0 <= j < i ==> self.stall@[j]@ != name@,
            decreases self.stall.len() - i,
        {
            if name.eq(&self.stall[i]) {
                return Some(i);
            }
            i = i + 1;
        }
        None
    }
}

/// The active set and the stall set are disjoint: no stalled node is a
/// member.
pub proof fn lemma_active_and_stall_disjoint(cb: CircuitBreaker, name: Seq<char>)
    requires
        cb.wf(),
        cb.stalled(name),
    ensures
        !cb.client.member(name),
{
    let j = choose|j: int| 0 <= j < cb.stall@.len() && cb.stall@[j]@ == name;
    assert(!cb.client.member(cb.stall@[j]@));
}

} // verus!

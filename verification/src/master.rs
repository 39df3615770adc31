//! The master side of replication: the membership table with its suspicion
//! accounting, the write-admission gate, the per-write fan-out plan, the
//! stash of attempted replicas, and the catch-up snapshot for a recovering
//! node.
//!
//! The master owns the transport handles and the write-concern barrier
//! outside this state; here live the decisions: who is a member, whether a
//! write is admitted, which order a replica gets, which nodes a write fans
//! out to, and which stashed replicas a catch-up replays.

use crate::message::Message;
use crate::message::MessageLog;
use crate::replica::Replica;
use crate::replica::ReplicaModel;
use crate::replica::fresh_replica_id;
use vstd::prelude::*;

verus! {

/// Default write quorum: how many unsuspected members a write needs to be
/// admitted.
pub const WRITE_QUORUM: usize = 1;
/// How long a fan-out task waits for a node's catch-up to finish before
/// replicating anyway, in milliseconds.
pub const REQUEST_BLOCK_TIME_ON_SYNC_MS: u64 = 30000;

/// One member of the active set: its hostname and whether the prober
/// currently suspects it.  The transport handle that the name keys lives
/// with the driver.
pub struct NodeEntry {
    pub name: String,
    pub suspected: bool,
}

/// Whether some entry is named `m`.
pub open spec fn named_somewhere(s: Seq<NodeEntry>, m: Seq<char>) -> bool {
    exists|j: int| 0 <= j < s.len() && s[j].name@ == m
}

/// Whether some entry named `m` is suspected.
pub open spec fn suspected_somewhere(s: Seq<NodeEntry>, m: Seq<char>) -> bool {
    exists|j: int| 0 <= j < s.len() && s[j].name@ == m && s[j].suspected
}

/// No two entries share a name.
pub open spec fn names_unique(s: Seq<NodeEntry>) -> bool {
    forall|i: int, j: int| 0 <= i < j < s.len() ==> s[i].name@ != s[j].name@
}

/// How many entries are suspected.
pub open spec fn suspected_in(s: Seq<NodeEntry>) -> nat
    decreases s.len(),
{
    if s.len() == 0 {
        0
    } else {
        suspected_in(s.drop_last()) + (if s.last().suspected {
            1nat
        } else {
            0nat
        })
    }
}

/// No more entries are suspected than exist.
pub proof fn lemma_suspected_in_le_len(s: Seq<NodeEntry>)
    ensures
        suspected_in(s) <= s.len(),
    decreases s.len(),
{
    if s.len() > 0 {
        lemma_suspected_in_le_len(s.drop_last());
    }
}

/// An unsuspected entry keeps the count strictly below the length.
proof fn lemma_suspected_in_lt_len(s: Seq<NodeEntry>, i: int)
    requires
        0 <= i < s.len(),
        !s[i].suspected,
    ensures
        suspected_in(s) < s.len(),
    decreases s.len(),
{
    if i == s.len() - 1 {
        lemma_suspected_in_le_len(s.drop_last());
    } else {
        lemma_suspected_in_lt_len(s.drop_last(), i);
    }
}

/// A suspected entry keeps the count positive.
proof fn lemma_suspected_in_pos(s: Seq<NodeEntry>, i: int)
    requires
        0 <= i < s.len(),
        s[i].suspected,
    ensures
        suspected_in(s) >= 1,
    decreases s.len(),
{
    if i < s.len() - 1 {
        lemma_suspected_in_pos(s.drop_last(), i);
    }
}

/// Appending one entry grows the count by its flag.
proof fn lemma_suspected_in_push(s: Seq<NodeEntry>, e: NodeEntry)
    ensures
        suspected_in(s.push(e)) == suspected_in(s) + (if e.suspected {
            1nat
        } else {
            0nat
        }),
{
    assert(s.push(e).drop_last() =~= s);
    assert(s.push(e).last() == e);
}

/// Replacing one entry moves the count by the difference of the flags.
proof fn lemma_suspected_in_update(s: Seq<NodeEntry>, i: int, e: NodeEntry)
    requires
        0 <= i < s.len(),
    ensures
        suspected_in(s.update(i, e)) == suspected_in(s) + (if e.suspected {
            1nat
        } else {
            0nat
        }) - (if s[i].suspected {
            1nat
        } else {
            0nat
        }),
    decreases s.len(),
{
    let t = s.update(i, e);
    if i == s.len() - 1 {
        assert(t.drop_last() =~= s.drop_last());
        assert(t.last() == e);
    } else {
        assert(t.drop_last() =~= s.drop_last().update(i, e));
        assert(t.last() == s.last());
        lemma_suspected_in_update(s.drop_last(), i, e);
    }
}

/// Removing one entry shrinks the count by its flag.
proof fn lemma_suspected_in_remove(s: Seq<NodeEntry>, i: int)
    requires
        0 <= i < s.len(),
    ensures
        suspected_in(s.remove(i)) == suspected_in(s) - (if s[i].suspected {
            1nat
        } else {
            0nat
        }),
    decreases s.len(),
{
    let t = s.remove(i);
    if i == s.len() - 1 {
        assert(t =~= s.drop_last());
    } else {
        assert(t.drop_last() =~= s.drop_last().remove(i));
        assert(t.last() == s.last());
        lemma_suspected_in_remove(s.drop_last(), i);
    }
}

/// With unique names, removing the entry named `name` leaves `name` out.
proof fn lemma_named_removed(s: Seq<NodeEntry>, i: int, name: Seq<char>)
    requires
        0 <= i < s.len(),
        s[i].name@ == name,
        names_unique(s),
    ensures
        !named_somewhere(s.remove(i), name),
        names_unique(s.remove(i)),
{
    let t = s.remove(i);
    assert forall|j: int| 0 <= j < t.len() implies t[j].name@ != name by {
        if j < i {
            assert(t[j] == s[j]);
        } else {
            assert(t[j] == s[j + 1]);
        }
    }
    assert forall|p: int, q: int| 0 <= p < q < t.len() implies t[p].name@ != t[q].name@ by {
        let pp = if p < i {
            p
        } else {
            p + 1
        };
        let qq = if q < i {
            q
        } else {
            q + 1
        };
        assert(t[p] == s[pp]);
        assert(t[q] == s[qq]);
    }
}

/// Membership and suspicion of any other name survive the removal of one
/// entry.
proof fn lemma_named_after_remove(s: Seq<NodeEntry>, i: int, m: Seq<char>)
    requires
        0 <= i < s.len(),
        m != s[i].name@,
    ensures
        named_somewhere(s.remove(i), m) == named_somewhere(s, m),
        suspected_somewhere(s.remove(i), m) == suspected_somewhere(s, m),
{
    let t = s.remove(i);
    assert forall|j: int| 0 <= j < t.len() implies t[j] == (if j < i {
        s[j]
    } else {
        s[j + 1]
    }) by {}
    if named_somewhere(s, m) {
        let j = choose|j: int| 0 <= j < s.len() && s[j].name@ == m;
        if j < i {
            assert(t[j].name@ == m);
        } else {
            assert(t[j - 1].name@ == m);
        }
    }
    if named_somewhere(t, m) {
        let j = choose|j: int| 0 <= j < t.len() && t[j].name@ == m;
        if j < i {
            assert(s[j].name@ == m);
        } else {
            assert(s[j + 1].name@ == m);
        }
    }
    if suspected_somewhere(s, m) {
        let j = choose|j: int| 0 <= j < s.len() && s[j].name@ == m && s[j].suspected;
        if j < i {
            assert(t[j].name@ == m && t[j].suspected);
        } else {
            assert(t[j - 1].name@ == m && t[j - 1].suspected);
        }
    }
    if suspected_somewhere(t, m) {
        let j = choose|j: int| 0 <= j < t.len() && t[j].name@ == m && t[j].suspected;
        if j < i {
            assert(s[j].name@ == m && s[j].suspected);
        } else {
            assert(s[j + 1].name@ == m && s[j + 1].suspected);
        }
    }
}

/// After updating entry `i`'s flag, the name it carries reads the new
/// flag, names being unique; any other name reads what it read before.
proof fn lemma_suspicion_update(s: Seq<NodeEntry>, i: int, e: NodeEntry, m: Seq<char>)
    requires
        0 <= i < s.len(),
        e.name@ == s[i].name@,
        names_unique(s),
    ensures
        names_unique(s.update(i, e)),
        named_somewhere(s.update(i, e), m) == named_somewhere(s, m),
        m == s[i].name@ ==> suspected_somewhere(s.update(i, e), m) == e.suspected,
        m != s[i].name@ ==> suspected_somewhere(s.update(i, e), m) == suspected_somewhere(s, m),
{
    let t = s.update(i, e);
    assert forall|j: int| 0 <= j < t.len() implies t[j].name@ == s[j].name@ by {}
    if named_somewhere(s, m) {
        let j = choose|j: int| 0 <= j < s.len() && s[j].name@ == m;
        assert(t[j].name@ == m);
    }
    if named_somewhere(t, m) {
        let j = choose|j: int| 0 <= j < t.len() && t[j].name@ == m;
        assert(s[j].name@ == m);
    }
    if m == s[i].name@ {
        if e.suspected {
            assert(t[i].name@ == m && t[i].suspected);
        } else {
            assert forall|j: int| 0 <= j < t.len() && t[j].name@ == m implies !t[j].suspected by {
                if j != i {
                    assert(s[j].name@ != s[i].name@);
                }
            }
        }
    } else {
        if suspected_somewhere(s, m) {
            let j = choose|j: int| 0 <= j < s.len() && s[j].name@ == m && s[j].suspected;
            assert(j != i);
            assert(t[j].name@ == m && t[j].suspected);
        }
        if suspected_somewhere(t, m) {
            let j = choose|j: int| 0 <= j < t.len() && t[j].name@ == m && t[j].suspected;
            assert(j != i);
            assert(s[j].name@ == m && s[j].suspected);
        }
    }
}

/// The master's replication coordinator: the active set keyed by hostname,
/// the set of nodes a catch-up is running against, the stash of attempted
/// replicas, the suspicion counter, and the order counter.
pub struct ReplicatorMultiClient {
    /// The active set.  The driver keys the matching transport handles by
    /// the same names.
    pub nodes: Vec<NodeEntry>,
    /// Hostnames a catch-up is currently running against; fresh writes to
    /// them wait for the catch-up, up to `REQUEST_BLOCK_TIME_ON_SYNC_MS`.
    pub in_sync: Vec<String>,
    /// Every replica the master has attempted to replicate, deduplicated
    /// by identifier, order and content; feeds catch-up.
    pub stash: Vec<Replica>,
    /// Nodes currently rated `Suspected`; kept equal to the flags in
    /// `nodes`.
    pub suspected_count: usize,
    /// The next order to assign; starts at one and is monotone.
    pub next_order: u32,
    /// How many unsuspected members a write needs.
    pub write_quorum: usize,
}

impl ReplicatorMultiClient {
    /// The member names, in table order.
    pub open spec fn names(self) -> Seq<Seq<char>> {
        self.nodes@.map(|i: int, e: NodeEntry| e.name@)
    }

    /// Whether `name` is in the active set.
    pub open spec fn member(self, name: Seq<char>) -> bool {
        named_somewhere(self.nodes@, name)
    }

    /// Whether the member `name` is currently suspected.
    pub open spec fn is_suspected(self, name: Seq<char>) -> bool {
        suspected_somewhere(self.nodes@, name)
    }

    /// The hostnames a catch-up is running against.
    pub open spec fn in_sync_names(self) -> Seq<Seq<char>> {
        self.in_sync@.map(|i: int, s: String| s@)
    }

    /// The stash as the contracts see it.
    pub open spec fn stash_models(self) -> Seq<ReplicaModel> {
        self.stash@.map(|i: int, r: Replica| r@)
    }

    /// Whether an equal replica is already stashed.
    pub open spec fn stashed(self, r: ReplicaModel) -> bool {
        self.stash_models().contains(r)
    }

    /// Member names are unique, the suspicion counter equals the flags in
    /// the table, stashed replicas are pairwise distinct, and no host is
    /// marked in sync twice.
    pub open spec fn wf(self) -> bool {
        &&& names_unique(self.nodes@)
        &&& self.suspected_count == suspected_in(self.nodes@)
        &&& forall|i: int, j: int|
            0 <= i < j < self.stash_models().len() ==> self.stash_models()[i]
                != self.stash_models()[j]
        &&& forall|i: int, j: int|
            0 <= i < j < self.in_sync@.len() ==> self.in_sync@[i]@ != self.in_sync@[j]@
    }

    /// An empty coordinator: no members, nothing stashed, orders start at
    /// one, under the default write quorum.
    pub fn init() -> (r: Self)
        ensures
            r.wf(),
            r.nodes@.len() == 0,
            r.in_sync@.len() == 0,
            r.stash@.len() == 0,
            r.suspected_count == 0,
            r.next_order == 1,
            r.write_quorum == WRITE_QUORUM,
    {
        Self::init_with_quorum(WRITE_QUORUM)
    }

    /// An empty coordinator with an explicit write quorum.
    pub fn init_with_quorum(write_quorum: usize) -> (r: Self)
        ensures
            r.wf(),
            r.nodes@.len() == 0,
            r.in_sync@.len() == 0,
            r.stash@.len() == 0,
            r.suspected_count == 0,
            r.next_order == 1,
            r.write_quorum == write_quorum,
    {
        ReplicatorMultiClient {
            nodes: Vec::new(),
            in_sync: Vec::new(),
            stash: Vec::new(),
            suspected_count: 0,
            next_order: 1,
            write_quorum,
        }
    }

    /// The index of the member named `name`, if any.
    fn find_node(&self, name: &String) -> (r: Option<usize>)
        ensures
            match r {
                Some(i) => i < self.nodes@.len() && self.nodes@[i as int].name@ == name@,
                None => !self.member(name@),
            },
    {
        let mut i: usize = 0;
        while i < self.nodes.len()
            invariant
                i <= self.nodes.len(),
                forall|j: int| 0 <= j < i ==> self.nodes@[j].name@ != name@,
            decreases self.nodes.len() - i,
        {
            if name.eq(&self.nodes[i].name) {
                return Some(i);
            }
            i = i + 1;
        }
        None
    }

    /// The admission gate: whether enough unsuspected members remain for a
    /// write under the configured quorum.
    pub fn verify_quorum(&self) -> (meets: bool)
        requires
            self.wf(),
        ensures
            meets == (self.nodes@.len() - suspected_in(self.nodes@) >= self.write_quorum),
    {
        proof {
            lemma_suspected_in_le_len(self.nodes@);
        }
        let active_nodes = self.nodes.len() - self.suspected_count;
        active_nodes >= self.write_quorum
    }

    /// Adds `host` to the active set, unsuspected; an existing entry is
    /// left as it is (its transport handle alone is refreshed, outside
    /// this state).
    pub fn add_node(&mut self, host: String)
        requires
            old(self).wf(),
        ensures
            final(self).wf(),
            final(self).member(host@),
            forall|m: Seq<char>|
                m != host@ ==> final(self).member(m) == old(self).member(m) && final(self).is_suspected(m) == old(self).is_suspected(m),
            old(self).member(host@) ==> final(self).nodes@ == old(self).nodes@,
            !old(self).member(host@) ==> final(self).nodes@ == old(self).nodes@.push(
                NodeEntry { name: host, suspected: false },
            ),
            final(self).suspected_count == old(self).suspected_count,
            final(self).in_sync == old(self).in_sync,
            final(self).stash == old(self).stash,
            final(self).next_order == old(self).next_order,
            final(self).write_quorum == old(self).write_quorum,
    {
        match self.find_node(&host) {
            Some(i) => {
                proof {
                    assert(self.nodes@[i as int].name@ == host@);
                    assert(self.stash_models() =~= old(self).stash_models());
                }
            },
            None => {
                let ghost before = self.nodes@;
                let ghost hostv = host@;
                self.nodes.push(NodeEntry { name: host, suspected: false });
                proof {
                    let e = self.nodes@.last();
                    lemma_suspected_in_push(before, e);
                    assert(self.nodes@ == before.push(e));
                    assert(self.nodes@[before.len() as int].name@ == hostv);
                    assert(self.member(hostv));
                    assert forall|p: int, q: int| 0 <= p < q < self.nodes@.len() implies self
                        .nodes@[p].name@ != self.nodes@[q].name@ by {
                        if q == self.nodes@.len() - 1 {
                            assert(self.nodes@[p] == before[p]);
                            assert(!named_somewhere(before, hostv));
                        } else {
                            assert(self.nodes@[p] == before[p]);
                            assert(self.nodes@[q] == before[q]);
                        }
                    }
                    assert forall|m: Seq<char>| m != hostv implies self.member(m) == old(self).member(m) && self.is_suspected(m) == old(self).is_suspected(m) by {
                        if named_somewhere(before, m) {
                            let j = choose|j: int| 0 <= j < before.len() && before[j].name@ == m;
                            assert(self.nodes@[j].name@ == m);
                        }
                        if named_somewhere(self.nodes@, m) {
                            let j = choose|j: int|
                                0 <= j < self.nodes@.len() && self.nodes@[j].name@ == m;
                            assert(j < before.len());
                            assert(before[j].name@ == m);
                        }
                        if suspected_somewhere(before, m) {
                            let j = choose|j: int|
                                0 <= j < before.len() && before[j].name@ == m && before[j].suspected;
                            assert(self.nodes@[j].name@ == m && self.nodes@[j].suspected);
                        }
                        if suspected_somewhere(self.nodes@, m) {
                            let j = choose|j: int|
                                0 <= j < self.nodes@.len() && self.nodes@[j].name@ == m
                                    && self.nodes@[j].suspected;
                            assert(j < before.len());
                            assert(before[j].name@ == m && before[j].suspected);
                        }
                    }
                    assert(self.stash_models() =~= old(self).stash_models());
                }
            },
        }
    }

    /// Removes the member named `name`; absent names change nothing.  A
    /// suspected member leaving lowers the suspicion counter with it.
    pub fn del_node(&mut self, name: &String)
        requires
            old(self).wf(),
        ensures
            final(self).wf(),
            !final(self).member(name@),
            forall|m: Seq<char>|
                m != name@ ==> final(self).member(m) == old(self).member(m) && final(self).is_suspected(m) == old(self).is_suspected(m),
            !old(self).member(name@) ==> final(self).nodes@ == old(self).nodes@,
            old(self).member(name@) ==> final(self).nodes@.len() == old(self).nodes@.len() - 1,
            final(self).suspected_count == old(self).suspected_count - (if old(self).member(name@)
                && old(self).is_suspected(name@) {
                1int
            } else {
                0int
            }),
            final(self).in_sync == old(self).in_sync,
            final(self).stash == old(self).stash,
            final(self).next_order == old(self).next_order,
            final(self).write_quorum == old(self).write_quorum,
    {
        match self.find_node(name) {
            Some(i) => {
                let ghost before = self.nodes@;
                proof {
                    assert(before[i as int].name@ == name@);
                    assert(old(self).member(name@));
                    if before[i as int].suspected {
                        assert(suspected_somewhere(before, name@));
                    } else {
                        assert forall|j: int|
                            0 <= j < before.len() && before[j].name@ == name@ implies !before[j].suspected by {
                            if j != i as int {
                                assert(before[j].name@ != before[i as int].name@);
                            }
                        }
                        assert(!suspected_somewhere(before, name@));
                    }
                }
                let removed = self.nodes.remove(i);
                if removed.suspected {
                    proof {
                        lemma_suspected_in_pos(before, i as int);
                    }
                    self.suspected_count = self.suspected_count - 1;
                }
                proof {
                    lemma_suspected_in_remove(before, i as int);
                    assert(self.nodes@ == before.remove(i as int));
                    lemma_named_removed(before, i as int, name@);
                    assert forall|m: Seq<char>| m != name@ implies self.member(m) == old(self).member(m) && self.is_suspected(m) == old(self).is_suspected(m) by {
                        lemma_named_after_remove(before, i as int, m);
                    }
                    assert(self.stash_models() =~= old(self).stash_models());
                }
            },
            None => {},
        }
    }

    /// Marks the member `name` as suspected; absent names and members
    /// already suspected change nothing.
    pub fn increment_suspected(&mut self, name: &String)
        requires
            old(self).wf(),
        ensures
            final(self).wf(),
            old(self).member(name@) ==> final(self).is_suspected(name@),
            !old(self).member(name@) ==> final(self).nodes@ == old(self).nodes@,
            forall|m: Seq<char>|
                m != name@ ==> final(self).member(m) == old(self).member(m) && final(self).is_suspected(m) == old(self).is_suspected(m),
            final(self).member(name@) == old(self).member(name@),
            final(self).nodes@.len() == old(self).nodes@.len(),
            final(self).suspected_count == old(self).suspected_count + (if old(self).member(name@)
                && !old(self).is_suspected(name@) {
                1int
            } else {
                0int
            }),
            final(self).in_sync == old(self).in_sync,
            final(self).stash == old(self).stash,
            final(self).next_order == old(self).next_order,
            final(self).write_quorum == old(self).write_quorum,
    {
        self.set_suspicion(name, true);
    }

    /// Clears the member `name`'s suspicion; absent names and members not
    /// suspected change nothing.  The counter saturates at zero by
    /// construction: it only falls when a suspected member is cleared.
    pub fn decrement_suspected(&mut self, name: &String)
        requires
            old(self).wf(),
        ensures
            final(self).wf(),
            old(self).member(name@) ==> !final(self).is_suspected(name@),
            !old(self).member(name@) ==> final(self).nodes@ == old(self).nodes@,
            forall|m: Seq<char>|
                m != name@ ==> final(self).member(m) == old(self).member(m) && final(self).is_suspected(m) == old(self).is_suspected(m),
            final(self).member(name@) == old(self).member(name@),
            final(self).nodes@.len() == old(self).nodes@.len(),
            final(self).suspected_count == old(self).suspected_count - (if old(self).member(name@)
                && old(self).is_suspected(name@) {
                1int
            } else {
                0int
            }),
            final(self).in_sync == old(self).in_sync,
            final(self).stash == old(self).stash,
            final(self).next_order == old(self).next_order,
            final(self).write_quorum == old(self).write_quorum,
    {
        self.set_suspicion(name, false);
    }

    /// Sets the member `name`'s suspicion flag and keeps the counter in
    /// step.
    fn set_suspicion(&mut self, name: &String, suspected: bool)
        requires
            old(self).wf(),
        ensures
            final(self).wf(),
            old(self).member(name@) ==> final(self).is_suspected(name@) == suspected,
            !old(self).member(name@) ==> final(self).nodes@ == old(self).nodes@,
            forall|m: Seq<char>|
                m != name@ ==> final(self).member(m) == old(self).member(m) && final(self).is_suspected(m) == old(self).is_suspected(m),
            final(self).member(name@) == old(self).member(name@),
            final(self).nodes@.len() == old(self).nodes@.len(),
            final(self).suspected_count == old(self).suspected_count + (if old(self).member(name@)
                && suspected && !old(self).is_suspected(name@) {
                1int
            } else {
                0int
            }) - (if old(self).member(name@) && !suspected && old(self).is_suspected(name@) {
                1int
            } else {
                0int
            }),
            final(self).in_sync == old(self).in_sync,
            final(self).stash == old(self).stash,
            final(self).next_order == old(self).next_order,
            final(self).write_quorum == old(self).write_quorum,
    {
        match self.find_node(name) {
            Some(i) => {
                let ghost before = self.nodes@;
                let n = self.nodes.len();
                let was = self.nodes[i].suspected;
                proof {
                    assert(before[i as int].name@ == name@);
                    assert(old(self).member(name@));
                    if was {
                        assert(suspected_somewhere(before, name@));
                    } else {
                        assert forall|j: int|
                            0 <= j < before.len() && before[j].name@ == name@ implies !before[j].suspected by {
                            if j != i as int {
                                assert(before[j].name@ != before[i as int].name@);
                            }
                        }
                        assert(!suspected_somewhere(before, name@));
                    }
                }
                let entry = self.nodes.remove(i);
                let entry = NodeEntry { suspected, ..entry };
                self.nodes.insert(i, entry);
                proof {
                    assert(self.nodes@ =~= before.update(
                        i as int,
                        NodeEntry { suspected, ..before[i as int] },
                    ));
                }
                if suspected && !was {
                    proof {
                        lemma_suspected_in_lt_len(before, i as int);
                    }
                    self.suspected_count = self.suspected_count + 1;
                } else if !suspected && was {
                    proof {
                        lemma_suspected_in_pos(before, i as int);
                    }
                    self.suspected_count = self.suspected_count - 1;
                }
                proof {
                    let e = NodeEntry { suspected, ..before[i as int] };
                    lemma_suspected_in_update(before, i as int, e);
                    lemma_suspicion_update(before, i as int, e, name@);
                    assert(self.is_suspected(name@) == suspected);
                    assert(self.member(name@));
                    assert forall|m: Seq<char>| m != name@ implies self.member(m) == old(self).member(m) && self.is_suspected(m) == old(self).is_suspected(m) by {
                        lemma_suspicion_update(before, i as int, e, m);
                    }
                    assert(self.stash_models() =~= old(self).stash_models());
                }
            },
            None => {},
        }
    }
}

/// The suspicion counter is never negative and never exceeds the size of
/// the active set.
pub proof fn lemma_suspected_count_bounded(c: ReplicatorMultiClient)
    requires
        c.wf(),
    ensures
        0 <= c.suspected_count <= c.nodes@.len(),
{
    lemma_suspected_in_le_len(c.nodes@);
}

/// Whether some string in the list reads `m`.
pub open spec fn listed(s: Seq<String>, m: Seq<char>) -> bool {
    exists|j: int| 0 <= j < s.len() && s[j]@ == m
}

/// The body of a client write: the payload, the requested write concern,
/// and an optional explicit order used for tests and replay.
pub struct RequestBody {
    pub message: String,
    pub wc: u8,
    pub __ordering: Option<u32>,
}

/// One node a write fans out to: its hostname, and whether a catch-up is
/// running against it, in which case the fan-out task first waits for the
/// catch-up, up to `REQUEST_BLOCK_TIME_ON_SYNC_MS`.
pub struct ReplicationTarget {
    pub name: String,
    pub in_sync: bool,
}

/// Everything one write's fan-out needs: the replica to send, the
/// capacity of the write-concern barrier, and the member nodes to send
/// to.  The driver spawns one task per target, arrives at the barrier once
/// itself, and answers the client when the barrier opens.
pub struct ReplicationPlan {
    pub replica: Replica,
    pub write_concern: usize,
    pub targets: Vec<ReplicationTarget>,
}

/// The effective write concern: the requested one clamped into
/// `1 ..= members + 1`, the `+ 1` accounting for the master's own append.
pub open spec fn clamped_write_concern(wc: u8, members: int) -> int {
    let capped = if wc as int <= members + 1 {
        wc as int
    } else {
        members + 1
    };
    if capped >= 1 {
        capped
    } else {
        1
    }
}

impl ReplicatorMultiClient {
    /// Clamps the requested write concern into `1 ..= members + 1`: zero
    /// means non-blocking and becomes one; more than every member plus the
    /// master is capped there.
    pub fn effective_write_concern(&self, wc: u8) -> (w: usize)
        ensures
            w == clamped_write_concern(wc, self.nodes@.len() as int),
    {
        let requested = wc as usize;
        let base = if requested >= 1 {
            requested
        } else {
            1
        };
        if base <= self.nodes.len() {
            base
        } else {
            // base exceeds the member count and is at most 255, so the
            // cap `members + 1` fits
            let cap = self.nodes.len() + 1;
            if base <= cap {
                base
            } else {
                cap
            }
        }
    }

    /// Whether a catch-up is running against `host`.
    fn in_sync_contains(&self, host: &String) -> (r: bool)
        ensures
            r == listed(self.in_sync@, host@),
    {
        let mut i: usize = 0;
        while i < self.in_sync.len()
            invariant
                i <= self.in_sync.len(),
                forall|j: int| 0 <= j < i ==> self.in_sync@[j]@ != host@,
            decreases self.in_sync.len() - i,
        {
            if host.eq(&self.in_sync[i]) {
                return true;
            }
            i = i + 1;
        }
        false
    }

    /// Whether an equal replica is already stashed.
    fn stash_contains(&self, r: &Replica) -> (found: bool)
        ensures
            found == self.stashed(r@),
    {
        let mut i: usize = 0;
        while i < self.stash.len()
            invariant
                i <= self.stash.len(),
                forall|j: int| 0 <= j < i ==> self.stash_models()[j] != r@,
            decreases self.stash.len() - i,
        {
            if self.stash[i].same_as(r) {
                proof {
                    assert(self.stash_models()[i as int] == r@);
                }
                return true;
            }
            i = i + 1;
        }
        proof {
            assert(forall|j: int|
                0 <= j < self.stash_models().len() ==> self.stash_models()[j] != r@);
        }
        false
    }

    /// Stashes the replica unless an equal one already is.
    fn stash_insert(&mut self, r: Replica)
        requires
            old(self).wf(),
        ensures
            final(self).wf(),
            final(self).stashed(r@),
            old(self).stashed(r@) ==> final(self).stash@ == old(self).stash@,
            !old(self).stashed(r@) ==> final(self).stash@ == old(self).stash@.push(r),
            final(self).nodes == old(self).nodes,
            final(self).in_sync == old(self).in_sync,
            final(self).suspected_count == old(self).suspected_count,
            final(self).next_order == old(self).next_order,
            final(self).write_quorum == old(self).write_quorum,
    {
        if self.stash_contains(&r) {
            return ;
        }
        let ghost before = self.stash@;
        let ghost rv = r@;
        self.stash.push(r);
        proof {
            assert(self.stash@ == before.push(self.stash@.last()));
            assert(self.stash_models() =~= old(self).stash_models().push(rv));
            assert(self.stash_models().last() == rv);
            assert(self.stashed(rv));
            assert forall|p: int, q: int| 0 <= p < q < self.stash_models().len() implies self
                .stash_models()[p] != self.stash_models()[q] by {
                if q == self.stash_models().len() - 1 {
                    assert(self.stash_models()[p] == old(self).stash_models()[p]);
                } else {
                    assert(self.stash_models()[p] == old(self).stash_models()[p]);
                    assert(self.stash_models()[q] == old(self).stash_models()[q]);
                }
            }
        }
    }

    /// Builds the fan-out for one client write.  The master assigns a
    /// fresh identifier and the next order — an explicit `__ordering`
    /// overrides the assigned order — stashes the replica before any
    /// dispatch, clamps the write concern, and lists every member as a
    /// target, marked when a catch-up is running against it.
    pub fn replicate(&mut self, message: Message, request: RequestBody) -> (plan: ReplicationPlan)
        requires
            old(self).wf(),
            old(self).next_order < u32::MAX,
        ensures
            final(self).wf(),
            plan.replica@.content == message@,
            plan.replica@.id.len() == 36,
            plan.replica@.order == (match request.__ordering {
                Some(o) => o,
                None => old(self).next_order,
            }),
            final(self).next_order == old(self).next_order + 1,
            final(self).stashed(plan.replica@),
            !old(self).stashed(plan.replica@) ==> final(self).stash_models() == old(self).stash_models().push(plan.replica@),
            old(self).stashed(plan.replica@) ==> final(self).stash_models() == old(self).stash_models(),
            plan.write_concern == clamped_write_concern(request.wc, old(self).nodes@.len() as int),
            plan.targets@.len() == old(self).nodes@.len(),
            forall|i: int|
                0 <= i < plan.targets@.len() ==> plan.targets@[i].name@ == old(self).nodes@[i].name@ && plan.targets@[i].in_sync == listed(
                    old(self).in_sync@,
                    old(self).nodes@[i].name@,
                ),
            final(self).nodes == old(self).nodes,
            final(self).in_sync == old(self).in_sync,
            final(self).suspected_count == old(self).suspected_count,
            final(self).write_quorum == old(self).write_quorum,
    {
        let write_concern = self.effective_write_concern(request.wc);
        let order = match request.__ordering {
            Some(o) => o,
            None => self.next_order,
        };
        self.next_order = self.next_order + 1;
        proof {
            assert(self.stash_models() =~= old(self).stash_models());
        }
        let replica = Replica { id: fresh_replica_id(), order, content: message.content };
        self.stash_insert(replica.clone());
        let mut targets: Vec<ReplicationTarget> = Vec::new();
        let mut i: usize = 0;
        while i < self.nodes.len()
            invariant
                i <= self.nodes.len(),
                targets@.len() == i,
                forall|j: int|
                    0 <= j < i ==> targets@[j].name@ == self.nodes@[j].name@
                        && targets@[j].in_sync == listed(self.in_sync@, self.nodes@[j].name@),
            decreases self.nodes.len() - i,
        {
            let name = self.nodes[i].name.clone();
            let in_sync = self.in_sync_contains(&name);
            targets.push(ReplicationTarget { name, in_sync });
            i = i + 1;
        }
        ReplicationPlan { replica, write_concern, targets }
    }

    /// Opens a catch-up for `host`: marks it in sync — fresh writes to it
    /// will wait — and snapshots every stashed replica beyond the node's
    /// reported order, for the driver to replay.  `end_sync` closes it.
    pub fn sync_node(&mut self, host: &String, from_order: u32) -> (replay: Vec<Replica>)
        requires
            old(self).wf(),
        ensures
            final(self).wf(),
            listed(final(self).in_sync@, host@),
            !listed(old(self).in_sync@, host@) ==> final(self).in_sync_names() == old(self).in_sync_names().push(host@),
            listed(old(self).in_sync@, host@) ==> final(self).in_sync == old(self).in_sync,
            replay@.map(|i: int, r: Replica| r@) == old(self).stash_models().filter(
                |r: ReplicaModel| r.order > from_order,
            ),
            final(self).nodes == old(self).nodes,
            final(self).stash == old(self).stash,
            final(self).suspected_count == old(self).suspected_count,
            final(self).next_order == old(self).next_order,
            final(self).write_quorum == old(self).write_quorum,
    {
        if !self.in_sync_contains(host) {
            let ghost before = self.in_sync@;
            self.in_sync.push(host.clone());
            proof {
                assert(self.in_sync@ == before.push(self.in_sync@.last()));
                assert(self.in_sync_names() =~= old(self).in_sync_names().push(host@));
                assert(self.in_sync@[before.len() as int]@ == host@);
                assert(listed(self.in_sync@, host@));
                assert(self.stash_models() =~= old(self).stash_models());
            }
        }
        proof {
            assert(self.stash_models() =~= old(self).stash_models());
        }
        let ghost pred = |r: ReplicaModel| r.order > from_order;
        let mut replay: Vec<Replica> = Vec::new();
        let mut i: usize = 0;
        proof {
            assert(self.stash_models().subrange(0, 0) =~= Seq::<ReplicaModel>::empty());
            assert(Seq::<ReplicaModel>::empty().filter(pred) =~= Seq::<ReplicaModel>::empty())
                by {
                reveal(Seq::filter);
            }
            assert(replay@.map(|k: int, r: Replica| r@) =~= Seq::<ReplicaModel>::empty());
        }
        while i < self.stash.len()
            invariant
                i <= self.stash.len(),
                replay@.map(|k: int, r: Replica| r@) == self.stash_models().subrange(
                    0,
                    i as int,
                ).filter(pred),
                pred == (|r: ReplicaModel| r.order > from_order),
            decreases self.stash.len() - i,
        {
            let ghost prefix = self.stash_models().subrange(0, i as int);
            let ghost prefix1 = self.stash_models().subrange(0, i as int + 1);
            proof {
                assert(prefix1 =~= prefix.push(self.stash_models()[i as int]));
            }
            if self.stash[i].order > from_order {
                let ghost rep_before = replay@;
                replay.push(self.stash[i].clone());
                proof {
                    assert(replay@ == rep_before.push(replay@.last()));
                    assert(replay@.last()@ == self.stash_models()[i as int]);
                    assert(replay@.map(|k: int, r: Replica| r@) =~= rep_before.map(
                        |k: int, r: Replica| r@,
                    ).push(self.stash_models()[i as int]));
                    assert(pred(self.stash_models()[i as int]));
                    assert(prefix1.filter(pred) == prefix.filter(pred).push(
                        self.stash_models()[i as int],
                    )) by {
                        reveal(Seq::filter);
                        assert(prefix1.drop_last() =~= prefix);
                        assert(prefix1.last() == self.stash_models()[i as int]);
                    }
                }
            } else {
                proof {
                    assert(!pred(self.stash_models()[i as int]));
                    assert(prefix1.filter(pred) == prefix.filter(pred)) by {
                        reveal(Seq::filter);
                        assert(prefix1.drop_last() =~= prefix);
                        assert(prefix1.last() == self.stash_models()[i as int]);
                    }
                }
            }
            i = i + 1;
        }
        proof {
            assert(self.stash_models().subrange(0, self.stash_models().len() as int)
                =~= self.stash_models());
        }
        replay
    }

    /// Closes the catch-up for `host`: the host leaves the in-sync table,
    /// so fresh writes to it no longer wait.  The driver delivers the sync
    /// signal that releases any waiting fan-out task before calling this.
    pub fn end_sync(&mut self, host: &String)
        requires
            old(self).wf(),
        ensures
            final(self).wf(),
            !listed(final(self).in_sync@, host@),
            forall|m: Seq<char>|
                m != host@ ==> listed(final(self).in_sync@, m) == listed(old(self).in_sync@, m),
            final(self).nodes == old(self).nodes,
            final(self).stash == old(self).stash,
            final(self).suspected_count == old(self).suspected_count,
            final(self).next_order == old(self).next_order,
            final(self).write_quorum == old(self).write_quorum,
    {
        match self.in_sync_index(host) {
            Some(i) => {
                let ghost before = self.in_sync@;
                self.in_sync.remove(i);
                proof {
                    assert(self.in_sync@ == before.remove(i as int));
                    assert(self.stash_models() =~= old(self).stash_models());
                    assert forall|j: int| 0 <= j < self.in_sync@.len() implies self.in_sync@[j]
                        == (if j < i as int {
                        before[j]
                    } else {
                        before[j + 1]
                    }) by {}
                    assert forall|j: int| 0 <= j < self.in_sync@.len() implies self.in_sync@[j]@
                        != host@ by {
                        let jj = if j < i as int {
                            j
                        } else {
                            j + 1
                        };
                        if jj != i as int {
                            assert(before[jj]@ != before[i as int]@);
                        }
                    }
                    assert forall|p: int, q: int| 0 <= p < q < self.in_sync@.len() implies self
                        .in_sync@[p]@ != self.in_sync@[q]@ by {
                        let pp = if p < i as int {
                            p
                        } else {
                            p + 1
                        };
                        let qq = if q < i as int {
                            q
                        } else {
                            q + 1
                        };
                        assert(self.in_sync@[p] == before[pp]);
                        assert(self.in_sync@[q] == before[qq]);
                    }
                    assert forall|m: Seq<char>| m != host@ implies listed(self.in_sync@, m)
                        == listed(before, m) by {
                        lemma_listed_after_remove(before, i as int, m);
                    }
                }
            },
            None => {},
        }
    }

    /// The position of `host` in the in-sync list, if any.
    fn in_sync_index(&self, host: &String) -> (r: Option<usize>)
        ensures
            match r {
                Some(i) => i < self.in_sync@.len() && self.in_sync@[i as int]@ == host@,
                None => !listed(self.in_sync@, host@),
            },
    {
        let mut i: usize = 0;
        while i < self.in_sync.len()
            invariant
                i <= self.in_sync.len(),
                forall|j: int| 0 <= j < i ==> self.in_sync@[j]@ != host@,
            decreases self.in_sync.len() - i,
        {
            if host.eq(&self.in_sync[i]) {
                return Some(i);
            }
            i = i + 1;
        }
        None
    }
}

/// Membership of any name in a string list survives the removal of one
/// entry that reads otherwise.
proof fn lemma_listed_after_remove(s: Seq<String>, i: int, m: Seq<char>)
    requires
        0 <= i < s.len(),
        m != s[i]@,
    ensures
        listed(s.remove(i), m) == listed(s, m),
{
    let t = s.remove(i);
    assert forall|j: int| 0 <= j < t.len() implies t[j] == (if j < i {
        s[j]
    } else {
        s[j + 1]
    }) by {}
    if listed(s, m) {
        let j = choose|j: int| 0 <= j < s.len() && s[j]@ == m;
        if j < i {
            assert(t[j]@ == m);
        } else {
            assert(t[j - 1]@ == m);
        }
    }
    if listed(t, m) {
        let j = choose|j: int| 0 <= j < t.len() && t[j]@ == m;
        if j < i {
            assert(s[j]@ == m);
        } else {
            assert(s[j + 1]@ == m);
        }
    }
}

/// The master's handling of one client write: when the quorum is not met
/// the write is refused and nothing changes; otherwise the message is
/// appended to the master's log and a fan-out plan covering every member
/// is produced.  A refusal answers 503, a plan answers 201.
pub fn write_message(
    client: &mut ReplicatorMultiClient,
    log: &mut MessageLog,
    request: RequestBody,
) -> (plan: Option<ReplicationPlan>)
    requires
        old(client).wf(),
        old(client).next_order < u32::MAX,
    ensures
        final(client).wf(),
        (plan is Some) == (old(client).nodes@.len() - suspected_in(old(client).nodes@) >= old(
            client,
        ).write_quorum),
        plan is None ==> *final(client) == *old(client) && *final(log) == *old(log),
        plan is Some ==> final(log)@ == old(log)@.push(request.message@),
        plan is Some ==> final(client).next_order == old(client).next_order + 1,
        final(client).in_sync == old(client).in_sync,
        final(client).suspected_count == old(client).suspected_count,
        final(client).write_quorum == old(client).write_quorum,
        match plan {
            None => true,
            Some(p) => {
                &&& p.replica@.content == request.message@
                &&& p.replica@.order == (match request.__ordering {
                    Some(o) => o,
                    None => old(client).next_order,
                })
                &&& p.write_concern == clamped_write_concern(
                    request.wc,
                    old(client).nodes@.len() as int,
                )
                &&& p.targets@.len() == old(client).nodes@.len()
                &&& forall|i: int|
                    0 <= i < p.targets@.len() ==> p.targets@[i].name@ == old(
                        client,
                    ).nodes@[i].name@ && p.targets@[i].in_sync == listed(
                        old(client).in_sync@,
                        old(client).nodes@[i].name@,
                    )
                &&& final(client).stashed(p.replica@)
                &&& final(client).nodes == old(client).nodes
            },
        },
{
    if !client.verify_quorum() {
        return None;
    }
    let message = Message { content: request.message.clone() };
    log.add(Message { content: message.content.clone() });
    let plan = client.replicate(message, request);
    Some(plan)
}

/// The host a join handler dials back: the hostname the joiner reported,
/// or, when it reported none, the peer address the request was seen from.
/// With neither, the join is refused as carrying nothing to connect to.
pub fn join_dial_host(reported: String, peer: Option<String>) -> (chosen: Option<String>)
    ensures
        reported@.len() > 0 ==> chosen == Some(reported),
        reported@.len() == 0 ==> chosen == peer,
{
    if !reported.as_str().is_empty() {
        Some(reported)
    } else {
        peer
    }
}

} // verus!

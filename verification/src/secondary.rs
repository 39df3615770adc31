//! The secondary side of replication: the ordering state, the validator
//! that classifies every inbound replica, and the state machine that
//! applies accepted replicas to the local log.
//!
//! Classification of a replica `{id, order}` against the state
//! `{current_ordering = C, messages_lost = L, seen identifiers = D}`:
//! a seen `id` is `Invalid` (duplicate); `order <= C` is `Belated` when
//! `L > 0` (it fills a recorded gap) and `Invalid` otherwise; `order == C+1`
//! is `Correct`; anything further ahead is `Disordered` and triggers a
//! bounded wait for its missing predecessors.  The waiting itself is the
//! driver's work: it learns the time budget from `correction_budget_ms`,
//! polls, and reports whether the budget ran out.

use crate::message::Message;
use crate::message::MessageLog;
use crate::replica::Replica;
use crate::replica::ReplicaModel;
use vstd::prelude::*;

verus! {

/// Default bounded wait for a gap, in milliseconds.
pub const ORDER_CORRECTION_TIME_LIMIT_MS: u64 = 60000;
/// Default gap-wait growth per missing message, in thousandths (a value of
/// 200 grows the wait by 0.2 of the base limit per unit of gap).
pub const ORDER_DIFF_MULTIPLIER_THOUSANDTHS: u64 = 200;
/// Default server-side ceiling on one request, in milliseconds.
pub const REQ_TIMEOUT_MS: u64 = 120000;
/// Default artificial delay before an accepted replica is appended, in
/// milliseconds; a knob the test rig uses to exercise ordering.
pub const REPLICATION_DELAY_MS: u64 = 5000;

/// Bound on the accepted gap-wait base limit; keeps the budget arithmetic
/// exact.
pub const CORRECTION_LIMIT_CEILING_MS: u64 = 0x1_0000_0000;
/// Bound on the accepted gap-wait multiplier, in thousandths.
pub const DIFF_MULTIPLIER_CEILING: u64 = 0x10_0000;

/// The verdict on one inbound replica.
pub enum MessageStatus {
    /// A duplicate or an unrecoverable repeat: rejected, nothing changes.
    Invalid,
    /// Fills a previously recorded gap: appended without moving the
    /// ordering counter.
    Belated,
    /// Exactly the successor of the last applied order.
    Correct,
    /// Further ahead than the successor: missing predecessors exist.
    Disordered,
}

/// The per-node flag that marks a catch-up with the master as being in
/// progress.
pub struct SyncMode(pub bool);

impl SyncMode {
    /// Whether a catch-up is in progress.
    pub fn enabled(&self) -> (on: bool)
        ensures
            on == self.0,
    {
        self.0
    }

    /// Sets the flag to `mode`, whatever it held.
    pub fn toggle(&mut self, mode: bool)
        ensures
            final(self).0 == mode,
    {
        self.0 = mode;
    }
}

impl Default for SyncMode {
    /// No catch-up is in progress at the start.
    fn default() -> (r: Self)
        ensures
            !r.0,
    {
        SyncMode(false)
    }
}

/// The secondary's replication state: the last applied order, the count of
/// messages known lost, every identifier ever accepted, and the sync flag.
pub struct ReplicationState {
    /// The last applied order; non-decreasing.
    pub current_ordering: u32,
    /// How many gap messages are known lost; decremented, saturating at
    /// zero, when a belated replica fills a gap.
    pub messages_lost: u32,
    /// Every identifier accepted so far; grows monotonically.
    pub unique_identifiers: Vec<String>,
    /// Set while a catch-up with the master is in progress.
    pub sync_mode: SyncMode,
}

impl ReplicationState {
    /// The identifiers as the contracts see them.
    pub open spec fn ids(self) -> Seq<Seq<char>> {
        self.unique_identifiers@.map(|i: int, s: String| s@)
    }

    /// No identifier is recorded twice.
    pub open spec fn wf(self) -> bool {
        forall|i: int, j: int|
            0 <= i < j < self.ids().len() ==> self.ids()[i] != self.ids()[j]
    }

    pub fn new() -> (r: Self)
        ensures
            r.wf(),
            r.current_ordering == 0,
            r.messages_lost == 0,
            r.ids() == Seq::<Seq<char>>::empty(),
            !r.sync_mode.0,
    {
        let r = ReplicationState {
            current_ordering: 0,
            messages_lost: 0,
            unique_identifiers: Vec::new(),
            sync_mode: SyncMode(false),
        };
        proof {
            assert(r.ids() =~= Seq::<Seq<char>>::empty());
        }
        r
    }

    /// The last applied order.
    pub fn get_ordering(&self) -> (o: u32)
        ensures
            o == self.current_ordering,
    {
        self.current_ordering
    }

    /// Whether the identifier was accepted before.
    pub fn duplicates(&self, identifier: &String) -> (r: bool)
        ensures
            r == self.ids().contains(identifier@),
    {
        let mut i: usize = 0;
        while i < self.unique_identifiers.len()
            invariant
                i <= self.unique_identifiers.len(),
                forall|j: int| 0 <= j < i ==> self.ids()[j] != identifier@,
            decreases self.unique_identifiers.len() - i,
        {
            if identifier.eq(&self.unique_identifiers[i]) {
                proof {
                    assert(self.ids()[i as int] == identifier@);
                }
                return true;
            }
            i = i + 1;
        }
        proof {
            assert(forall|j: int| 0 <= j < self.ids().len() ==> self.ids()[j] != identifier@);
        }
        false
    }

    /// Whether `order` is exactly the successor of the last applied order.
    pub fn consecutive_ordering(&self, order: u32) -> (r: bool)
        requires
            order >= 1,
        ensures
            r == (order == self.current_ordering + 1),
    {
        order - 1 == self.current_ordering
    }

    /// Whether any gap message is known lost.
    pub fn has_lost_messages(&self) -> (r: bool)
        ensures
            r == (self.messages_lost != 0),
    {
        self.messages_lost != 0
    }

    /// Records the identifier; nothing changes when it is already present.
    pub fn register_id(&mut self, identifier: String)
        requires
            old(self).wf(),
        ensures
            final(self).wf(),
            old(self).ids().contains(identifier@) ==> final(self).ids() == old(self).ids(),
            !old(self).ids().contains(identifier@) ==> final(self).ids() == old(
                self,
            ).ids().push(identifier@),
            final(self).current_ordering == old(self).current_ordering,
            final(self).messages_lost == old(self).messages_lost,
            final(self).sync_mode == old(self).sync_mode,
    {
        if !self.duplicates(&identifier) {
            self.unique_identifiers.push(identifier);
            proof {
                assert(self.ids() =~= old(self).ids().push(identifier@));
            }
        }
    }

    /// Moves the last applied order to `ordering`.
    pub fn register_ordering(&mut self, ordering: u32)
        ensures
            *final(self) == (ReplicationState { current_ordering: ordering, ..*old(self) }),
    {
        self.current_ordering = ordering;
    }

    /// Adds `modifier` to the lost count, saturating at zero.
    pub fn modify_lost_message_count(&mut self, modifier: i64)
        requires
            old(self).messages_lost + modifier <= u32::MAX,
        ensures
            final(self).messages_lost == (if old(self).messages_lost + modifier >= 0 {
                old(self).messages_lost + modifier
            } else {
                0
            }),
            final(self).current_ordering == old(self).current_ordering,
            final(self).unique_identifiers == old(self).unique_identifiers,
            final(self).sync_mode == old(self).sync_mode,
    {
        let lost = self.messages_lost as i64;
        let moved = lost + modifier;
        if moved >= 0 {
            self.messages_lost = moved as u32;
        } else {
            self.messages_lost = 0;
        }
    }
}

/// The response the secondary's replication service returns for one
/// replica.
pub enum ReplicateAck {
    /// Applied; the wire acknowledgment carries `success = true`.
    Accepted,
    /// Invalid (duplicate or unrecoverable repeat); nothing changed, the
    /// wire acknowledgment carries `success = false`.
    Rejected,
    /// Applied locally, but the sabotage toggle makes the wire response an
    /// error, exercising the master's retry and stash.
    Sabotaged,
}

/// The secondary's whole replicated state as the contracts see it.
#[verifier::ext_equal]
pub ghost struct SecondaryModel {
    pub current_ordering: u32,
    pub messages_lost: nat,
    pub ids: Seq<Seq<char>>,
    pub log: Seq<Seq<char>>,
    pub sync: bool,
}

impl SecondaryModel {
    /// The classification table for one inbound replica.
    pub open spec fn classify(self, r: ReplicaModel) -> MessageStatus {
        if self.ids.contains(r.id) {
            MessageStatus::Invalid
        } else if r.order <= self.current_ordering {
            if self.messages_lost != 0 {
                MessageStatus::Belated
            } else {
                MessageStatus::Invalid
            }
        } else if r.order == self.current_ordering + 1 {
            MessageStatus::Correct
        } else {
            MessageStatus::Disordered
        }
    }
}

/// The state after one replica is processed.  `gap_timed_out` tells whether
/// a disordered replica's bounded wait ran out, in which case the missing
/// predecessors are written off as lost.
pub open spec fn apply_model(
    m: SecondaryModel,
    r: ReplicaModel,
    gap_timed_out: bool,
) -> SecondaryModel {
    match m.classify(r) {
        MessageStatus::Invalid => m,
        MessageStatus::Correct => SecondaryModel {
            current_ordering: r.order,
            ids: m.ids.push(r.id),
            log: m.log.push(r.content),
            ..m
        },
        MessageStatus::Belated => SecondaryModel {
            ids: m.ids.push(r.id),
            log: m.log.push(r.content),
            messages_lost: if m.messages_lost > 0 {
                (m.messages_lost - 1) as nat
            } else {
                0
            },
            ..m
        },
        MessageStatus::Disordered => SecondaryModel {
            current_ordering: r.order,
            ids: m.ids.push(r.id),
            log: m.log.push(r.content),
            messages_lost: if gap_timed_out {
                (m.messages_lost + r.order - m.current_ordering - 1) as nat
            } else {
                m.messages_lost
            },
            ..m
        },
    }
}

/// The response one replica draws, given the sabotage toggle.
pub open spec fn ack_model(m: SecondaryModel, r: ReplicaModel, sabotage: bool) -> ReplicateAck {
    if m.classify(r) is Invalid {
        ReplicateAck::Rejected
    } else if sabotage {
        ReplicateAck::Sabotaged
    } else {
        ReplicateAck::Accepted
    }
}

/// The replicated log a secondary serves: its ordering state beside the
/// message log itself.
pub struct ReplicatedMessageLog {
    pub state: ReplicationState,
    pub log: MessageLog,
}

impl ReplicatedMessageLog {
    pub open spec fn view(self) -> SecondaryModel {
        SecondaryModel {
            current_ordering: self.state.current_ordering,
            messages_lost: self.state.messages_lost as nat,
            ids: self.state.ids(),
            log: self.log@,
            sync: self.state.sync_mode.0,
        }
    }

    /// The identifier record is well-formed, and no more messages are
    /// written off as lost than there are orders below the counter: every
    /// timeout writes off gaps strictly below the order it then applies.
    pub open spec fn wf(self) -> bool {
        &&& self.state.wf()
        &&& self.state.messages_lost <= self.state.current_ordering
    }

    /// The log and the identifier record are in step: one entry each per
    /// accepted replica.
    pub open spec fn balanced(self) -> bool {
        self@.ids.len() == self@.log.len()
    }

    pub fn new() -> (r: Self)
        ensures
            r.wf(),
            r.balanced(),
            r@ == (SecondaryModel {
                current_ordering: 0,
                messages_lost: 0,
                ids: Seq::<Seq<char>>::empty(),
                log: Seq::<Seq<char>>::empty(),
                sync: false,
            }),
    {
        let r = ReplicatedMessageLog { state: ReplicationState::new(), log: MessageLog::new() };
        proof {
            assert(r@ =~= (SecondaryModel {
                current_ordering: 0,
                messages_lost: 0,
                ids: Seq::<Seq<char>>::empty(),
                log: Seq::<Seq<char>>::empty(),
                sync: false,
            }));
        }
        r
    }

    /// Classifies one inbound replica; the state does not change.
    pub fn validate(&self, msg: &Replica) -> (status: MessageStatus)
        requires
            msg.order >= 1,
        ensures
            status == self@.classify(msg@),
    {
        if self.validate_uniqueness(&msg.id) {
            self.validate_ordering(msg.order)
        } else {
            MessageStatus::Invalid
        }
    }

    /// Whether the identifier is new; a seen one makes the replica a
    /// duplicate.
    fn validate_uniqueness(&self, msg_id: &String) -> (fresh: bool)
        ensures
            fresh == !self@.ids.contains(msg_id@),
    {
        !self.state.duplicates(msg_id)
    }

    /// Classifies by order alone, the identifier being fresh.
    fn validate_ordering(&self, msg_ordering: u32) -> (status: MessageStatus)
        requires
            msg_ordering >= 1,
        ensures
            status == (if msg_ordering <= self@.current_ordering {
                if self@.messages_lost != 0 {
                    MessageStatus::Belated
                } else {
                    MessageStatus::Invalid
                }
            } else if msg_ordering == self@.current_ordering + 1 {
                MessageStatus::Correct
            } else {
                MessageStatus::Disordered
            }),
    {
        let curr_order = self.state.get_ordering();
        if msg_ordering <= curr_order {
            if self.state.has_lost_messages() {
                MessageStatus::Belated
            } else {
                MessageStatus::Invalid
            }
        } else if !(self.state.consecutive_ordering(msg_ordering)) {
            MessageStatus::Disordered
        } else {
            MessageStatus::Correct
        }
    }

    /// Settles a disordered replica's bounded wait: when the budget ran out
    /// without the gap being filled, the missing predecessors are written
    /// off as lost.  The wait itself is the driver's: it polls
    /// `consecutive_ordering` within the budget that `correction_budget_ms`
    /// gives.
    pub fn correct_ordering(&mut self, msg_ordering: u32, timed_out: bool)
        requires
            msg_ordering > old(self).state.current_ordering + 1,
            old(self).state.messages_lost <= old(self).state.current_ordering,
        ensures
            final(self).state.current_ordering == old(self).state.current_ordering,
            final(self).state.unique_identifiers == old(self).state.unique_identifiers,
            final(self).state.sync_mode == old(self).state.sync_mode,
            final(self).log == old(self).log,
            timed_out ==> final(self).state.messages_lost == old(self).state.messages_lost + (
            msg_ordering - old(self).state.current_ordering - 1),
            !timed_out ==> final(self).state.messages_lost == old(self).state.messages_lost,
    {
        if timed_out {
            let order_diff = msg_ordering - self.state.get_ordering();
            self.state.modify_lost_message_count((order_diff - 1) as i64);
        }
    }

    /// Processes one replica end to end: classify, record the identifier,
    /// settle a disordered wait, append, and move the ordering counter for
    /// a non-belated accept.  An invalid replica changes nothing; a seen
    /// identifier in particular never mutates the log.  One identifier and
    /// one log entry are recorded per accepted replica, so a log in step
    /// with its identifier record stays in step.
    ///
    /// A replica still classified `Disordered` here commits only after its
    /// bounded wait ran out (the `requires`): a wait that ended with the
    /// gap filled leaves the replica the exact successor, `Correct`.
    pub fn replicate(&mut self, msg: Replica, gap_timed_out: bool, sabotage: bool) -> (ack:
        ReplicateAck)
        requires
            old(self).wf(),
            msg.order >= 1,
            old(self)@.classify(msg@) is Disordered ==> gap_timed_out,
        ensures
            final(self).wf(),
            final(self)@ == apply_model(old(self)@, msg@, gap_timed_out),
            ack == ack_model(old(self)@, msg@, sabotage),
            old(self).balanced() ==> final(self).balanced(),
    {
        let status = self.validate(&msg);
        if let MessageStatus::Invalid = status {
            return ReplicateAck::Rejected;
        }
        self.state.register_id(msg.id.clone());
        if let MessageStatus::Disordered = status {
            self.correct_ordering(msg.order, gap_timed_out);
        }
        // The driver sleeps REPLICATION_DELAY_MS here before the append.
        self.log.add(Message { content: msg.content });
        if let MessageStatus::Belated = status {
            self.state.modify_lost_message_count(-1);
        } else {
            self.state.register_ordering(msg.order);
        }
        proof {
            assert(self@ =~= apply_model(old(self)@, msg@, gap_timed_out));
        }
        if sabotage {
            ReplicateAck::Sabotaged
        } else {
            ReplicateAck::Accepted
        }
    }

    /// Handles a master-initiated sync request: when no catch-up is already
    /// in progress, marks one as started and hands the driver the order to
    /// rejoin with; the driver re-joins and then clears the flag.  The
    /// request is acknowledged immediately either way.
    pub fn sync(&mut self) -> (rejoin_at: Option<u32>)
        ensures
            final(self).state.sync_mode.0,
            final(self).state.current_ordering == old(self).state.current_ordering,
            final(self).state.messages_lost == old(self).state.messages_lost,
            final(self).state.unique_identifiers == old(self).state.unique_identifiers,
            final(self).log == old(self).log,
            rejoin_at == (if old(self).state.sync_mode.0 {
                Option::<u32>::None
            } else {
                Some(old(self).state.current_ordering)
            }),
    {
        let ordering = self.state.get_ordering();
        if !self.state.sync_mode.enabled() {
            self.state.sync_mode.toggle(true);
            Some(ordering)
        } else {
            None
        }
    }
}

/// The ordering counter never moves backwards: a step leaves it where it
/// was or advances it to the accepted order.
pub proof fn lemma_ordering_monotone(m: SecondaryModel, r: ReplicaModel, t: bool)
    ensures
        apply_model(m, r, t).current_ordering >= m.current_ordering,
{
}

/// The identifier record grows monotonically: what a step leaves behind
/// starts with everything that was there.
pub proof fn lemma_identifiers_monotone(m: SecondaryModel, r: ReplicaModel, t: bool)
    ensures
        apply_model(m, r, t).ids.len() >= m.ids.len(),
        forall|i: int| 0 <= i < m.ids.len() ==> apply_model(m, r, t).ids[i] == m.ids[i],
{
}

/// A replica accepted as `Correct` is exactly the successor of the last
/// applied order, and the counter moves to it.
pub proof fn lemma_correct_accept_is_successor(m: SecondaryModel, r: ReplicaModel, t: bool)
    requires
        m.classify(r) is Correct,
    ensures
        r.order == m.current_ordering + 1,
        apply_model(m, r, t).current_ordering == r.order,
{
}

/// Rejections and belated accepts leave the ordering counter where it was.
pub proof fn lemma_ordering_rests_without_accept(m: SecondaryModel, r: ReplicaModel, t: bool)
    requires
        m.classify(r) is Invalid || m.classify(r) is Belated,
    ensures
        apply_model(m, r, t).current_ordering == m.current_ordering,
{
}

/// Two consecutive non-belated accepts carry consecutive orders, provided
/// no gap wait timed out: the second accept at `o2` follows the first at
/// `o1` with `o2 == o1 + 1`.  The premises spell the setting out: each
/// accept is non-belated (`Correct` or `Disordered`); a disordered commit
/// only happens on a timeout, as `replicate` requires; and neither wait
/// timed out — together these make both accepts exact successors.  `mid`
/// is the state just before the second accept; every step between the two
/// accepts is a rejection or a belated accept, so the counter still reads
/// `o1` there.  A timed-out disordered accept breaks the property: it
/// moves the counter past the gap.
pub proof fn lemma_consecutive_non_belated_accepts(
    m0: SecondaryModel,
    r1: ReplicaModel,
    t1: bool,
    mid: SecondaryModel,
    r2: ReplicaModel,
    t2: bool,
)
    requires
        m0.classify(r1) is Correct || m0.classify(r1) is Disordered,
        mid.classify(r2) is Correct || mid.classify(r2) is Disordered,
        m0.classify(r1) is Disordered ==> t1,
        mid.classify(r2) is Disordered ==> t2,
        !t1,
        !t2,
        mid.current_ordering == apply_model(m0, r1, t1).current_ordering,
    ensures
        r1.order < r2.order,
        r2.order == r1.order + 1,
{
}

/// Submitting a replica whose identifier was already seen never mutates
/// the secondary's state; in particular the log is untouched and the
/// acknowledgment is a rejection.
pub proof fn lemma_duplicate_is_idempotent(
    m: SecondaryModel,
    r: ReplicaModel,
    t: bool,
    sabotage: bool,
)
    requires
        m.ids.contains(r.id),
    ensures
        apply_model(m, r, t) == m,
        ack_model(m, r, sabotage) is Rejected,
{
}

/// A replica whose identifier is fresh and which is not an unrecoverable
/// repeat is appended, whatever else its order earns it: this is how a
/// write that reached every member under full write concern lands in
/// every secondary's log.
pub proof fn lemma_fresh_replica_appends(m: SecondaryModel, r: ReplicaModel, t: bool)
    requires
        !m.ids.contains(r.id),
        r.order > m.current_ordering || m.messages_lost != 0,
    ensures
        apply_model(m, r, t).log == m.log.push(r.content),
        apply_model(m, r, t).ids == m.ids.push(r.id),
{
}

/// The log and the identifier record stay in step across every replica:
/// an accepted replica adds one entry to each, a rejected one adds none.
pub proof fn lemma_log_matches_identifiers(m: SecondaryModel, r: ReplicaModel, t: bool)
    requires
        m.ids.len() == m.log.len(),
    ensures
        apply_model(m, r, t).ids.len() == apply_model(m, r, t).log.len(),
{
}

/// How the bounded gap wait is computed: the base limit grown by the
/// multiplier per missing message, capped by the request timeout less ten
/// seconds.
pub struct OrderingConfig {
    /// Base wait for a gap of two, in milliseconds.
    pub correction_limit_ms: u64,
    /// Growth of the wait per additional missing message, in thousandths
    /// of the base limit.
    pub diff_multiplier_thousandths: u64,
    /// Server-side ceiling on one request, in milliseconds.
    pub req_timeout_ms: u64,
}

impl OrderingConfig {
    /// The bounds under which the budget arithmetic is exact, and the
    /// ceiling `req_timeout_ms - 10000` cannot underflow.
    pub open spec fn wf(self) -> bool {
        &&& self.correction_limit_ms <= CORRECTION_LIMIT_CEILING_MS
        &&& self.diff_multiplier_thousandths <= DIFF_MULTIPLIER_CEILING
        &&& self.req_timeout_ms >= 10000
    }

    /// The wait a gap of `order_diff` earns before its predecessors are
    /// written off: the base limit, grown by the multiplier for every
    /// missing message beyond the first, capped at ten seconds short of
    /// the request timeout.
    pub open spec fn budget_formula(self, order_diff: u32) -> int {
        let grown = self.correction_limit_ms + self.correction_limit_ms
            * self.diff_multiplier_thousandths * (order_diff - 2) / 1000;
        let ceiling = self.req_timeout_ms - 10000;
        if grown <= ceiling {
            grown
        } else {
            ceiling
        }
    }

    /// Computes the bounded wait for a gap of `order_diff`; it both follows
    /// the multiplier formula and respects the request-timeout ceiling.
    pub fn correction_budget_ms(&self, order_diff: u32) -> (b: u64)
        requires
            self.wf(),
            order_diff >= 2,
        ensures
            b == self.budget_formula(order_diff),
            b <= self.req_timeout_ms - 10000,
    {
        let limit = self.correction_limit_ms as u128;
        let mult = self.diff_multiplier_thousandths as u128;
        let gap = (order_diff - 2) as u128;
        proof {
            assert(limit * mult <= 0x1_0000_0000u128 * 0x10_0000u128 && limit * mult * gap
                <= 0x1_0000_0000u128 * 0x10_0000u128 * 0x1_0000_0000u128) by (nonlinear_arith)
                requires
                    limit <= 0x1_0000_0000u128,
                    mult <= 0x10_0000u128,
                    gap <= 0x1_0000_0000u128,
            ;
        }
        let grown = limit + limit * mult * gap / 1000;
        let ceiling = (self.req_timeout_ms - 10000) as u128;
        let capped = if grown <= ceiling {
            grown
        } else {
            ceiling
        };
        capped as u64
    }
}

impl Default for OrderingConfig {
    /// The default knobs: a minute of base wait, a fifth of it per missing
    /// message, under a two-minute request timeout.
    fn default() -> (r: Self)
        ensures
            r.wf(),
            r.correction_limit_ms == ORDER_CORRECTION_TIME_LIMIT_MS,
            r.diff_multiplier_thousandths == ORDER_DIFF_MULTIPLIER_THOUSANDTHS,
            r.req_timeout_ms == REQ_TIMEOUT_MS,
    {
        OrderingConfig {
            correction_limit_ms: ORDER_CORRECTION_TIME_LIMIT_MS,
            diff_multiplier_thousandths: ORDER_DIFF_MULTIPLIER_THOUSANDTHS,
            req_timeout_ms: REQ_TIMEOUT_MS,
        }
    }
}

} // verus!

use replog::replica::Replica;
use replog::secondary::MessageStatus;
use replog::secondary::OrderingConfig;
use replog::secondary::ReplicateAck;
use replog::secondary::ReplicatedMessageLog;
use replog::secondary::ReplicationState;

fn replica(id: &str, order: u32, content: &str) -> Replica {
    Replica { id: String::from(id), order, content: String::from(content) }
}

#[test]
fn classification_table() {
    let mut log = ReplicatedMessageLog::new();
    // first order is one: the successor of the initial counter
    assert!(matches!(log.validate(&replica("a", 1, "m1")), MessageStatus::Correct));
    // far ahead: disordered
    assert!(matches!(log.validate(&replica("b", 3, "m3")), MessageStatus::Disordered));
    let ack = log.replicate(replica("a", 1, "m1"), false, false);
    assert!(matches!(ack, ReplicateAck::Accepted));
    // same identifier again: duplicate
    assert!(matches!(log.validate(&replica("a", 5, "m5")), MessageStatus::Invalid));
    // an already-applied order with nothing lost: unrecoverable repeat
    assert!(matches!(log.validate(&replica("c", 1, "m1")), MessageStatus::Invalid));
    // successor of the current counter
    assert!(matches!(log.validate(&replica("d", 2, "m2")), MessageStatus::Correct));
}

#[test]
fn duplicate_suppression_leaves_log_unchanged() {
    let mut log = ReplicatedMessageLog::new();
    let ack = log.replicate(replica("a", 1, "m1"), false, false);
    assert!(matches!(ack, ReplicateAck::Accepted));
    assert_eq!(log.log.len(), 1);
    let ack = log.replicate(replica("a", 2, "m1"), false, false);
    assert!(matches!(ack, ReplicateAck::Rejected));
    assert_eq!(log.log.len(), 1);
    assert_eq!(log.state.get_ordering(), 1);
}

#[test]
fn out_of_order_delivery_waits_then_lands_in_order() {
    let mut log = ReplicatedMessageLog::new();
    let m2 = replica("b", 2, "m2");
    // m2 arrives first and must wait for its predecessor
    assert!(matches!(log.validate(&m2), MessageStatus::Disordered));
    // m1 arrives while m2 waits
    let ack = log.replicate(replica("a", 1, "m1"), false, false);
    assert!(matches!(ack, ReplicateAck::Accepted));
    // the gap is filled: m2 is now the successor and is applied
    assert!(matches!(log.validate(&m2), MessageStatus::Correct));
    let ack = log.replicate(m2, false, false);
    assert!(matches!(ack, ReplicateAck::Accepted));
    let all = log.log.get_all();
    assert_eq!(all.len(), 2);
    assert_eq!(all[0].content, "m1");
    assert_eq!(all[1].content, "m2");
    assert_eq!(log.state.get_ordering(), 2);
}

#[test]
fn gap_timeout_writes_predecessors_off_and_takes_belated() {
    let mut log = ReplicatedMessageLog::new();
    // order 4 from a fresh state: three predecessors missing; the wait
    // runs out
    let ack = log.replicate(replica("d", 4, "m4"), true, false);
    assert!(matches!(ack, ReplicateAck::Accepted));
    assert_eq!(log.state.messages_lost, 3);
    assert_eq!(log.state.get_ordering(), 4);
    // a predecessor straggles in: belated, counted off, counter unmoved
    assert!(matches!(log.validate(&replica("a", 1, "m1")), MessageStatus::Belated));
    let ack = log.replicate(replica("a", 1, "m1"), false, false);
    assert!(matches!(ack, ReplicateAck::Accepted));
    assert_eq!(log.state.messages_lost, 2);
    assert_eq!(log.state.get_ordering(), 4);
    assert_eq!(log.log.len(), 2);
}

#[test]
fn log_stays_in_step_with_identifiers() {
    let mut log = ReplicatedMessageLog::new();
    log.replicate(replica("a", 1, "m1"), false, false);
    log.replicate(replica("b", 2, "m2"), false, false);
    log.replicate(replica("b", 3, "m3"), false, false);  // rejected duplicate
    assert_eq!(log.log.len(), log.state.unique_identifiers.len());
    assert_eq!(log.log.len(), 2);
}

#[test]
fn sabotage_applies_locally_but_reports_failure() {
    let mut log = ReplicatedMessageLog::new();
    let ack = log.replicate(replica("a", 1, "m1"), false, true);
    assert!(matches!(ack, ReplicateAck::Sabotaged));
    assert_eq!(log.log.len(), 1);
}

#[test]
fn lost_count_saturates_at_zero() {
    let mut state = ReplicationState::new();
    state.modify_lost_message_count(2);
    assert_eq!(state.messages_lost, 2);
    state.modify_lost_message_count(-5);
    assert_eq!(state.messages_lost, 0);
    state.modify_lost_message_count(-1);
    assert_eq!(state.messages_lost, 0);
}

#[test]
fn correction_budget_follows_the_multiplier_formula() {
    let cfg = OrderingConfig::default();
    // the base limit alone for the smallest gap
    assert_eq!(cfg.correction_budget_ms(2), 60000);
    // one extra missing message: a fifth of the limit more
    assert_eq!(cfg.correction_budget_ms(3), 72000);
    // two extra: two fifths more
    assert_eq!(cfg.correction_budget_ms(4), 84000);
}

#[test]
fn correction_budget_respects_the_timeout_ceiling() {
    let cfg = OrderingConfig::default();
    // a huge gap is capped ten seconds short of the request timeout
    assert_eq!(cfg.correction_budget_ms(100), 110000);
    assert_eq!(cfg.correction_budget_ms(7), 110000);
}

#[test]
fn sync_request_starts_one_catch_up_at_a_time() {
    let mut log = ReplicatedMessageLog::new();
    log.replicate(replica("a", 1, "m1"), false, false);
    let rejoin = log.sync();
    assert_eq!(rejoin, Some(1));
    assert!(log.state.sync_mode.enabled());
    // a second request while the catch-up runs starts nothing
    assert_eq!(log.sync(), None);
    // the driver clears the flag when the catch-up is done
    log.state.sync_mode.toggle(false);
    assert!(!log.state.sync_mode.enabled());
}

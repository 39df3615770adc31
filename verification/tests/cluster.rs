//! Whole-cluster scenarios, the wire replaced by direct calls: what the
//! master plans is applied to secondary states exactly as the fan-out
//! tasks would.

use replog::breaker::CircuitBreaker;
use replog::breaker::StallEvent;
use replog::health::HealthStatus;
use replog::master::ReplicatorMultiClient;
use replog::master::RequestBody;
use replog::master::write_message;
use replog::message::MessageLog;
use replog::secondary::ReplicateAck;
use replog::secondary::ReplicatedMessageLog;

fn body(message: &str, wc: u8) -> RequestBody {
    RequestBody { message: String::from(message), wc, __ordering: None }
}

#[test]
fn happy_path_reaches_both_secondaries() {
    let mut client = ReplicatorMultiClient::init();
    client.add_node(String::from("s1"));
    client.add_node(String::from("s2"));
    let mut master_log = MessageLog::new();
    let mut s1 = ReplicatedMessageLog::new();
    let mut s2 = ReplicatedMessageLog::new();

    let plan = write_message(&mut client, &mut master_log, body("a", 2)).expect("admitted");
    assert_eq!(plan.write_concern, 2);
    assert_eq!(plan.targets.len(), 2);
    let ack = s1.replicate(plan.replica.clone(), false, false);
    assert!(matches!(ack, ReplicateAck::Accepted));
    let ack = s2.replicate(plan.replica.clone(), false, false);
    assert!(matches!(ack, ReplicateAck::Accepted));

    assert_eq!(master_log.get_all()[0].content, "a");
    assert_eq!(s1.log.get_all()[0].content, "a");
    assert_eq!(s2.log.get_all()[0].content, "a");
}

#[test]
fn full_write_concern_round_trip() {
    let mut client = ReplicatorMultiClient::init();
    client.add_node(String::from("s1"));
    client.add_node(String::from("s2"));
    let mut master_log = MessageLog::new();
    let mut secondaries = [ReplicatedMessageLog::new(), ReplicatedMessageLog::new()];

    for content in ["a", "b", "c"] {
        // wc = members + 1: the answer waits for every member
        let plan = write_message(&mut client, &mut master_log, body(content, 3)).expect("admitted");
        assert_eq!(plan.write_concern, 3);
        for s in secondaries.iter_mut() {
            let ack = s.replicate(plan.replica.clone(), false, false);
            assert!(matches!(ack, ReplicateAck::Accepted));
        }
    }
    let want: Vec<String> =
        master_log.get_all().into_iter().map(|m| m.content).collect();
    for s in secondaries.iter() {
        let got: Vec<String> = s.log.get_all().into_iter().map(|m| m.content).collect();
        assert_eq!(got, want);
    }
}

#[test]
fn stashed_writes_catch_a_recovered_node_up() {
    // a node that answered every replication with a failure has nothing
    // applied; the stash replays everything when it recovers
    let mut client = ReplicatorMultiClient::init();
    client.add_node(String::from("s1"));
    let mut master_log = MessageLog::new();

    for content in ["a", "b", "c"] {
        let plan = write_message(&mut client, &mut master_log, body(content, 1)).expect("admitted");
        assert_eq!(plan.write_concern, 1);
    }
    assert_eq!(client.stash.len(), 3);

    // the node rejoins reporting order zero; the replay covers everything
    let mut s = ReplicatedMessageLog::new();
    let replay = client.sync_node(&String::from("s1"), s.state.get_ordering());
    assert_eq!(replay.len(), 3);
    for rep in replay {
        let ack = s.replicate(rep, false, false);
        assert!(matches!(ack, ReplicateAck::Accepted));
    }
    client.end_sync(&String::from("s1"));

    let want: Vec<String> =
        master_log.get_all().into_iter().map(|m| m.content).collect();
    let got: Vec<String> = s.log.get_all().into_iter().map(|m| m.content).collect();
    assert_eq!(got, want);
}

#[test]
fn failed_node_stalls_and_rejoins_within_the_lifetime() {
    let mut cb = CircuitBreaker::new(ReplicatorMultiClient::init());
    let s1 = String::from("s1");
    let (fired, _) = cb.connect(&s1, 0);
    assert!(!fired);
    assert_eq!(cb.client.nodes.len(), 1);
    cb.client.end_sync(&s1);

    // the prober suspects the node, then gives it up
    assert!(!cb.watch_signal(&s1, Some(HealthStatus::Suspected)));
    assert_eq!(cb.client.suspected_count, 1);
    assert!(cb.watch_signal(&s1, Some(HealthStatus::Failed)));
    cb.break_node(&s1);
    assert_eq!(cb.client.nodes.len(), 0);
    assert_eq!(cb.client.suspected_count, 0);
    assert_eq!(cb.stall.len(), 1);

    // it rejoins within the stall lifetime: the old watcher is aborted
    let (fired, _) = cb.connect(&s1, 0);
    assert!(fired);
    assert_eq!(cb.client.nodes.len(), 1);
    assert_eq!(cb.stall.len(), 0);
    assert!(!cb.stall_event(&s1, StallEvent::Rejoined));
}

#[test]
fn stalled_too_long_is_forgotten_and_later_treated_as_new() {
    let mut cb = CircuitBreaker::new(ReplicatorMultiClient::init());
    let s1 = String::from("s1");
    cb.connect(&s1, 0);
    cb.client.end_sync(&s1);
    assert!(cb.watch_signal(&s1, None));
    cb.break_node(&s1);
    assert_eq!(cb.stall.len(), 1);

    // the stall lifetime elapses: the node is forgotten
    assert!(!cb.stall_event(&s1, StallEvent::TimedOut));
    assert_eq!(cb.stall.len(), 0);
    assert_eq!(cb.client.nodes.len(), 0);

    // an eventual rejoin finds no stalled watcher to abort
    let (fired, _) = cb.connect(&s1, 0);
    assert!(!fired);
    assert_eq!(cb.client.nodes.len(), 1);
}

#[test]
fn recovered_node_is_sent_a_sync_request() {
    let mut cb = CircuitBreaker::new(ReplicatorMultiClient::init());
    let s1 = String::from("s1");
    cb.connect(&s1, 0);
    cb.client.end_sync(&s1);
    assert!(cb.watch_signal(&s1, Some(HealthStatus::Failed)));
    cb.break_node(&s1);
    // the prober's task completed: the node recovered, the master asks it
    // to rejoin at its own order
    assert!(cb.stall_event(&s1, StallEvent::Recovered));
}

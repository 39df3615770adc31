use replog::master::ReplicatorMultiClient;
use replog::master::RequestBody;
use replog::master::join_dial_host;
use replog::master::write_message;
use replog::message::Message;
use replog::message::MessageLog;

fn body(message: &str, wc: u8, ordering: Option<u32>) -> RequestBody {
    RequestBody { message: String::from(message), wc, __ordering: ordering }
}

#[test]
fn write_concern_clamps_into_range() {
    let mut client = ReplicatorMultiClient::init();
    client.add_node(String::from("s1"));
    client.add_node(String::from("s2"));
    // zero means non-blocking and becomes one
    assert_eq!(client.effective_write_concern(0), 1);
    assert_eq!(client.effective_write_concern(1), 1);
    assert_eq!(client.effective_write_concern(2), 2);
    // the members plus the master cap it
    assert_eq!(client.effective_write_concern(3), 3);
    assert_eq!(client.effective_write_concern(200), 3);
}

#[test]
fn orders_are_assigned_sequentially_from_one() {
    let mut client = ReplicatorMultiClient::init();
    let p1 = client.replicate(Message { content: String::from("a") }, body("a", 1, None));
    let p2 = client.replicate(Message { content: String::from("b") }, body("b", 1, None));
    assert_eq!(p1.replica.order, 1);
    assert_eq!(p2.replica.order, 2);
    assert_eq!(p1.replica.id.len(), 36);
    assert_ne!(p1.replica.id, p2.replica.id);
}

#[test]
fn explicit_ordering_overrides_the_counter() {
    let mut client = ReplicatorMultiClient::init();
    let p = client.replicate(Message { content: String::from("a") }, body("a", 1, Some(7)));
    assert_eq!(p.replica.order, 7);
    // the counter advanced regardless
    let p = client.replicate(Message { content: String::from("b") }, body("b", 1, None));
    assert_eq!(p.replica.order, 2);
}

#[test]
fn every_member_is_a_fan_out_target() {
    let mut client = ReplicatorMultiClient::init();
    client.add_node(String::from("s1"));
    client.add_node(String::from("s2"));
    let p = client.replicate(Message { content: String::from("a") }, body("a", 2, None));
    assert_eq!(p.targets.len(), 2);
    assert_eq!(p.targets[0].name, "s1");
    assert_eq!(p.targets[1].name, "s2");
    assert!(!p.targets[0].in_sync);
    assert!(!p.targets[1].in_sync);
}

#[test]
fn fan_out_marks_nodes_under_catch_up() {
    let mut client = ReplicatorMultiClient::init();
    client.add_node(String::from("s1"));
    client.add_node(String::from("s2"));
    client.sync_node(&String::from("s2"), 0);
    let p = client.replicate(Message { content: String::from("a") }, body("a", 1, None));
    assert!(!p.targets[0].in_sync);
    assert!(p.targets[1].in_sync);
    client.end_sync(&String::from("s2"));
    let p = client.replicate(Message { content: String::from("b") }, body("b", 1, None));
    assert!(!p.targets[1].in_sync);
}

#[test]
fn stash_deduplicates_equal_replicas() {
    let mut client = ReplicatorMultiClient::init();
    client.replicate(Message { content: String::from("a") }, body("a", 1, None));
    client.replicate(Message { content: String::from("b") }, body("b", 1, None));
    assert_eq!(client.stash.len(), 2);
}

#[test]
fn catch_up_replays_everything_past_the_reported_order() {
    let mut client = ReplicatorMultiClient::init();
    for (content, _) in [("a", 1), ("b", 2), ("c", 3)] {
        client.replicate(Message { content: String::from(content) }, body(content, 1, None));
    }
    let replay = client.sync_node(&String::from("s1"), 1);
    assert_eq!(replay.len(), 2);
    assert_eq!(replay[0].order, 2);
    assert_eq!(replay[1].order, 3);
    let replay = client.sync_node(&String::from("s1"), 0);
    assert_eq!(replay.len(), 3);
}

#[test]
fn suspicion_is_counted_once_per_node_and_saturates() {
    let mut client = ReplicatorMultiClient::init();
    let s1 = String::from("s1");
    client.add_node(s1.clone());
    client.increment_suspected(&s1);
    client.increment_suspected(&s1);
    assert_eq!(client.suspected_count, 1);
    assert!(client.suspected_count <= client.nodes.len());
    client.decrement_suspected(&s1);
    client.decrement_suspected(&s1);
    assert_eq!(client.suspected_count, 0);
    // a name that is no member counts nothing
    client.increment_suspected(&String::from("ghost-node"));
    assert_eq!(client.suspected_count, 0);
}

#[test]
fn removing_a_suspected_member_lowers_the_count() {
    let mut client = ReplicatorMultiClient::init();
    let s1 = String::from("s1");
    client.add_node(s1.clone());
    client.add_node(String::from("s2"));
    client.increment_suspected(&s1);
    assert_eq!(client.suspected_count, 1);
    client.del_node(&s1);
    assert_eq!(client.suspected_count, 0);
    assert_eq!(client.nodes.len(), 1);
}

#[test]
fn admission_refuses_below_quorum() {
    let mut client = ReplicatorMultiClient::init_with_quorum(2);
    client.add_node(String::from("s1"));
    assert!(!client.verify_quorum());
    let mut log = MessageLog::new();
    let plan = write_message(&mut client, &mut log, body("a", 2, None));
    assert!(plan.is_none());
    assert_eq!(log.len(), 0);
    assert_eq!(client.stash.len(), 0);
}

#[test]
fn admission_counts_only_unsuspected_members() {
    let mut client = ReplicatorMultiClient::init_with_quorum(2);
    let s1 = String::from("s1");
    client.add_node(s1.clone());
    client.add_node(String::from("s2"));
    assert!(client.verify_quorum());
    client.increment_suspected(&s1);
    assert!(!client.verify_quorum());
    client.decrement_suspected(&s1);
    assert!(client.verify_quorum());
}

#[test]
fn admitted_write_appends_and_plans_the_fan_out() {
    let mut client = ReplicatorMultiClient::init();
    client.add_node(String::from("s1"));
    let mut log = MessageLog::new();
    let plan = write_message(&mut client, &mut log, body("hello", 2, None));
    let plan = plan.expect("the quorum is met");
    assert_eq!(log.len(), 1);
    assert_eq!(log.get_all()[0].content, "hello");
    assert_eq!(plan.replica.content, "hello");
    assert_eq!(plan.write_concern, 2);
    assert_eq!(plan.targets.len(), 1);
    assert_eq!(client.stash.len(), 1);
}

#[test]
fn join_reply_dials_the_reported_host_or_the_peer() {
    assert_eq!(
        join_dial_host(String::from("s1"), Some(String::from("10.0.0.2"))),
        Some(String::from("s1"))
    );
    assert_eq!(
        join_dial_host(String::new(), Some(String::from("10.0.0.2"))),
        Some(String::from("10.0.0.2"))
    );
    assert_eq!(join_dial_host(String::new(), None), None);
}

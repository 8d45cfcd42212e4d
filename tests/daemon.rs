use dora_daemon::daemon::{
    Daemon, DaemonError, Delivery, DropPoll, InputSource, InputSpec, NodeSpec,
};

fn node(id: &str, inputs: Vec<(&str, &str, &str)>) -> NodeSpec {
    NodeSpec {
        node_id: id.to_string(),
        inputs: inputs
            .into_iter()
            .map(|(input, source, output)| InputSpec {
                input_id: input.to_string(),
                source: InputSource::User {
                    source: source.to_string(),
                    output: output.to_string(),
                },
            })
            .collect(),
    }
}

/// Dataflow 1: node A with output out1, node B whose input in1 reads A.out1.
fn two_nodes() -> Vec<NodeSpec> {
    vec![node("A", vec![]), node("B", vec![("in1", "A", "out1")])]
}

fn started(nodes: Vec<NodeSpec>) -> Daemon<u32> {
    let mut daemon: Daemon<u32> = Daemon::new();
    daemon.spawn_dataflow(1, &nodes).unwrap();
    daemon
}

fn tokens(poll: DropPoll) -> Vec<u64> {
    match poll {
        DropPoll::Tokens(ts) => ts,
        other => panic!("expected tokens, got {other:?}"),
    }
}

#[test]
fn spawn_twice_is_refused_and_keeps_first() {
    let mut daemon = started(two_nodes());
    let other = vec![node("C", vec![("x", "D", "y")])];
    assert_eq!(daemon.spawn_dataflow(1, &other), Err(DaemonError::AlreadyRunning));
    assert_eq!(daemon.running.len(), 1);
    let df = &daemon.running[0].dataflow;
    assert_eq!(df.mappings.len(), 1);
    assert_eq!(df.mappings[0].source, "A");
    assert_eq!(df.mappings[0].target, "B");
    assert_eq!(
        df.resolve_receivers(&"A".to_string(), &"out1".to_string()),
        vec![("B".to_string(), "in1".to_string())]
    );
    assert!(daemon.spawn_dataflow(2, &other).is_ok());
    assert_eq!(daemon.running.len(), 2);
}

#[test]
fn timer_inputs_make_no_route() {
    let nodes = vec![NodeSpec {
        node_id: "T".to_string(),
        inputs: vec![InputSpec {
            input_id: "tick".to_string(),
            source: InputSource::Timer { interval_ms: 100 },
        }],
    }];
    let daemon = started(nodes);
    assert_eq!(daemon.running[0].dataflow.mappings.len(), 0);
}

#[test]
fn subscribe_to_unknown_dataflow_is_refused() {
    let mut daemon = started(two_nodes());
    assert_eq!(daemon.subscribe(7, "A".to_string(), 1), Err(DaemonError::UnknownDataflow));
    assert_eq!(daemon.running.len(), 1);
    assert_eq!(daemon.running[0].dataflow.subscribe_channels.len(), 0);
    assert_eq!(daemon.subscribe_drop(7, "A".to_string()), Err(DaemonError::UnknownDataflow));
}

#[test]
fn output_without_mappings_has_no_receivers() {
    let daemon = started(two_nodes());
    let df = &daemon.running[0].dataflow;
    assert!(df.resolve_receivers(&"B".to_string(), &"out1".to_string()).is_empty());
    assert!(df.resolve_receivers(&"A".to_string(), &"other".to_string()).is_empty());
}

#[test]
fn fan_out_to_nobody_is_not_an_error() {
    let mut daemon = started(two_nodes());
    daemon.subscribe_drop(1, "B".to_string()).unwrap();
    let id = daemon
        .prepare_output_message(1, "B".to_string(), "unread".to_string(), 16)
        .unwrap();
    let deliveries = daemon.send_out_message(1, &"B".to_string(), &id).unwrap();
    assert!(deliveries.is_empty());
    assert_eq!(tokens(daemon.drop_poll(1, &"B".to_string())), vec![0]);
}

#[test]
fn scenario_publish_reaches_subscribed_input() {
    let mut daemon = started(two_nodes());
    daemon.subscribe(1, "A".to_string(), 10).unwrap();
    daemon.subscribe(1, "B".to_string(), 20).unwrap();
    let before = daemon.new_timestamp();
    let id = daemon
        .prepare_output_message(1, "A".to_string(), "out1".to_string(), 128)
        .unwrap();
    let deliveries = daemon.send_out_message(1, &"A".to_string(), &id).unwrap();
    assert_eq!(deliveries.len(), 1);
    let d: &Delivery = &deliveries[0];
    assert_eq!(d.receiver, "B");
    assert_eq!(d.input_id, "in1");
    assert_eq!(d.region_id, id);
    assert!(d.timestamp > before);
    assert_eq!(daemon.running[0].dataflow.sink(&d.receiver), Some(&20));
    assert_eq!(daemon.regions.published.len(), 1);
    assert_eq!(daemon.regions.reserved.len(), 0);
}

#[test]
fn scenario_receiver_gone_before_send() {
    let mut daemon = started(two_nodes());
    daemon.subscribe(1, "A".to_string(), 10).unwrap();
    daemon.subscribe(1, "B".to_string(), 20).unwrap();
    daemon.subscribe_drop(1, "A".to_string()).unwrap();
    let id = daemon
        .prepare_output_message(1, "A".to_string(), "out1".to_string(), 128)
        .unwrap();
    daemon.node_stopped(1, &"B".to_string());
    let deliveries = daemon.send_out_message(1, &"A".to_string(), &id).unwrap();
    assert!(deliveries.is_empty());
    assert_eq!(daemon.regions.published.len(), 0);
    assert_eq!(tokens(daemon.drop_poll(1, &"A".to_string())), vec![0]);
}

#[test]
fn closed_sink_counts_as_acknowledged() {
    let mut daemon = started(two_nodes());
    daemon.subscribe(1, "B".to_string(), 20).unwrap();
    daemon.subscribe_drop(1, "A".to_string()).unwrap();
    let id = daemon
        .prepare_output_message(1, "A".to_string(), "out1".to_string(), 64)
        .unwrap();
    let deliveries = daemon.send_out_message(1, &"A".to_string(), &id).unwrap();
    assert_eq!(deliveries.len(), 1);
    assert!(matches!(daemon.drop_poll(1, &"A".to_string()), DropPoll::Wait));
    daemon.delivery_failed(1, &deliveries[0]).unwrap();
    assert_eq!(daemon.running[0].dataflow.sink(&"B".to_string()), None);
    assert_eq!(tokens(daemon.drop_poll(1, &"A".to_string())), vec![deliveries[0].token]);
}

#[test]
fn scenario_two_prepares_give_distinct_regions() {
    let mut daemon = started(two_nodes());
    daemon.subscribe(1, "B".to_string(), 20).unwrap();
    let first = daemon
        .prepare_output_message(1, "A".to_string(), "out1".to_string(), 32)
        .unwrap();
    let second = daemon
        .prepare_output_message(1, "A".to_string(), "out1".to_string(), 32)
        .unwrap();
    assert_ne!(first, second);
    assert_eq!(daemon.regions.reserved.len(), 2);
    let d2 = daemon.send_out_message(1, &"A".to_string(), &second).unwrap();
    assert_eq!(d2[0].region_id, second);
    assert_eq!(daemon.regions.reserved.len(), 1);
    assert_eq!(daemon.regions.reserved[0].region_id, first);
    let d1 = daemon.send_out_message(1, &"A".to_string(), &first).unwrap();
    assert_eq!(d1[0].region_id, first);
    assert_ne!(d1[0].token, d2[0].token);
}

#[test]
fn region_freed_only_after_every_receiver_acknowledges() {
    let nodes = vec![
        node("A", vec![]),
        node("B", vec![("in1", "A", "out1")]),
        node("C", vec![("in2", "A", "out1")]),
    ];
    let mut daemon = started(nodes);
    daemon.subscribe(1, "B".to_string(), 2).unwrap();
    daemon.subscribe(1, "C".to_string(), 3).unwrap();
    daemon.subscribe_drop(1, "A".to_string()).unwrap();
    let id = daemon
        .prepare_output_message(1, "A".to_string(), "out1".to_string(), 8)
        .unwrap();
    let deliveries = daemon.send_out_message(1, &"A".to_string(), &id).unwrap();
    assert_eq!(deliveries.len(), 2);
    let token = deliveries[0].token;
    assert_eq!(deliveries[1].token, token);
    assert!(deliveries[0].timestamp < deliveries[1].timestamp);

    daemon.report_drop(&"B".to_string(), token).unwrap();
    assert_eq!(daemon.regions.published.len(), 1);
    assert!(matches!(daemon.drop_poll(1, &"A".to_string()), DropPoll::Wait));
    assert_eq!(daemon.report_drop(&"B".to_string(), token), Err(DaemonError::NotAReceiver));

    daemon.report_drop(&"C".to_string(), token).unwrap();
    assert_eq!(daemon.regions.published.len(), 0);
    assert_eq!(tokens(daemon.drop_poll(1, &"A".to_string())), vec![token]);
    assert!(matches!(daemon.drop_poll(1, &"A".to_string()), DropPoll::Wait));
    assert_eq!(daemon.report_drop(&"C".to_string(), token), Err(DaemonError::UnknownDropToken));
}

#[test]
fn zero_length_region_is_refused() {
    let mut daemon = started(two_nodes());
    assert_eq!(
        daemon.prepare_output_message(1, "A".to_string(), "out1".to_string(), 0),
        Err(DaemonError::AllocationFailed)
    );
    assert_eq!(daemon.regions.reserved.len(), 0);
}

#[test]
fn send_of_unknown_region_is_refused() {
    let mut daemon = started(two_nodes());
    assert_eq!(
        daemon.send_out_message(1, &"A".to_string(), &"nowhere".to_string()).unwrap_err(),
        DaemonError::UnknownRegion
    );
}

#[test]
fn send_in_unknown_dataflow_drops_reservation() {
    let mut daemon = started(two_nodes());
    let id = daemon
        .prepare_output_message(5, "A".to_string(), "out1".to_string(), 8)
        .unwrap();
    assert_eq!(
        daemon.send_out_message(5, &"A".to_string(), &id).unwrap_err(),
        DaemonError::UnknownDataflow
    );
    assert_eq!(daemon.regions.reserved.len(), 0);
}

#[test]
fn discarded_reservation_cannot_be_sent() {
    let mut daemon = started(two_nodes());
    let id = daemon
        .prepare_output_message(1, "A".to_string(), "out1".to_string(), 8)
        .unwrap();
    daemon.discard_reservation(&id);
    assert_eq!(
        daemon.send_out_message(1, &"A".to_string(), &id).unwrap_err(),
        DaemonError::UnknownRegion
    );
}

#[test]
fn drop_poll_without_subscription_closes() {
    let mut daemon = started(two_nodes());
    assert!(matches!(daemon.drop_poll(1, &"A".to_string()), DropPoll::Closed));
    daemon.subscribe_drop(1, "A".to_string()).unwrap();
    assert!(matches!(daemon.drop_poll(1, &"A".to_string()), DropPoll::Wait));
    daemon.node_stopped(1, &"A".to_string());
    assert!(matches!(daemon.drop_poll(1, &"A".to_string()), DropPoll::Closed));
}

#[test]
fn timestamps_increase() {
    let mut daemon = started(two_nodes());
    let first = daemon.new_timestamp();
    let second = daemon.new_timestamp();
    assert!(first > 0);
    assert!(second > first);
}

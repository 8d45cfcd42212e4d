use dora_daemon::regions::{RegionTracker, TrackerError};

#[test]
fn reserving_a_reserved_id_is_refused() {
    let mut t: RegionTracker<u32> = RegionTracker::new();
    assert_eq!(t.reserve("r1".to_string(), 1, "A".to_string(), "out".to_string(), 7), Ok(()));
    assert_eq!(
        t.reserve("r1".to_string(), 1, "A".to_string(), "out".to_string(), 8),
        Err(TrackerError::RegionIdInUse)
    );
    assert_eq!(t.reserved.len(), 1);
    let r = t.take_reservation(&"r1".to_string()).unwrap();
    assert_eq!(r.handle, 7);
    assert!(t.take_reservation(&"r1".to_string()).is_none());
}

#[test]
fn publish_without_receivers_frees_at_once() {
    let mut t: RegionTracker<u32> = RegionTracker::new();
    let (token, freed) = t.publish("r1".to_string(), 3, "A".to_string(), vec![], 1).unwrap();
    assert_eq!(token, 0);
    let freed = freed.unwrap();
    assert_eq!(freed.dataflow, 3);
    assert_eq!(freed.producer, "A");
    assert_eq!(freed.token, 0);
    assert!(t.published.is_empty());
    assert_eq!(t.next_token, 1);
}

#[test]
fn acknowledgments_count_down_per_delivery() {
    let mut t: RegionTracker<u32> = RegionTracker::new();
    let pending = vec!["B".to_string(), "B".to_string(), "C".to_string()];
    let (token, freed) = t.publish("r1".to_string(), 1, "A".to_string(), pending, 1).unwrap();
    assert!(freed.is_none());
    assert_eq!(t.acknowledge(token, &"B".to_string()), Ok(None));
    assert_eq!(t.acknowledge(token, &"C".to_string()), Ok(None));
    assert_eq!(t.acknowledge(token, &"C".to_string()), Err(TrackerError::NotAReceiver));
    let freed = t.acknowledge(token, &"B".to_string()).unwrap().unwrap();
    assert_eq!(freed.token, token);
    assert_eq!(freed.producer, "A");
    assert_eq!(t.acknowledge(token, &"B".to_string()), Err(TrackerError::UnknownDropToken));
}

#[test]
fn tokens_run_out() {
    let mut t: RegionTracker<u32> = RegionTracker::new();
    t.next_token = u64::MAX;
    assert_eq!(
        t.publish("r1".to_string(), 1, "A".to_string(), vec!["B".to_string()], 1).unwrap_err(),
        TrackerError::TokensExhausted
    );
    assert!(t.published.is_empty());
}

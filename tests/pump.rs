use dora_daemon::pump::{
    subscribe_outcome, DropPump, PollReply, PumpAction, SubscribeError, SubscribeReply,
};

#[test]
fn closing_reply_stops_the_pump_for_good() {
    let mut pump = DropPump::new();
    assert!(pump.should_poll());
    assert!(matches!(pump.on_reply(PollReply::Tokens(vec![])), PumpAction::Stop));
    assert!(!pump.should_poll());
    assert!(matches!(pump.on_reply(PollReply::Tokens(vec![4])), PumpAction::Stop));
    assert!(matches!(pump.on_reply(PollReply::Failed), PumpAction::Stop));
    assert!(!pump.should_poll());
}

#[test]
fn tokens_are_forwarded_in_order() {
    let mut pump = DropPump::new();
    match pump.on_reply(PollReply::Tokens(vec![3, 1, 2])) {
        PumpAction::Forward(ts) => assert_eq!(ts, vec![3, 1, 2]),
        other => panic!("unexpected action {other:?}"),
    }
    assert!(pump.should_poll());
}

#[test]
fn odd_replies_and_failures_poll_again() {
    let mut pump = DropPump::new();
    assert!(matches!(pump.on_reply(PollReply::Unexpected), PumpAction::PollAgain));
    assert!(matches!(pump.on_reply(PollReply::Failed), PumpAction::PollAgain));
    assert!(pump.should_poll());
}

#[test]
fn closed_queue_stops_the_pump() {
    let mut pump = DropPump::new();
    pump.on_forward_failed();
    assert!(!pump.should_poll());
}

#[test]
fn subscribe_replies() {
    assert_eq!(subscribe_outcome(SubscribeReply::Accepted), Ok(()));
    assert_eq!(
        subscribe_outcome(SubscribeReply::Refused("busy".to_string())),
        Err(SubscribeError::Refused("busy".to_string()))
    );
    assert_eq!(
        subscribe_outcome(SubscribeReply::Unexpected),
        Err(SubscribeError::UnexpectedReply)
    );
}

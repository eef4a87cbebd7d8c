use outbox_relay::consumer::{
    settle, Delivery, DeliveryAction, DeliveryEvent, DeliveryPhase, Disposition, HandlerOutcome,
};
use outbox_relay::worker::{process_may_error, result_of_toss};

#[test]
fn only_success_is_accepted() {
    assert_eq!(settle(HandlerOutcome::Success), Disposition::Accept);
    assert_eq!(settle(HandlerOutcome::Failure), Disposition::Requeue);
    assert_eq!(settle(HandlerOutcome::Timeout), Disposition::Requeue);
    assert_eq!(settle(HandlerOutcome::DecodeError), Disposition::Requeue);
}

#[test]
fn undecodable_payload_is_requeued_and_never_accepted() {
    let payload = "not-json";
    let decoded = serde_json::from_str::<serde_json::Value>(payload);
    let mut delivery = Delivery::new(42, 5);
    assert_eq!(delivery.delivery_tag(), 42);
    assert_eq!(delivery.phase(), DeliveryPhase::Received);
    let event = if decoded.is_ok() { DeliveryEvent::Decoded } else { DeliveryEvent::DecodeFailed };
    assert_eq!(delivery.step(event), DeliveryAction::Requeue { delivery_tag: 42 });
    assert_eq!(delivery.phase(), DeliveryPhase::Settled);
    for late in [
        DeliveryEvent::Decoded,
        DeliveryEvent::DecodeFailed,
        DeliveryEvent::HandlerSucceeded,
        DeliveryEvent::HandlerFailed,
        DeliveryEvent::DeadlineElapsed,
    ] {
        assert_eq!(delivery.step(late), DeliveryAction::Ignore);
    }
}

#[test]
fn handler_that_outlasts_its_deadline_is_requeued() {
    let mut delivery = Delivery::new(7, 5);
    assert_eq!(delivery.step(DeliveryEvent::Decoded), DeliveryAction::RunHandler { deadline: 5 });
    assert_eq!(delivery.phase(), DeliveryPhase::Handling);
    // The handler sleeps for 10 s; the deadline of 5 s passes first.
    assert_eq!(
        delivery.step(DeliveryEvent::DeadlineElapsed),
        DeliveryAction::Requeue { delivery_tag: 7 }
    );
    // The abandoned handler may still finish: that changes nothing.
    assert_eq!(delivery.step(DeliveryEvent::HandlerSucceeded), DeliveryAction::Ignore);
    assert_eq!(delivery.phase(), DeliveryPhase::Settled);
}

#[test]
fn handler_success_is_accepted() {
    let mut delivery = Delivery::new(8, 5);
    delivery.step(DeliveryEvent::Decoded);
    assert_eq!(
        delivery.step(DeliveryEvent::HandlerSucceeded),
        DeliveryAction::Accept { delivery_tag: 8 }
    );
    assert_eq!(delivery.step(DeliveryEvent::DeadlineElapsed), DeliveryAction::Ignore);
}

#[test]
fn handler_failure_is_requeued() {
    let mut delivery = Delivery::new(9, 5);
    delivery.step(DeliveryEvent::Decoded);
    assert_eq!(
        delivery.step(DeliveryEvent::HandlerFailed),
        DeliveryAction::Requeue { delivery_tag: 9 }
    );
}

#[test]
fn every_event_order_draws_at_most_one_answer() {
    let events = [
        DeliveryEvent::Decoded,
        DeliveryEvent::DecodeFailed,
        DeliveryEvent::HandlerSucceeded,
        DeliveryEvent::HandlerFailed,
        DeliveryEvent::DeadlineElapsed,
    ];
    for first in events {
        for second in events {
            for third in events {
                let mut delivery = Delivery::new(1, 5);
                let mut answers = 0;
                for event in [first, second, third] {
                    match delivery.step(event) {
                        DeliveryAction::Accept { .. } | DeliveryAction::Requeue { .. } => answers += 1,
                        _ => {}
                    }
                }
                let settled = delivery.phase() == DeliveryPhase::Settled;
                assert_eq!(answers, if settled { 1 } else { 0 });
            }
        }
    }
}

#[test]
fn handler_results_before_decoding_are_ignored() {
    let mut delivery = Delivery::new(3, 5);
    assert_eq!(delivery.step(DeliveryEvent::HandlerSucceeded), DeliveryAction::Ignore);
    assert_eq!(delivery.step(DeliveryEvent::DeadlineElapsed), DeliveryAction::Ignore);
    assert_eq!(delivery.phase(), DeliveryPhase::Received);
}

#[test]
fn toss_decides_the_trial_handler() {
    assert_eq!(result_of_toss(true), Ok(()));
    assert_eq!(result_of_toss(false), Err(()));
    let mut successes = 0;
    let mut failures = 0;
    for _ in 0..400 {
        match process_may_error() {
            Ok(()) => successes += 1,
            Err(()) => failures += 1,
        }
    }
    assert!(successes > 0);
    assert!(failures > 0);
}

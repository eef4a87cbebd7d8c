use outbox_relay::outbox::{OutboxMessage, OutboxStore};
use outbox_relay::relay::{RelayAction, RelayEvent, RelayLoop, RelayPhase};

fn message(id: i64, payload: &str, created_at: i64) -> OutboxMessage {
    OutboxMessage {
        id,
        topic: String::from("post"),
        payload: String::from(payload),
        created_at,
        processed_at: None,
    }
}

fn batch_of_three() -> Vec<OutboxMessage> {
    vec![message(1, "a", 100), message(2, "b", 200), message(3, "c", 300)]
}

/// Runs cycles against the store until the relay waits for its trigger. Each
/// publish takes its answer from `answers`; the publishes are logged.
fn drain(
    relay: &mut RelayLoop,
    store: &mut OutboxStore,
    answers: &mut dyn FnMut(&OutboxMessage) -> bool,
    published: &mut Vec<i64>,
    now: i64,
) {
    let mut token = 0;
    let mut action = relay.on_trigger();
    loop {
        action = match action {
            RelayAction::Claim { limit } => {
                let claim = store.claim_batch(limit).unwrap();
                token = claim.token;
                relay.on_claimed(claim.messages)
            }
            RelayAction::Publish { index } => {
                let message = relay.message(index).unwrap();
                published.push(message.id);
                let ok = answers(message);
                relay.on_published(ok)
            }
            RelayAction::MarkProcessed => {
                let ids = relay.delivered().clone();
                store.mark_processed(token, &ids, now);
                relay.on_marked()
            }
            RelayAction::Commit => {
                store.commit(token);
                relay.on_committed()
            }
            RelayAction::AwaitTrigger => return,
            other => panic!("the relay asked for {other:?} in the middle of a cycle"),
        };
    }
}

#[test]
fn cycle_publishes_in_order_marks_successes_and_commits() {
    let mut relay = RelayLoop::new(None);
    assert_eq!(relay.phase(), RelayPhase::Idle);
    assert_eq!(relay.limit(), None);
    assert_eq!(relay.on_trigger(), RelayAction::Claim { limit: None });
    assert_eq!(relay.phase(), RelayPhase::Claiming);
    assert_eq!(relay.on_claimed(batch_of_three()), RelayAction::Publish { index: 0 });
    assert_eq!(relay.message(0).unwrap().payload, "a");
    assert_eq!(relay.on_published(true), RelayAction::Publish { index: 1 });
    assert_eq!(relay.on_published(false), RelayAction::Publish { index: 2 });
    assert_eq!(relay.on_published(true), RelayAction::MarkProcessed);
    assert_eq!(relay.delivered(), &vec![1, 3]);
    assert_eq!(relay.phase(), RelayPhase::Marking);
    assert_eq!(relay.on_marked(), RelayAction::Commit);
    assert_eq!(relay.on_committed(), RelayAction::AwaitTrigger);
    assert_eq!(relay.phase(), RelayPhase::Idle);
}

#[test]
fn cycle_without_success_commits_without_marking() {
    let mut relay = RelayLoop::new(None);
    relay.on_trigger();
    relay.on_claimed(batch_of_three());
    assert_eq!(relay.on_published(false), RelayAction::Publish { index: 1 });
    assert_eq!(relay.on_published(false), RelayAction::Publish { index: 2 });
    assert_eq!(relay.on_published(false), RelayAction::Commit);
    assert!(relay.delivered().is_empty());
    assert_eq!(relay.on_committed(), RelayAction::AwaitTrigger);
}

#[test]
fn empty_batch_is_committed_at_once() {
    let mut relay = RelayLoop::new(Some(10));
    assert_eq!(relay.step(RelayEvent::Triggered), RelayAction::Claim { limit: Some(10) });
    assert_eq!(relay.step(RelayEvent::Claimed(Vec::new())), RelayAction::Commit);
    assert_eq!(relay.step(RelayEvent::Committed), RelayAction::AwaitTrigger);
}

#[test]
fn full_batch_makes_the_relay_claim_again_at_once() {
    let mut relay = RelayLoop::new(Some(3));
    relay.step(RelayEvent::Triggered);
    relay.step(RelayEvent::Claimed(batch_of_three()));
    relay.step(RelayEvent::Published { ok: true });
    relay.step(RelayEvent::Published { ok: true });
    assert_eq!(relay.step(RelayEvent::Published { ok: true }), RelayAction::MarkProcessed);
    assert_eq!(relay.step(RelayEvent::Marked), RelayAction::Commit);
    assert_eq!(relay.step(RelayEvent::Committed), RelayAction::Claim { limit: Some(3) });
    assert_eq!(relay.phase(), RelayPhase::Claiming);
    assert!(relay.delivered().is_empty());
    assert!(relay.message(0).is_none());
}

#[test]
fn short_batch_makes_the_relay_wait_for_the_trigger() {
    let mut relay = RelayLoop::new(Some(4));
    relay.step(RelayEvent::Triggered);
    relay.step(RelayEvent::Claimed(batch_of_three()));
    relay.step(RelayEvent::Published { ok: true });
    relay.step(RelayEvent::Published { ok: true });
    relay.step(RelayEvent::Published { ok: true });
    relay.step(RelayEvent::Marked);
    assert_eq!(relay.step(RelayEvent::Committed), RelayAction::AwaitTrigger);
}

#[test]
fn store_failure_stops_the_relay_for_good() {
    let mut relay = RelayLoop::new(None);
    assert_eq!(relay.step(RelayEvent::StoreFailed), RelayAction::Ignore);
    relay.step(RelayEvent::Triggered);
    relay.step(RelayEvent::Claimed(batch_of_three()));
    assert_eq!(relay.step(RelayEvent::StoreFailed), RelayAction::Stop);
    assert_eq!(relay.phase(), RelayPhase::Stopped);
    assert_eq!(relay.step(RelayEvent::Triggered), RelayAction::Ignore);
    assert_eq!(relay.step(RelayEvent::Published { ok: true }), RelayAction::Ignore);
    assert_eq!(relay.step(RelayEvent::StoreFailed), RelayAction::Ignore);
    assert_eq!(relay.phase(), RelayPhase::Stopped);
}

#[test]
fn events_out_of_turn_are_ignored() {
    let mut relay = RelayLoop::new(None);
    assert_eq!(relay.step(RelayEvent::Published { ok: true }), RelayAction::Ignore);
    assert_eq!(relay.step(RelayEvent::Claimed(batch_of_three())), RelayAction::Ignore);
    assert_eq!(relay.step(RelayEvent::Marked), RelayAction::Ignore);
    assert_eq!(relay.step(RelayEvent::Committed), RelayAction::Ignore);
    assert_eq!(relay.phase(), RelayPhase::Idle);
    relay.step(RelayEvent::Triggered);
    assert_eq!(relay.step(RelayEvent::Triggered), RelayAction::Ignore);
    assert_eq!(relay.phase(), RelayPhase::Claiming);
}

#[test]
fn relay_drains_the_store_in_batches() {
    let mut store = OutboxStore::new();
    for (payload, at) in [("a", 100), ("b", 200), ("c", 300), ("d", 400), ("e", 500)] {
        store.insert(String::from("post"), String::from(payload), at).unwrap();
    }
    let mut relay = RelayLoop::new(Some(2));
    let mut published = Vec::new();
    drain(&mut relay, &mut store, &mut |_| true, &mut published, 1000);
    assert_eq!(published, vec![1, 2, 3, 4, 5]);
    for id in 1..=5 {
        assert_eq!(store.get(id).unwrap().processed_at, Some(1000));
    }
    assert!(store.claim_batch(None).unwrap().messages.is_empty());
}

#[test]
fn failed_publish_is_tried_again_in_the_next_cycle() {
    let mut store = OutboxStore::new();
    for (payload, at) in [("a", 100), ("b", 200), ("c", 300)] {
        store.insert(String::from("post"), String::from(payload), at).unwrap();
    }
    let mut relay = RelayLoop::new(None);
    let mut published = Vec::new();
    drain(&mut relay, &mut store, &mut |m| m.id != 2, &mut published, 1000);
    assert_eq!(published, vec![1, 2, 3]);
    assert_eq!(store.get(1).unwrap().processed_at, Some(1000));
    assert_eq!(store.get(2).unwrap().processed_at, None);
    assert_eq!(store.get(3).unwrap().processed_at, Some(1000));
    store.insert(String::from("post"), String::from("d"), 400).unwrap();
    published.clear();
    drain(&mut relay, &mut store, &mut |_| true, &mut published, 2000);
    assert_eq!(published, vec![2, 4]);
    assert_eq!(store.get(2).unwrap().processed_at, Some(2000));
    assert_eq!(store.get(4).unwrap().processed_at, Some(2000));
}

#[test]
fn crash_before_commit_loses_no_row() {
    let mut store = OutboxStore::new();
    for (payload, at) in [("a", 100), ("b", 200), ("c", 300)] {
        store.insert(String::from("post"), String::from(payload), at).unwrap();
    }
    let mut relay = RelayLoop::new(None);
    relay.on_trigger();
    let claim = store.claim_batch(None).unwrap();
    let token = claim.token;
    relay.on_claimed(claim.messages);
    relay.on_published(true);
    relay.on_published(true);
    assert_eq!(relay.on_published(true), RelayAction::MarkProcessed);
    store.mark_processed(token, relay.delivered(), 1000);
    // The relay dies here; its transaction is rolled back.
    store.abort(token);
    let mut second = RelayLoop::new(None);
    let mut published = Vec::new();
    drain(&mut second, &mut store, &mut |_| true, &mut published, 2000);
    assert_eq!(published, vec![1, 2, 3]);
    for id in 1..=3 {
        assert_eq!(store.get(id).unwrap().processed_at, Some(2000));
    }
}

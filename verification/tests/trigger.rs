use outbox_relay::trigger::{RelayTrigger, TriggerAction, TriggerEvent, TriggerSource};

#[test]
fn both_sources_wake_the_relay_through_one_sampler() {
    let mut trigger = RelayTrigger::new(100);
    assert_eq!(
        trigger.step(TriggerEvent::Signal { source: TriggerSource::FallbackTick, now: 0 }),
        TriggerAction::RunCycle
    );
    assert_eq!(
        trigger.step(TriggerEvent::Signal { source: TriggerSource::Notification, now: 30 }),
        TriggerAction::ArmTimer { remain: 70 }
    );
    assert_eq!(
        trigger.step(TriggerEvent::Signal { source: TriggerSource::Notification, now: 60 }),
        TriggerAction::Wait
    );
    assert_eq!(trigger.step(TriggerEvent::WakeTimerFired { now: 100 }), TriggerAction::RunCycle);
    assert_eq!(trigger.step(TriggerEvent::WakeTimerFired { now: 101 }), TriggerAction::Wait);
    assert_eq!(
        trigger.step(TriggerEvent::Signal { source: TriggerSource::FallbackTick, now: 200 }),
        TriggerAction::RunCycle
    );
}

#[test]
fn end_of_the_sources_runs_one_last_cycle_for_a_waiting_signal() {
    let mut trigger = RelayTrigger::new(100);
    trigger.step(TriggerEvent::Signal { source: TriggerSource::Notification, now: 10 });
    trigger.step(TriggerEvent::Signal { source: TriggerSource::Notification, now: 20 });
    assert_eq!(trigger.step(TriggerEvent::SourcesEnded), TriggerAction::Finish { run_cycle: true });
    assert_eq!(trigger.step(TriggerEvent::SourcesEnded), TriggerAction::Finish { run_cycle: false });
}

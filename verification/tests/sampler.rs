use outbox_relay::sampler::{SamplerAction, SamplerEvent, TimedSampler};

#[test]
fn first_input_is_emitted_at_once() {
    let mut sampler: TimedSampler<u32> = TimedSampler::new(100);
    assert_eq!(sampler.interval(), 100);
    assert_eq!(sampler.last_emit(), None);
    assert_eq!(sampler.on_input(7, 0), SamplerAction::Emit(7));
    assert!(!sampler.is_pending());
    assert_eq!(sampler.last_emit(), Some(0));
}

#[test]
fn burst_is_coalesced_and_flushed_by_the_timer() {
    let mut sampler: TimedSampler<u32> = TimedSampler::new(100);
    assert_eq!(sampler.step(SamplerEvent::Input { item: 1, now: 0 }), SamplerAction::Emit(1));
    assert_eq!(
        sampler.step(SamplerEvent::Input { item: 2, now: 10 }),
        SamplerAction::ArmTimer { remain: 90 }
    );
    assert_eq!(sampler.step(SamplerEvent::Input { item: 3, now: 50 }), SamplerAction::Wait);
    assert!(sampler.is_pending());
    assert_eq!(sampler.step(SamplerEvent::TimerFired { now: 100 }), SamplerAction::Emit(3));
    assert!(!sampler.is_pending());
    assert_eq!(sampler.last_emit(), Some(100));
    assert_eq!(sampler.step(SamplerEvent::Input { item: 4, now: 300 }), SamplerAction::Emit(4));
    assert_eq!(sampler.last_emit(), Some(300));
}

#[test]
fn lone_early_input_goes_out_when_the_timer_fires() {
    let mut sampler: TimedSampler<&str> = TimedSampler::new(100);
    sampler.on_input("first", 1000);
    assert_eq!(sampler.on_input("second", 1040), SamplerAction::ArmTimer { remain: 60 });
    assert_eq!(sampler.on_timer(1100), SamplerAction::Emit("second"));
    assert_eq!(sampler.last_emit(), Some(1100));
}

#[test]
fn input_exactly_one_interval_later_is_emitted_at_once() {
    let mut sampler: TimedSampler<u32> = TimedSampler::new(100);
    sampler.on_input(1, 50);
    assert_eq!(sampler.on_input(2, 149), SamplerAction::ArmTimer { remain: 1 });
    let mut other: TimedSampler<u32> = TimedSampler::new(100);
    other.on_input(1, 50);
    assert_eq!(other.on_input(2, 150), SamplerAction::Emit(2));
}

#[test]
fn due_input_replaces_the_buffered_signal() {
    let mut sampler: TimedSampler<u32> = TimedSampler::new(100);
    sampler.on_input(1, 0);
    sampler.on_input(2, 10);
    assert_eq!(sampler.on_input(3, 120), SamplerAction::Emit(3));
    assert!(!sampler.is_pending());
    assert_eq!(sampler.last_emit(), Some(120));
    assert_eq!(sampler.on_timer(121), SamplerAction::Wait);
}

#[test]
fn early_timer_is_armed_again_for_the_rest() {
    let mut sampler: TimedSampler<u32> = TimedSampler::new(100);
    sampler.on_input(1, 0);
    sampler.on_input(2, 10);
    assert_eq!(sampler.on_timer(60), SamplerAction::ArmTimer { remain: 40 });
    assert!(sampler.is_pending());
    assert_eq!(sampler.on_timer(100), SamplerAction::Emit(2));
}

#[test]
fn timer_without_a_buffered_signal_is_ignored() {
    let mut sampler: TimedSampler<u32> = TimedSampler::new(100);
    assert_eq!(sampler.on_timer(5), SamplerAction::Wait);
    assert_eq!(sampler.last_emit(), None);
}

#[test]
fn end_of_upstream_flushes_the_buffered_signal_once() {
    let mut sampler: TimedSampler<u32> = TimedSampler::new(100);
    sampler.on_input(1, 0);
    sampler.on_input(2, 10);
    assert_eq!(sampler.on_upstream_end(), SamplerAction::Finish(Some(2)));
    assert!(!sampler.is_pending());
    assert_eq!(sampler.last_emit(), Some(0));
    assert_eq!(sampler.on_upstream_end(), SamplerAction::Finish(None));
}

#[test]
fn end_of_upstream_with_nothing_buffered_only_terminates() {
    let mut sampler: TimedSampler<u32> = TimedSampler::new(100);
    assert_eq!(sampler.step(SamplerEvent::UpstreamEnded), SamplerAction::Finish(None));
}

#[test]
fn zero_interval_lets_every_input_through() {
    let mut sampler: TimedSampler<u32> = TimedSampler::new(0);
    assert_eq!(sampler.on_input(1, 5), SamplerAction::Emit(1));
    assert_eq!(sampler.on_input(2, 5), SamplerAction::Emit(2));
    assert_eq!(sampler.on_input(3, 6), SamplerAction::Emit(3));
}

#[test]
fn clock_that_steps_back_counts_as_no_time_elapsed() {
    let mut sampler: TimedSampler<u32> = TimedSampler::new(100);
    sampler.on_input(1, 500);
    assert_eq!(sampler.on_input(2, 400), SamplerAction::ArmTimer { remain: 100 });
}

#[test]
fn emissions_of_a_long_run_keep_the_interval() {
    let mut sampler: TimedSampler<u64> = TimedSampler::new(100);
    let mut emitted_at: Vec<u64> = Vec::new();
    let mut armed_for: Option<u64> = None;
    let mut now = 0;
    while now < 5000 {
        if let Some(deadline) = armed_for {
            if deadline <= now {
                if let SamplerAction::Emit(_) = sampler.on_timer(deadline) {
                    emitted_at.push(deadline);
                }
                armed_for = None;
            }
        }
        match sampler.on_input(now, now) {
            SamplerAction::Emit(_) => {
                emitted_at.push(now);
                armed_for = None;
            }
            SamplerAction::ArmTimer { remain } => armed_for = Some(now + remain),
            _ => {}
        }
        now += 37;
    }
    assert!(emitted_at.len() > 10);
    for pair in emitted_at.windows(2) {
        assert!(pair[1] - pair[0] >= 100);
    }
}

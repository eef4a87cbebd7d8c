//! The relay trigger: when to run a relay cycle.
//!
//! Two sources wake the relay: the notification that a row was committed,
//! and a periodic tick that covers for lost notifications. Both are unit
//! signals, merged and passed through the rate-limiting sampler, so that
//! cycles are at least an interval apart and no signal is lost.

use crate::sampler::{SamplerAction, SamplerEvent, SamplerModel, TimedSampler};
use vstd::prelude::*;

verus! {

/// Where a wake-up signal came from.
#[derive(Clone, Copy, Debug, PartialEq, Eq, Structural)]
pub enum TriggerSource {
    /// The store announced a new row.
    Notification,
    /// The fallback timer ticked.
    FallbackTick,
}

/// What the driver reports to the trigger.
#[derive(Clone, Copy, Debug, PartialEq, Eq)]
pub enum TriggerEvent {
    /// One of the two sources signalled at time `now`.
    Signal { source: TriggerSource, now: u64 },
    /// The sampler's wake timer fired; the clock reads `now`.
    WakeTimerFired { now: u64 },
    /// Both sources have ended.
    SourcesEnded,
}

/// What the driver must do after an event.
#[derive(Clone, Copy, Debug, PartialEq, Eq, Structural)]
pub enum TriggerAction {
    /// Run a relay cycle now, and drop any armed wake timer.
    RunCycle,
    /// Arm the wake timer to fire after `remain` ticks.
    ArmTimer { remain: u64 },
    /// Nothing to do; an armed timer stays as it is.
    Wait,
    /// The sources are gone: run a last cycle if `run_cycle` is set, then
    /// stop.
    Finish { run_cycle: bool },
}

/// The sampler event that a trigger event stands for: a signal of either
/// source is a unit input.
pub open spec fn sampler_event(event: TriggerEvent) -> SamplerEvent<()> {
    match event {
        TriggerEvent::Signal { source, now } => SamplerEvent::Input { item: (), now },
        TriggerEvent::WakeTimerFired { now } => SamplerEvent::TimerFired { now },
        TriggerEvent::SourcesEnded => SamplerEvent::UpstreamEnded,
    }
}

/// The trigger action that a sampler action stands for: an emitted signal
/// runs a cycle.
pub open spec fn trigger_action(action: SamplerAction<()>) -> TriggerAction {
    match action {
        SamplerAction::Emit(_) => TriggerAction::RunCycle,
        SamplerAction::ArmTimer { remain } => TriggerAction::ArmTimer { remain },
        SamplerAction::Wait => TriggerAction::Wait,
        SamplerAction::Finish(flushed) => TriggerAction::Finish { run_cycle: flushed is Some },
    }
}

/// The merged and sampled wake-up signal of one relay.
pub struct RelayTrigger {
    sampler: TimedSampler<()>,
}

impl View for RelayTrigger {
    type V = SamplerModel<()>;

    closed spec fn view(&self) -> SamplerModel<()> {
        self.sampler@
    }
}

impl RelayTrigger {
    /// A trigger whose cycles are at least `interval` ticks apart. Its first
    /// signal runs a cycle at once.
    pub fn new(interval: u64) -> (trigger: Self)
        ensures
            trigger@ == SamplerModel::<()>::initial(interval as nat),
            trigger@.wf(),
    {
        RelayTrigger { sampler: TimedSampler::new(interval) }
    }

    /// Takes one event and says what the driver must do: what the sampler
    /// says of the unit signal that the event stands for.
    pub fn step(&mut self, event: TriggerEvent) -> (action: TriggerAction)
        ensures
            final(self)@ == old(self)@.step(sampler_event(event)).0,
            action == trigger_action(old(self)@.step(sampler_event(event)).1),
            final(self)@.wf(),
    {
        let sampled = match event {
            TriggerEvent::Signal { source, now } => self.sampler.on_input((), now),
            TriggerEvent::WakeTimerFired { now } => self.sampler.on_timer(now),
            TriggerEvent::SourcesEnded => self.sampler.on_upstream_end(),
        };
        match sampled {
            SamplerAction::Emit(_) => TriggerAction::RunCycle,
            SamplerAction::ArmTimer { remain } => TriggerAction::ArmTimer { remain },
            SamplerAction::Wait => TriggerAction::Wait,
            SamplerAction::Finish(flushed) => TriggerAction::Finish { run_cycle: flushed.is_some() },
        }
    }
}

} // verus!

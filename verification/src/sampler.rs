//! The rate-limiting sampler: at most one emission per interval, and no
//! signal lost.
//!
//! The sampler is a state machine over integer time. Its driver owns the
//! upstream source, the clock and the wake timer; it reports what happened as
//! a [`SamplerEvent`] and carries out the [`SamplerAction`] that comes back.
//! Time is a count of ticks on a monotone clock, in whatever unit the driver
//! uses for both instants and the interval.

use vstd::prelude::*;

verus! {

/// What the driver reports to the sampler.
#[derive(Debug, PartialEq, Eq)]
pub enum SamplerEvent<T> {
    /// The upstream source produced `item` at time `now`.
    Input { item: T, now: u64 },
    /// The wake timer fired; the clock reads `now`.
    TimerFired { now: u64 },
    /// The upstream source has ended.
    UpstreamEnded,
}

/// What the driver must do after an event.
#[derive(Debug, PartialEq, Eq)]
pub enum SamplerAction<T> {
    /// Hand the item downstream now, and drop any armed timer.
    Emit(T),
    /// Arm the wake timer to fire after `remain` ticks; nothing goes downstream.
    ArmTimer { remain: u64 },
    /// Nothing to do; an armed timer stays as it is.
    Wait,
    /// The stream is over: hand the flushed item downstream if there is one,
    /// then terminate.
    Finish(Option<T>),
}

/// The sampler as a mathematical value.
pub struct SamplerModel<T> {
    /// The least distance between two emissions.
    pub interval: nat,
    /// When the sampler last emitted, if it ever did.
    pub last_emit: Option<nat>,
    /// The latest signal that arrived too early to be emitted.
    pub buffered: Option<T>,
}

/// The time from `last` to `now` on a clock that never runs backwards; zero
/// where `now` lies before `last`.
pub open spec fn elapsed(last: nat, now: nat) -> nat {
    if now >= last {
        (now - last) as nat
    } else {
        0
    }
}

impl<T> SamplerModel<T> {
    /// A sampler that has never emitted and holds nothing.
    pub open spec fn initial(interval: nat) -> Self {
        SamplerModel { interval, last_emit: None, buffered: None }
    }

    /// A signal is buffered only after a first emission, and the interval
    /// fits the clock's range.
    pub open spec fn wf(self) -> bool {
        &&& self.buffered is Some ==> self.last_emit is Some
        &&& self.interval <= u64::MAX
    }

    /// Whether a signal is waiting for the timer.
    pub open spec fn pending(self) -> bool {
        self.buffered is Some
    }

    /// Whether an emission at `now` keeps the interval: nothing was emitted
    /// yet, or the last emission lies at least `interval` back.
    pub open spec fn due(self, now: nat) -> bool {
        match self.last_emit {
            None => true,
            Some(last) => elapsed(last, now) >= self.interval,
        }
    }

    /// The earliest time at which the next emission keeps the interval.
    pub open spec fn deadline(self) -> nat {
        match self.last_emit {
            None => 0,
            Some(last) => last + self.interval,
        }
    }

    /// How long from `now` until the deadline, where it is not yet due.
    pub open spec fn remaining(self, now: nat) -> nat {
        match self.last_emit {
            None => 0,
            Some(last) => (self.interval - elapsed(last, now)) as nat,
        }
    }

    /// The state after an emission at `now`.
    pub open spec fn emitted_at(self, now: nat) -> Self {
        SamplerModel { interval: self.interval, last_emit: Some(now), buffered: None }
    }

    /// The state with `item` as the buffered signal.
    pub open spec fn holding(self, item: T) -> Self {
        SamplerModel { interval: self.interval, last_emit: self.last_emit, buffered: Some(item) }
    }

    /// The state with nothing buffered.
    pub open spec fn drained(self) -> Self {
        SamplerModel { interval: self.interval, last_emit: self.last_emit, buffered: None }
    }

    /// An input that is due is emitted at once and replaces whatever was
    /// buffered. One that comes too early becomes the buffered signal; the
    /// timer is armed for the rest of the interval unless one is running.
    pub open spec fn on_input(self, item: T, now: nat) -> (Self, SamplerAction<T>) {
        if self.due(now) {
            (self.emitted_at(now), SamplerAction::Emit(item))
        } else if self.pending() {
            (self.holding(item), SamplerAction::Wait)
        } else {
            (self.holding(item), SamplerAction::ArmTimer { remain: self.remaining(now) as u64 })
        }
    }

    /// A timer that fires when a signal is buffered and the interval is over
    /// emits the signal. One that fires early is armed again for the rest of
    /// the interval. One that fires with nothing buffered is ignored.
    pub open spec fn on_timer(self, now: nat) -> (Self, SamplerAction<T>) {
        match self.buffered {
            None => (self, SamplerAction::Wait),
            Some(item) => if self.due(now) {
                (self.emitted_at(now), SamplerAction::Emit(item))
            } else {
                (self, SamplerAction::ArmTimer { remain: self.remaining(now) as u64 })
            },
        }
    }

    /// The end of the upstream source flushes the buffered signal, if any.
    pub open spec fn on_upstream_end(self) -> (Self, SamplerAction<T>) {
        (self.drained(), SamplerAction::Finish(self.buffered))
    }

    /// One transition of the sampler.
    pub open spec fn step(self, event: SamplerEvent<T>) -> (Self, SamplerAction<T>) {
        match event {
            SamplerEvent::Input { item, now } => self.on_input(item, now as nat),
            SamplerEvent::TimerFired { now } => self.on_timer(now as nat),
            SamplerEvent::UpstreamEnded => self.on_upstream_end(),
        }
    }
}

/// The state of one rate-limiting sampler over signals of type `T`.
pub struct TimedSampler<T> {
    interval: u64,
    last_emit: Option<u64>,
    buffer: Option<T>,
}

impl<T> View for TimedSampler<T> {
    type V = SamplerModel<T>;

    closed spec fn view(&self) -> SamplerModel<T> {
        SamplerModel {
            interval: self.interval as nat,
            last_emit: match self.last_emit {
                None => None,
                Some(t) => Some(t as nat),
            },
            buffered: self.buffer,
        }
    }
}

impl<T> TimedSampler<T> {
    #[verifier::type_invariant]
    spec fn holds_only_after_emission(self) -> bool {
        self.buffer is Some ==> self.last_emit is Some
    }

    /// A sampler with the given least distance between emissions. It has not
    /// emitted yet, so its first input goes out at once.
    pub fn new(interval: u64) -> (s: Self)
        ensures
            s@ == SamplerModel::<T>::initial(interval as nat),
            s@.wf(),
    {
        TimedSampler { interval, last_emit: None, buffer: None }
    }

    /// The least distance between two emissions.
    pub fn interval(&self) -> (r: u64)
        ensures
            r as nat == self@.interval,
    {
        self.interval
    }

    /// Whether a signal is buffered, waiting for the timer.
    pub fn is_pending(&self) -> (r: bool)
        ensures
            r == self@.pending(),
    {
        self.buffer.is_some()
    }

    /// The time of the last emission, if there was one.
    pub fn last_emit(&self) -> (r: Option<u64>)
        ensures
            match r {
                None => self@.last_emit is None,
                Some(t) => self@.last_emit == Some(t as nat),
            },
    {
        self.last_emit
    }

    fn is_due(&self, now: u64) -> (r: bool)
        ensures
            r == self@.due(now as nat),
    {
        match self.last_emit {
            None => true,
            Some(last) => now.saturating_sub(last) >= self.interval,
        }
    }

    fn time_left(&self, now: u64) -> (r: u64)
        requires
            !self@.due(now as nat),
        ensures
            r as nat == self@.remaining(now as nat),
            0 < r <= self.interval,
    {
        match self.last_emit {
            None => 0,
            Some(last) => self.interval - now.saturating_sub(last),
        }
    }

    /// Takes one upstream signal that arrived at time `now`.
    pub fn on_input(&mut self, item: T, now: u64) -> (action: SamplerAction<T>)
        ensures
            (final(self)@, action) == old(self)@.on_input(item, now as nat),
            final(self)@.wf(),
    {
        proof {
            use_type_invariant(&*self);
        }
        if self.is_due(now) {
            self.last_emit = Some(now);
            self.buffer = None;
            SamplerAction::Emit(item)
        } else {
            let remain: u64 = self.time_left(now);
            let was_pending: bool = self.buffer.is_some();
            self.buffer = Some(item);
            if was_pending {
                SamplerAction::Wait
            } else {
                SamplerAction::ArmTimer { remain }
            }
        }
    }

    /// Takes the firing of the wake timer at time `now`.
    pub fn on_timer(&mut self, now: u64) -> (action: SamplerAction<T>)
        ensures
            (final(self)@, action) == old(self)@.on_timer(now as nat),
            final(self)@.wf(),
    {
        proof {
            use_type_invariant(&*self);
        }
        if self.buffer.is_none() {
            SamplerAction::Wait
        } else if self.is_due(now) {
            let mut emptied = TimedSampler { interval: self.interval, last_emit: Some(now), buffer: None };
            core::mem::swap(self, &mut emptied);
            SamplerAction::Emit(emptied.buffer.unwrap())
        } else {
            SamplerAction::ArmTimer { remain: self.time_left(now) }
        }
    }

    /// Takes the end of the upstream source.
    pub fn on_upstream_end(&mut self) -> (action: SamplerAction<T>)
        ensures
            (final(self)@, action) == old(self)@.on_upstream_end(),
            final(self)@.wf(),
    {
        proof {
            use_type_invariant(&*self);
        }
        let mut emptied = TimedSampler {
            interval: self.interval,
            last_emit: self.last_emit,
            buffer: None,
        };
        core::mem::swap(self, &mut emptied);
        SamplerAction::Finish(emptied.buffer)
    }

    /// Takes one event and says what the driver must do.
    pub fn step(&mut self, event: SamplerEvent<T>) -> (action: SamplerAction<T>)
        ensures
            (final(self)@, action) == old(self)@.step(event),
            final(self)@.wf(),
    {
        proof {
            use_type_invariant(&*self);
        }
        match event {
            SamplerEvent::Input { item, now } => self.on_input(item, now),
            SamplerEvent::TimerFired { now } => self.on_timer(now),
            SamplerEvent::UpstreamEnded => self.on_upstream_end(),
        }
    }
}

/// The clock reading that an event carries, if it carries one.
pub open spec fn event_time<T>(event: SamplerEvent<T>) -> Option<nat> {
    match event {
        SamplerEvent::Input { item, now } => Some(now as nat),
        SamplerEvent::TimerFired { now } => Some(now as nat),
        SamplerEvent::UpstreamEnded => None,
    }
}

/// No event of the trace carries a clock reading below `floor`, and none
/// carries one below that of an earlier event.
pub open spec fn clock_monotone<T>(floor: nat, events: Seq<SamplerEvent<T>>) -> bool {
    &&& forall|i: int|
        0 <= i < events.len() ==> (#[trigger] event_time(events[i]) matches Some(t) ==> floor <= t)
    &&& forall|i: int, j: int|
        0 <= i < j < events.len() ==> (#[trigger] event_time(events[i]) matches Some(s) ==> (
        #[trigger] event_time(events[j]) matches Some(t) ==> s <= t))
}

/// The clock readings at which the sampler, started in `m` and fed `events`
/// in order, answers with `Emit`. The flush at the end of the upstream source
/// is a `Finish` and has no place here.
pub open spec fn emission_times<T>(m: SamplerModel<T>, events: Seq<SamplerEvent<T>>) -> Seq<nat>
    decreases events.len(),
{
    if events.len() == 0 {
        Seq::empty()
    } else {
        let (next, action) = m.step(events[0]);
        let rest = emission_times(next, events.drop_first());
        match (action, event_time(events[0])) {
            (SamplerAction::Emit(_), Some(t)) => seq![t] + rest,
            _ => rest,
        }
    }
}

/// Every transition keeps the sampler well formed.
pub proof fn lemma_step_preserves_wf<T>(m: SamplerModel<T>, event: SamplerEvent<T>)
    requires
        m.wf(),
    ensures
        m.step(event).0.wf(),
        m.step(event).0.interval == m.interval,
{
}

/// The sampler bound. Two emissions in a row lie at least `interval` apart,
/// and the first one lies at least `interval` after the emission that the
/// sampler started from. With an interval of zero this asks that the clock
/// never runs backwards; with any other interval it holds of every trace.
/// This is about emissions made on an input or on the timer; the flush at
/// the end of the upstream source may come sooner.
pub proof fn lemma_emissions_keep_interval<T>(m: SamplerModel<T>, events: Seq<SamplerEvent<T>>)
    requires
        m.interval == 0 ==> clock_monotone(
            match m.last_emit {
                Some(last) => last,
                None => 0,
            },
            events,
        ),
    ensures
        forall|k: int|
            0 <= k < emission_times(m, events).len() - 1 ==> #[trigger] emission_times(m, events)[k]
                + m.interval <= emission_times(m, events)[k + 1],
        m.last_emit matches Some(last) ==> (emission_times(m, events).len() > 0 ==> last
            + m.interval <= emission_times(m, events)[0]),
    decreases events.len(),
{
    if events.len() > 0 {
        let first = events[0];
        let rest = events.drop_first();
        let (next, action) = m.step(first);
        let next_floor: nat = match next.last_emit {
            Some(last) => last,
            None => 0,
        };
        if m.interval == 0 {
            assert forall|i: int| 0 <= i < rest.len() implies (#[trigger] event_time(
                rest[i],
            ) matches Some(t) ==> next_floor <= t) by {
                assert(rest[i] == events[i + 1]);
                if event_time(events[i + 1]) is Some {
                    assert(event_time(events[0]) is Some ==> event_time(events[0])->0 <= event_time(
                        events[i + 1],
                    )->0);
                }
            }
            assert forall|i: int, j: int| 0 <= i < j < rest.len() implies (#[trigger] event_time(
                rest[i],
            ) matches Some(s) ==> (#[trigger] event_time(rest[j]) matches Some(t) ==> s <= t)) by {
                assert(rest[i] == events[i + 1]);
                assert(rest[j] == events[j + 1]);
            }
            assert(clock_monotone(next_floor, rest));
        }
        lemma_emissions_keep_interval(next, rest);
        let tail = emission_times(next, rest);
        let all = emission_times(m, events);
        match (action, event_time(first)) {
            (SamplerAction::Emit(_), Some(t)) => {
                assert(all == seq![t] + tail);
                assert(next.last_emit == Some(t));
                assert forall|k: int| 0 <= k < all.len() - 1 implies #[trigger] all[k] + m.interval
                    <= all[k + 1] by {
                    if k == 0 {
                        assert(all[1] == tail[0]);
                    } else {
                        assert(all[k] == tail[k - 1]);
                        assert(all[k + 1] == tail[k]);
                    }
                }
            },
            _ => {
                assert(all == tail);
                assert(next.last_emit == m.last_emit);
            },
        }
    }
}

/// Sampler liveness. A signal that arrives alone is not lost: either it goes
/// out at once, or it is buffered behind a timer whose deadline lies within
/// `interval` of its arrival, and the timer's firing at or after that
/// deadline emits it, as does the end of the upstream source. No second
/// signal is needed.
pub proof fn lemma_isolated_input_is_emitted<T>(m: SamplerModel<T>, item: T, now: u64)
    requires
        m.wf(),
        m.last_emit matches Some(last) ==> last <= now,
    ensures
        ({
            let (held, action) = m.on_input(item, now as nat);
            ||| action == SamplerAction::Emit(item)
            ||| {
                &&& held.wf()
                &&& held.buffered == Some(item)
                &&& now < held.deadline() <= now + m.interval
                &&& if m.pending() {
                    action == SamplerAction::<T>::Wait && held.deadline() == m.deadline()
                } else {
                    action == SamplerAction::<T>::ArmTimer { remain: (held.deadline() - now) as u64 }
                }
                &&& forall|later: u64|
                    held.deadline() <= later ==> #[trigger] held.on_timer(later as nat) == (
                        held.emitted_at(later as nat),
                        SamplerAction::Emit(item),
                    )
                &&& held.on_upstream_end().1 == SamplerAction::Finish(Some(item))
            }
        }),
{
}

/// While a signal is buffered, only an emission moves the deadline: a later
/// input replaces the signal and leaves the timer as it was armed.
pub proof fn lemma_pending_input_keeps_deadline<T>(m: SamplerModel<T>, item: T, now: u64)
    requires
        m.wf(),
        m.pending(),
        !m.due(now as nat),
    ensures
        m.on_input(item, now as nat) == (m.holding(item), SamplerAction::<T>::Wait),
        m.on_input(item, now as nat).0.deadline() == m.deadline(),
{
}


/// No signal is dropped. A buffered signal leaves the buffer only by going
/// downstream, on the timer or at the end of the upstream source, or by
/// giving way to a newer signal, which then is the one buffered or emitted.
pub proof fn lemma_no_signal_is_dropped<T>(m: SamplerModel<T>, event: SamplerEvent<T>, held: T)
    requires
        m.buffered == Some(held),
    ensures
        ({
            let (next, action) = m.step(event);
            ||| next.buffered == Some(held)
            ||| action == SamplerAction::Emit(held)
            ||| action == SamplerAction::Finish(Some(held))
            ||| event matches SamplerEvent::Input { item, now } && (next.buffered == Some(item)
                || action == SamplerAction::Emit(item))
        }),
{
}

} // verus!

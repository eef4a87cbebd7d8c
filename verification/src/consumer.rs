//! The consumer's acknowledgment loop: one delivery, one answer.
//!
//! Each delivery is a small state machine. Its driver decodes the payload,
//! runs the handler under the deadline, and reports what happened as a
//! [`DeliveryEvent`]; the machine says when to run the handler and which
//! single answer the broker gets.

use vstd::prelude::*;

verus! {

/// How the handling of one delivery ended.
#[derive(Clone, Copy, Debug, PartialEq, Eq, Structural)]
pub enum HandlerOutcome {
    /// The handler returned success before the deadline.
    Success,
    /// The handler returned an error before the deadline.
    Failure,
    /// The deadline passed before the handler returned.
    Timeout,
    /// The payload could not be decoded into an event.
    DecodeError,
}

/// What the consumer tells the broker about one delivery.
#[derive(Clone, Copy, Debug, PartialEq, Eq, Structural)]
pub enum Disposition {
    /// Acknowledge: the broker forgets the message.
    Accept,
    /// Negative acknowledgment with requeue: the broker delivers it again.
    Requeue,
}

/// The disposition that an outcome calls for: only success is accepted.
pub open spec fn disposition_of(outcome: HandlerOutcome) -> Disposition {
    match outcome {
        HandlerOutcome::Success => Disposition::Accept,
        HandlerOutcome::Failure => Disposition::Requeue,
        HandlerOutcome::Timeout => Disposition::Requeue,
        HandlerOutcome::DecodeError => Disposition::Requeue,
    }
}

/// Maps the outcome of one delivery to the single answer given to the broker.
pub fn settle(outcome: HandlerOutcome) -> (d: Disposition)
    ensures
        d == disposition_of(outcome),
{
    match outcome {
        HandlerOutcome::Success => Disposition::Accept,
        HandlerOutcome::Failure => Disposition::Requeue,
        HandlerOutcome::Timeout => Disposition::Requeue,
        HandlerOutcome::DecodeError => Disposition::Requeue,
    }
}

/// How far the handling of a delivery has come.
#[derive(Clone, Copy, Debug, PartialEq, Eq, Structural)]
pub enum DeliveryPhase {
    /// The message arrived and is not decoded yet.
    Received,
    /// The handler runs under the deadline.
    Handling,
    /// The broker has its answer.
    Settled,
}

/// What the driver reports about a delivery.
#[derive(Clone, Copy, Debug, PartialEq, Eq, Structural)]
pub enum DeliveryEvent {
    /// The payload was decoded into an event.
    Decoded,
    /// The payload could not be decoded.
    DecodeFailed,
    /// The handler returned success.
    HandlerSucceeded,
    /// The handler returned an error.
    HandlerFailed,
    /// The deadline passed before the handler returned.
    DeadlineElapsed,
}

/// What the driver must do about a delivery.
#[derive(Clone, Copy, Debug, PartialEq, Eq, Structural)]
pub enum DeliveryAction {
    /// Run the handler on the decoded event and give it `deadline` time
    /// units.
    RunHandler { deadline: u64 },
    /// Acknowledge the delivery with this tag.
    Accept { delivery_tag: u64 },
    /// Hand the delivery with this tag back to the broker for redelivery,
    /// and abandon the handler if it still runs.
    Requeue { delivery_tag: u64 },
    /// The event has no place in the current phase; nothing changed.
    Ignore,
}

impl DeliveryAction {
    /// Whether the action is an answer to the broker.
    pub open spec fn is_answer(self) -> bool {
        self is Accept || self is Requeue
    }
}

/// One delivery as a mathematical value.
pub struct DeliveryModel {
    /// The broker's handle for the delivery.
    pub delivery_tag: u64,
    /// How long the handler may run.
    pub deadline: u64,
    /// How far the handling has come.
    pub phase: DeliveryPhase,
}

impl DeliveryModel {
    /// A delivery that has just arrived.
    pub open spec fn received(delivery_tag: u64, deadline: u64) -> DeliveryModel {
        DeliveryModel { delivery_tag, deadline, phase: DeliveryPhase::Received }
    }

    /// The delivery in another phase.
    pub open spec fn in_phase(self, phase: DeliveryPhase) -> DeliveryModel {
        DeliveryModel { delivery_tag: self.delivery_tag, deadline: self.deadline, phase }
    }

    /// The answer that carries out `disposition` for this delivery.
    pub open spec fn answer(self, disposition: Disposition) -> DeliveryAction {
        match disposition {
            Disposition::Accept => DeliveryAction::Accept { delivery_tag: self.delivery_tag },
            Disposition::Requeue => DeliveryAction::Requeue { delivery_tag: self.delivery_tag },
        }
    }

    /// The outcome that an event brings in the current phase, if it ends the
    /// handling: a failed decode of a received message, or the handler's
    /// result or the deadline while the handler runs.
    pub open spec fn outcome_of(self, event: DeliveryEvent) -> Option<HandlerOutcome> {
        match (self.phase, event) {
            (DeliveryPhase::Received, DeliveryEvent::DecodeFailed) => Some(HandlerOutcome::DecodeError),
            (DeliveryPhase::Handling, DeliveryEvent::HandlerSucceeded) => Some(HandlerOutcome::Success),
            (DeliveryPhase::Handling, DeliveryEvent::HandlerFailed) => Some(HandlerOutcome::Failure),
            (DeliveryPhase::Handling, DeliveryEvent::DeadlineElapsed) => Some(HandlerOutcome::Timeout),
            _ => None,
        }
    }

    /// One transition. An event that brings an outcome settles the delivery
    /// with the answer that the outcome calls for. A decoded message starts
    /// the handler. Any other event, and every event after the answer, is
    /// ignored.
    pub open spec fn step(self, event: DeliveryEvent) -> (DeliveryModel, DeliveryAction) {
        match self.outcome_of(event) {
            Some(outcome) => (
                self.in_phase(DeliveryPhase::Settled),
                self.answer(disposition_of(outcome)),
            ),
            None => if self.phase == DeliveryPhase::Received && event == DeliveryEvent::Decoded {
                (
                    self.in_phase(DeliveryPhase::Handling),
                    DeliveryAction::RunHandler { deadline: self.deadline },
                )
            } else {
                (self, DeliveryAction::Ignore)
            },
        }
    }
}

/// The handling of one delivery.
pub struct Delivery {
    delivery_tag: u64,
    deadline: u64,
    phase: DeliveryPhase,
}

impl View for Delivery {
    type V = DeliveryModel;

    closed spec fn view(&self) -> DeliveryModel {
        DeliveryModel { delivery_tag: self.delivery_tag, deadline: self.deadline, phase: self.phase }
    }
}

impl Delivery {
    /// The handling of the delivery with the given tag, whose handler may run
    /// for `deadline` time units.
    pub fn new(delivery_tag: u64, deadline: u64) -> (delivery: Self)
        ensures
            delivery@ == DeliveryModel::received(delivery_tag, deadline),
    {
        Delivery { delivery_tag, deadline, phase: DeliveryPhase::Received }
    }

    /// How far the handling has come.
    pub fn phase(&self) -> (phase: DeliveryPhase)
        ensures
            phase == self@.phase,
    {
        self.phase
    }

    /// The broker's handle for the delivery.
    pub fn delivery_tag(&self) -> (tag: u64)
        ensures
            tag == self@.delivery_tag,
    {
        self.delivery_tag
    }

    fn answer(&self, outcome: HandlerOutcome) -> (action: DeliveryAction)
        ensures
            action == self@.answer(disposition_of(outcome)),
    {
        match settle(outcome) {
            Disposition::Accept => DeliveryAction::Accept { delivery_tag: self.delivery_tag },
            Disposition::Requeue => DeliveryAction::Requeue { delivery_tag: self.delivery_tag },
        }
    }

    /// Takes one event and says what the driver must do.
    pub fn step(&mut self, event: DeliveryEvent) -> (action: DeliveryAction)
        ensures
            (final(self)@, action) == old(self)@.step(event),
    {
        let outcome: Option<HandlerOutcome> = match (self.phase, event) {
            (DeliveryPhase::Received, DeliveryEvent::DecodeFailed) => Some(HandlerOutcome::DecodeError),
            (DeliveryPhase::Handling, DeliveryEvent::HandlerSucceeded) => Some(HandlerOutcome::Success),
            (DeliveryPhase::Handling, DeliveryEvent::HandlerFailed) => Some(HandlerOutcome::Failure),
            (DeliveryPhase::Handling, DeliveryEvent::DeadlineElapsed) => Some(HandlerOutcome::Timeout),
            _ => None,
        };
        match outcome {
            Some(outcome) => {
                let action = self.answer(outcome);
                self.phase = DeliveryPhase::Settled;
                action
            },
            None => match (self.phase, event) {
                (DeliveryPhase::Received, DeliveryEvent::Decoded) => {
                    self.phase = DeliveryPhase::Handling;
                    DeliveryAction::RunHandler { deadline: self.deadline }
                },
                _ => DeliveryAction::Ignore,
            },
        }
    }
}

/// The events by which the driver reports a delivery that ends in `outcome`.
pub open spec fn events_of(outcome: HandlerOutcome) -> Seq<DeliveryEvent> {
    match outcome {
        HandlerOutcome::DecodeError => seq![DeliveryEvent::DecodeFailed],
        HandlerOutcome::Success => seq![DeliveryEvent::Decoded, DeliveryEvent::HandlerSucceeded],
        HandlerOutcome::Failure => seq![DeliveryEvent::Decoded, DeliveryEvent::HandlerFailed],
        HandlerOutcome::Timeout => seq![DeliveryEvent::Decoded, DeliveryEvent::DeadlineElapsed],
    }
}

/// The delivery after it took `events`, one after the other.
pub open spec fn delivery_after(m: DeliveryModel, events: Seq<DeliveryEvent>) -> DeliveryModel
    decreases events.len(),
{
    if events.len() == 0 {
        m
    } else {
        delivery_after(m, events.drop_last()).step(events.last()).0
    }
}

/// The answers to the broker among the actions that `events` draw from the
/// delivery, in order.
pub open spec fn answers_to(m: DeliveryModel, events: Seq<DeliveryEvent>) -> Seq<DeliveryAction>
    decreases events.len(),
{
    if events.len() == 0 {
        Seq::empty()
    } else {
        let before = answers_to(m, events.drop_last());
        let action = delivery_after(m, events.drop_last()).step(events.last()).1;
        if action.is_answer() {
            before.push(action)
        } else {
            before
        }
    }
}

/// Never both. Whatever events a delivery takes, and in whatever order, the
/// broker gets at most one answer for it: exactly one once the delivery is
/// settled, none before.
pub proof fn lemma_at_most_one_answer(delivery_tag: u64, deadline: u64, events: Seq<DeliveryEvent>)
    ensures
        ({
            let start = DeliveryModel::received(delivery_tag, deadline);
            let end = delivery_after(start, events);
            &&& end.delivery_tag == delivery_tag
            &&& end.deadline == deadline
            &&& answers_to(start, events).len() == if end.phase == DeliveryPhase::Settled {
                1nat
            } else {
                0nat
            }
        }),
    decreases events.len(),
{
    if events.len() > 0 {
        lemma_at_most_one_answer(delivery_tag, deadline, events.drop_last());
    }
}

/// Never zero. Each of the four outcomes settles the delivery, and the one
/// answer that the broker gets is the one that the outcome calls for: accept
/// after success, requeue after failure, timeout and decode error. Whatever
/// comes in afterwards changes nothing.
pub proof fn lemma_every_outcome_is_answered(
    delivery_tag: u64,
    deadline: u64,
    outcome: HandlerOutcome,
    late: DeliveryEvent,
)
    ensures
        ({
            let start = DeliveryModel::received(delivery_tag, deadline);
            let end = delivery_after(start, events_of(outcome));
            &&& end.phase == DeliveryPhase::Settled
            &&& answers_to(start, events_of(outcome)) == seq![start.answer(disposition_of(outcome))]
            &&& end.step(late) == (end, DeliveryAction::Ignore)
        }),
{
    let start = DeliveryModel::received(delivery_tag, deadline);
    let events = events_of(outcome);
    reveal_with_fuel(delivery_after, 3);
    reveal_with_fuel(answers_to, 3);
    if outcome == HandlerOutcome::DecodeError {
        assert(events.drop_last() =~= Seq::<DeliveryEvent>::empty());
        assert(answers_to(start, events) =~= seq![start.answer(disposition_of(outcome))]);
    } else {
        assert(events.drop_last() =~= seq![DeliveryEvent::Decoded]);
        assert(events.drop_last().drop_last() =~= Seq::<DeliveryEvent>::empty());
        assert(answers_to(start, events) =~= seq![start.answer(disposition_of(outcome))]);
    }
}

} // verus!

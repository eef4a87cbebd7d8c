//! Transactional-outbox relay: the decisions of the relay and of the consumer,
//! stated and proved over plain values.

pub mod consumer;
pub mod event;
pub mod outbox;
pub mod producer;
pub mod relay;
pub mod sampler;
pub mod trigger;
pub mod worker;

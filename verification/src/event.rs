//! Domain events as the producer records them: a payload, the topic it is
//! published under, and the time it was created.

use vstd::prelude::*;

pub mod topic;

verus! {

/// `chrono::NaiveDateTime`, carried through as an opaque value.
#[verifier::external_type_specification]
#[verifier::external_body]
pub struct ExNaiveDateTime(chrono::NaiveDateTime);

/// `uuid::Uuid`, carried through as an opaque value.
#[verifier::external_type_specification]
#[verifier::external_body]
pub struct ExUuid(uuid::Uuid);

/// A payload that knows the topic it is published under.
pub trait Topic {
    /// The topic of this payload.
    fn topic(&self) -> &'static str;
}

/// A payload together with the time at which it came to be.
pub struct Event<Payload> {
    payload: Payload,
    created_at: chrono::NaiveDateTime,
}

impl<Payload> Event<Payload> {
    /// The payload that the event carries.
    pub closed spec fn body(&self) -> Payload {
        self.payload
    }

    /// The time that the event was created with.
    pub closed spec fn created(&self) -> chrono::NaiveDateTime {
        self.created_at
    }

    /// An event that carries `payload` and was created at `created_at`.
    pub fn new(payload: Payload, created_at: chrono::NaiveDateTime) -> (e: Self)
        ensures
            e.body() == payload,
            e.created() == created_at,
    {
        Self { payload, created_at }
    }

    /// The time at which the event was created.
    pub fn created_at<'a>(&'a self) -> (t: &'a chrono::NaiveDateTime)
        ensures
            *t == self.created(),
    {
        &self.created_at
    }

    /// Takes the event apart into its payload and its time of creation.
    pub fn into_parts(self) -> (parts: (Payload, chrono::NaiveDateTime))
        ensures
            parts.0 == self.body(),
            parts.1 == self.created(),
    {
        (self.payload, self.created_at)
    }
}

impl<Payload> Event<Payload> where Payload: Topic {
    /// The topic that the payload is published under: what the payload's own
    /// `topic` gives for it.
    pub fn topic<'a>(&'a self) -> (t: &'a str)
        ensures
            call_ensures(<Payload as Topic>::topic, (&self.body(),), t),
    {
        self.payload.topic()
    }
}

impl<Payload> Event<Payload> where Payload: std::fmt::Display {
    /// The payload as the text that `Display` gives it.
    pub fn payload(&self) -> (text: String)
        ensures
            vstd::string::to_string_from_display_ensures::<Payload>(&self.body(), text),
    {
        self.payload.to_string()
    }
}

/// The event that a post was made.
#[derive(Debug)]
pub struct Posted {
    /// The identifier of the post.
    pub id: uuid::Uuid,
    /// The title of the post.
    pub title: String,
}

impl Topic for Posted {
    fn topic(&self) -> (t: &'static str)
        ensures
            t@ == topic::POST@,
    {
        topic::POST
    }
}

} // verus!

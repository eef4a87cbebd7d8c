//! The producer's side: a post and the event that tells of it, made together
//! so that both carry the same identifier.

use crate::event::{Event, Posted};
use vstd::prelude::*;

verus! {

/// A post as the producer writes it to its own table.
pub struct Post<'a> {
    /// The identifier of the post.
    pub id: uuid::Uuid,
    /// The title of the post.
    pub title: &'a str,
    /// The text of the post.
    pub content: &'a str,
}

/// A fresh random identifier from `uuid::Uuid::new_v4`. The outcome is the
/// operating system's random number generator's, so nothing is claimed of it.
#[verifier::external_body]
fn fresh_id() -> (id: uuid::Uuid) {
    uuid::Uuid::new_v4()
}

/// The current time in UTC from `chrono::Utc::now`, without its offset. It
/// reads the system clock, which must not stand before 1970; nothing is
/// claimed of the time that comes back.
#[verifier::external_body]
fn current_time() -> (now: chrono::NaiveDateTime) {
    chrono::Utc::now().naive_utc()
}

/// The post with the given identifier, title and content, and the event of
/// its creation at time `now`. The event carries the post's identifier and
/// title.
pub fn post_with<'a>(
    id: uuid::Uuid,
    now: chrono::NaiveDateTime,
    title: &'a str,
    content: &'a str,
) -> (made: (Post<'a>, Event<Posted>))
    ensures
        made.0.id == id,
        made.0.title == title,
        made.0.content == content,
        made.1.body().id == id,
        made.1.body().title@ == title@,
        made.1.created() == now,
{
    let event = Event::new(Posted { id, title: title.to_owned() }, now);
    let post = Post { id, title, content };
    (post, event)
}

/// A new post with a fresh identifier, and the event of its creation at the
/// current time. Whatever identifier and time were drawn, the post holds the
/// given title and content, and the event holds the post's identifier and
/// title.
pub fn post<'a>(title: &'a str, content: &'a str) -> (made: (Post<'a>, Event<Posted>))
    ensures
        made.0.title == title,
        made.0.content == content,
        made.1.body().id == made.0.id,
        made.1.body().title@ == title@,
{
    let id = fresh_id();
    let now = current_time();
    post_with(id, now, title, content)
}

} // verus!

use outbox_relay::event::topic::POST;
use outbox_relay::event::{Event, Posted, Topic};
use outbox_relay::producer::{post, post_with};

struct Note(&'static str);

impl std::fmt::Display for Note {
    fn fmt(&self, f: &mut std::fmt::Formatter<'_>) -> std::fmt::Result {
        f.write_str(self.0)
    }
}

impl Topic for Note {
    fn topic(&self) -> &'static str {
        "note"
    }
}

fn noon() -> chrono::NaiveDateTime {
    chrono::NaiveDate::from_ymd_opt(2024, 5, 17)
        .unwrap()
        .and_hms_opt(12, 0, 0)
        .unwrap()
}

#[test]
fn event_renders_its_payload_and_keeps_its_time() {
    let event = Event::new(String::from("hello"), noon());
    assert_eq!(event.payload(), "hello");
    assert_eq!(*event.created_at(), noon());
    let (payload, created_at) = event.into_parts();
    assert_eq!(payload, "hello");
    assert_eq!(created_at, noon());
}

#[test]
fn event_of_a_payload_with_text_and_topic_gives_both() {
    let event = Event::new(Note("remember the milk"), noon());
    assert_eq!(event.payload(), "remember the milk");
    assert_eq!(event.topic(), "note");
    assert_eq!(*event.created_at(), noon());
}

#[test]
fn posted_goes_to_the_post_topic() {
    let posted = Posted { id: uuid::Uuid::from_u128(7), title: String::from("first") };
    assert_eq!(posted.topic(), "post");
    assert_eq!(POST, "post");
    let event = Event::new(posted, noon());
    assert_eq!(event.topic(), POST);
}

#[test]
fn post_with_shares_identifier_and_title() {
    let id = uuid::Uuid::from_u128(0x1234);
    let (post, event) = post_with(id, noon(), "Hello, world!", "This is my post.");
    assert_eq!(post.id, id);
    assert_eq!(post.title, "Hello, world!");
    assert_eq!(post.content, "This is my post.");
    assert_eq!(*event.created_at(), noon());
    assert_eq!(event.topic(), "post");
    let (posted, _) = event.into_parts();
    assert_eq!(posted.id, id);
    assert_eq!(posted.title, "Hello, world!");
}

#[test]
fn post_draws_a_random_identifier_and_the_current_time() {
    let before = chrono::Utc::now().naive_utc();
    let (first, first_event) = post("Hello, world!", "This is my post.");
    let (second, _) = post("Hello, world!", "This is my post.");
    let after = chrono::Utc::now().naive_utc();
    assert_eq!(first.id.get_version_num(), 4);
    assert_ne!(first.id, second.id);
    assert_eq!(first.title, "Hello, world!");
    assert_eq!(first.content, "This is my post.");
    assert!(before <= *first_event.created_at());
    assert!(*first_event.created_at() <= after);
    let (posted, _) = first_event.into_parts();
    assert_eq!(posted.id, first.id);
    assert_eq!(posted.title, "Hello, world!");
}

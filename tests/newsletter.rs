use zero_to_prod::delivery::{backoff_delay, Disposition, StoreError, LEASE_SECS, MAX_ATTEMPTS};
use zero_to_prod::email::{parse_confirmed_subscribers, SubscriberEmail};
use zero_to_prod::idempotency::{IdempotencyKey, KeyError, LedgerError, NextAction};
use zero_to_prod::newsroom::{
    next_poll_delay, CommandError, Delivery, Dispatch, NewsletterFormData, Newsroom,
    EMPTY_QUEUE_DELAY_SECS, ERROR_DELAY_SECS,
};
use zero_to_prod::response::{see_other_newsletter, SavedResponse};

const USER: u128 = 0x1234_5678_9abc_def0_1234_5678_9abc_def0;

fn form(title: &str, key: &str) -> NewsletterFormData {
    NewsletterFormData {
        title: title.to_string(),
        text_content: "Newsletter body as plain text".to_string(),
        html_content: "<p>Newsletter body as HTML</p>".to_string(),
        idempotency_key: key.to_string(),
    }
}

fn subscribers(emails: &[&str]) -> Vec<Result<SubscriberEmail, String>> {
    parse_confirmed_subscribers(emails.iter().map(|e| e.to_string()).collect())
}

/// A mail transport that records what it was asked to send and fails the
/// first `failures` attempts.
struct FakeTransport {
    sent: Vec<(String, String)>,
    failures: usize,
}

impl FakeTransport {
    fn new(failures: usize) -> Self {
        FakeTransport { sent: Vec::new(), failures }
    }

    fn send(&mut self, d: &Delivery) -> bool {
        if self.failures > 0 {
            self.failures -= 1;
            return false;
        }
        self.sent.push((d.recipient.as_str().to_string(), d.title.clone()));
        true
    }
}

/// Runs worker steps at `now` until the queue reports empty.
fn drain(room: &mut Newsroom, transport: &mut FakeTransport, now: u64) {
    loop {
        match room.next_delivery(now).expect("store error") {
            Dispatch::EmptyQueue => break,
            Dispatch::Skipped(_) => continue,
            Dispatch::Deliver(d) => {
                let ok = transport.send(&d);
                room.complete_delivery(d.token, ok, now).expect("claim held");
            }
        }
    }
}

#[test]
fn newsletter_creation_is_idempotent() {
    let mut room = Newsroom::new();
    let subs = subscribers(&["ursula@example.com"]);
    let body = form("Newsletter title", "0e5cfe4e-8f7e-4b0c-9d2a-0f1a2b3c4d5e");

    let first = room.publish_newsletter(USER, &body, &subs, 100).expect("accepted");
    assert_eq!(first, see_other_newsletter());
    assert_eq!(first.status, 303);
    assert_eq!(first.headers[0].name, "location");
    assert_eq!(first.headers[0].value, "/admin/newsletter");

    let second = room.publish_newsletter(USER, &body, &subs, 101).expect("replayed");
    assert_eq!(second, first);
    assert_eq!(room.issue_count(), 1);
    assert_eq!(room.queue().len(), 1);

    let mut transport = FakeTransport::new(0);
    drain(&mut room, &mut transport, 200);
    assert_eq!(transport.sent, vec![("ursula@example.com".to_string(), "Newsletter title".to_string())]);
    assert_eq!(room.queue().len(), 0);
}

#[test]
fn concurrent_form_submission_is_handled_gracefully() {
    let mut room = Newsroom::new();
    let subs = subscribers(&["ursula@example.com"]);
    let body = form("Newsletter title", "concurrent-key");
    let key = IdempotencyKey::parse(body.idempotency_key.clone()).unwrap();

    // The first request reserves the key.
    assert!(matches!(room.begin(USER, &key, 100), Ok(NextAction::StartProcessing)));
    // The second arrives while the first is still in its transaction: it waits.
    assert_eq!(room.begin(USER, &key, 100).unwrap_err(), LedgerError::InFlight);
    assert_eq!(room.publish_newsletter(USER, &body, &subs, 100).unwrap_err(), CommandError::InFlight);
    // The first commits.
    let response1 = room.commit_publish(USER, &key, &body, &subs, 102).expect("committed");
    // The second asks again and gets the very same response.
    let response2 = match room.begin(USER, &key, 103) {
        Ok(NextAction::ReturnSaved(r)) => r,
        other => panic!("expected a replay, got {:?}", other),
    };
    assert_eq!(response1.status, response2.status);
    assert_eq!(response1.body, response2.body);
    assert_eq!(response1, response2);
    assert_eq!(room.issue_count(), 1);
    assert_eq!(room.queue().len(), 1);

    let mut transport = FakeTransport::new(0);
    drain(&mut room, &mut transport, 200);
    assert_eq!(transport.sent.len(), 1);
}

#[test]
fn two_subscribers_duplicate_submission_sends_two_emails() {
    let mut room = Newsroom::new();
    let subs = subscribers(&["one@example.com", "two@example.com"]);
    let body = form("T", "same-key");
    let key = IdempotencyKey::parse("same-key".to_string()).unwrap();

    // A concurrent pair: the first holds the key while its (slow) work runs.
    assert!(matches!(room.begin(USER, &key, 0), Ok(NextAction::StartProcessing)));
    assert_eq!(room.publish_newsletter(USER, &body, &subs, 1).unwrap_err(), CommandError::InFlight);
    let r1 = room.commit_publish(USER, &key, &body, &subs, 2).unwrap();
    let r2 = room.publish_newsletter(USER, &body, &subs, 3).unwrap();
    assert_eq!(r1.status, r2.status);
    assert_eq!(r1.body, r2.body);

    let mut transport = FakeTransport::new(0);
    drain(&mut room, &mut transport, 10);
    assert_eq!(transport.sent.len(), 2);
    let mut recipients: Vec<String> = transport.sent.iter().map(|(r, _)| r.clone()).collect();
    recipients.sort();
    assert_eq!(recipients, vec!["one@example.com".to_string(), "two@example.com".to_string()]);
    assert!(transport.sent.iter().all(|(_, t)| t == "T"));
    assert_eq!(room.queue().len(), 0);
}

#[test]
fn unparseable_subscriber_is_skipped() {
    let mut room = Newsroom::new();
    let subs = subscribers(&["a@example.com", "broken-address", "c@example.com"]);
    let r = room.publish_newsletter(USER, &form("Title", "k1"), &subs, 5);
    assert!(r.is_ok());
    assert_eq!(room.queue().len(), 2);
    assert_eq!(room.queue().task(0).recipient, "a@example.com");
    assert_eq!(room.queue().task(1).recipient, "c@example.com");
    assert_eq!(room.queue().task(0).issue_id, 0);
    assert_eq!(room.queue().task(1).enqueued_at, 5);
}

#[test]
fn duplicate_addresses_get_one_task() {
    let mut room = Newsroom::new();
    let subs = subscribers(&["a@example.com", "a@example.com"]);
    room.publish_newsletter(USER, &form("Title", "k1"), &subs, 5).unwrap();
    assert_eq!(room.queue().len(), 1);
}

#[test]
fn draining_sends_one_email_per_valid_subscriber() {
    let mut room = Newsroom::new();
    let subs = subscribers(&["a@example.com", "b@example.com", "bad", "c@example.com"]);
    room.publish_newsletter(USER, &form("Issue 1", "k1"), &subs, 0).unwrap();
    room.publish_newsletter(USER, &form("Issue 2", "k2"), &subs, 0).unwrap();
    assert_eq!(room.issue_count(), 2);
    assert_eq!(room.issue(1).title, "Issue 2");
    assert_eq!(room.queue().len(), 6);

    let mut transport = FakeTransport::new(0);
    drain(&mut room, &mut transport, 1);
    assert_eq!(
        transport.sent,
        vec![
            ("a@example.com".to_string(), "Issue 1".to_string()),
            ("b@example.com".to_string(), "Issue 1".to_string()),
            ("c@example.com".to_string(), "Issue 1".to_string()),
            ("a@example.com".to_string(), "Issue 2".to_string()),
            ("b@example.com".to_string(), "Issue 2".to_string()),
            ("c@example.com".to_string(), "Issue 2".to_string()),
        ]
    );
    assert_eq!(room.queue().len(), 0);
    assert!(matches!(room.next_delivery(1), Ok(Dispatch::EmptyQueue)));
}

#[test]
fn transient_failure_then_success_delivers_once() {
    let mut room = Newsroom::new();
    let subs = subscribers(&["ursula@example.com"]);
    room.publish_newsletter(USER, &form("Title", "k1"), &subs, 0).unwrap();
    let mut transport = FakeTransport::new(1);

    // Attempt 1 fails: the task is put back with a backoff.
    let d = match room.next_delivery(10).unwrap() {
        Dispatch::Deliver(d) => d,
        other => panic!("expected a delivery, got {:?}", other),
    };
    assert!(!transport.send(&d));
    assert_eq!(room.complete_delivery(d.token, false, 10), Ok(Disposition::Requeued));
    assert_eq!(room.queue().len(), 1);
    assert_eq!(room.queue().task(0).attempts, 1);
    assert_eq!(room.queue().task(0).available_at, 10 + 30);
    // Not claimable before its backoff has passed.
    assert!(matches!(room.next_delivery(39), Ok(Dispatch::EmptyQueue)));

    // Attempt 2 succeeds.
    let d = match room.next_delivery(40).unwrap() {
        Dispatch::Deliver(d) => d,
        other => panic!("expected a delivery, got {:?}", other),
    };
    assert!(transport.send(&d));
    assert_eq!(room.complete_delivery(d.token, true, 40), Ok(Disposition::Retired));
    assert_eq!(room.queue().len(), 0);
    assert_eq!(transport.sent.len(), 1);
    assert!(matches!(room.next_delivery(1000), Ok(Dispatch::EmptyQueue)));
}

#[test]
fn task_is_retired_after_the_last_attempt() {
    let mut room = Newsroom::new();
    let subs = subscribers(&["ursula@example.com"]);
    room.publish_newsletter(USER, &form("Title", "k1"), &subs, 0).unwrap();
    let mut now: u64 = 0;
    for attempt in 1..=MAX_ATTEMPTS {
        let d = match room.next_delivery(now).unwrap() {
            Dispatch::Deliver(d) => d,
            other => panic!("expected a delivery, got {:?}", other),
        };
        let disposition = room.complete_delivery(d.token, false, now).unwrap();
        if attempt < MAX_ATTEMPTS {
            assert_eq!(disposition, Disposition::Requeued);
        } else {
            assert_eq!(disposition, Disposition::Retired);
        }
        now += 10_000;
    }
    assert_eq!(room.queue().len(), 0);
}

#[test]
fn backoff_doubles() {
    assert_eq!(backoff_delay(1), 30);
    assert_eq!(backoff_delay(2), 60);
    assert_eq!(backoff_delay(3), 120);
    assert_eq!(backoff_delay(4), 240);
}

#[test]
fn claimed_task_is_skipped_by_other_workers_until_its_lease_expires() {
    let mut room = Newsroom::new();
    let subs = subscribers(&["a@example.com", "b@example.com"]);
    room.publish_newsletter(USER, &form("Title", "k1"), &subs, 0).unwrap();

    let first = match room.next_delivery(0).unwrap() {
        Dispatch::Deliver(d) => d,
        other => panic!("{:?}", other),
    };
    // A second worker skips the locked task and takes the next one.
    let second = match room.next_delivery(0).unwrap() {
        Dispatch::Deliver(d) => d,
        other => panic!("{:?}", other),
    };
    assert_eq!(first.recipient.as_str(), "a@example.com");
    assert_eq!(second.recipient.as_str(), "b@example.com");
    assert!(matches!(room.next_delivery(0), Ok(Dispatch::EmptyQueue)));

    // The first worker crashed: after the lease runs out another takes over.
    let again = match room.next_delivery(LEASE_SECS).unwrap() {
        Dispatch::Deliver(d) => d,
        other => panic!("{:?}", other),
    };
    assert_eq!(again.task_id, first.task_id);
    assert_ne!(again.token, first.token);
    // The crashed worker's late report is refused; the new holder's counts.
    assert_eq!(room.complete_delivery(first.token, true, LEASE_SECS), Err(StoreError::ClaimLost));
    assert_eq!(room.complete_delivery(again.token, true, LEASE_SECS), Ok(Disposition::Retired));
    assert_eq!(room.complete_delivery(second.token, true, LEASE_SECS), Ok(Disposition::Retired));
    assert_eq!(room.queue().len(), 0);
}

#[test]
fn invalid_key_is_rejected_without_side_effects() {
    let mut room = Newsroom::new();
    let subs = subscribers(&["a@example.com"]);
    assert_eq!(
        room.publish_newsletter(USER, &form("Title", ""), &subs, 0).unwrap_err(),
        CommandError::InvalidKey(KeyError::Empty)
    );
    assert_eq!(
        room.publish_newsletter(USER, &form("Title", &"x".repeat(60)), &subs, 0).unwrap_err(),
        CommandError::InvalidKey(KeyError::TooLong)
    );
    assert_eq!(room.issue_count(), 0);
    assert_eq!(room.queue().len(), 0);
}

#[test]
fn keys_are_scoped_per_user() {
    let mut room = Newsroom::new();
    let subs = subscribers(&["a@example.com"]);
    room.publish_newsletter(1, &form("From one", "shared"), &subs, 0).unwrap();
    room.publish_newsletter(2, &form("From two", "shared"), &subs, 0).unwrap();
    assert_eq!(room.issue_count(), 2);
    assert_eq!(room.queue().len(), 2);
}

#[test]
fn rolled_back_reservation_can_be_retried() {
    let mut room = Newsroom::new();
    let subs = subscribers(&["a@example.com"]);
    let key = IdempotencyKey::parse("retry-me".to_string()).unwrap();
    assert!(matches!(room.begin(USER, &key, 0), Ok(NextAction::StartProcessing)));
    assert_eq!(room.abort(USER, &key), Ok(()));
    assert_eq!(room.abort(USER, &key), Err(LedgerError::NotReserved));
    assert_eq!(
        room.commit_publish(USER, &key, &form("Title", "retry-me"), &subs, 0).unwrap_err(),
        CommandError::NotReserved
    );
    room.publish_newsletter(USER, &form("Title", "retry-me"), &subs, 1).unwrap();
    assert_eq!(room.issue_count(), 1);
    assert_eq!(room.ledger().state_of(USER, &key).map(|s| s.is_some()), Some(true));
}

#[test]
fn saved_response_is_never_overwritten() {
    let mut room = Newsroom::new();
    let subs = subscribers(&[]);
    let key = IdempotencyKey::parse("k".to_string()).unwrap();
    room.publish_newsletter(USER, &form("Title", "k"), &subs, 0).unwrap();
    assert_eq!(
        room.commit_publish(USER, &key, &form("Other", "k"), &subs, 1).unwrap_err(),
        CommandError::NotReserved
    );
    assert_eq!(room.issue_count(), 1);
}

#[test]
fn worker_poll_delays() {
    assert_eq!(next_poll_delay(&Ok(Dispatch::EmptyQueue)), EMPTY_QUEUE_DELAY_SECS);
    assert_eq!(next_poll_delay(&Ok(Dispatch::Skipped(3))), 0);
    assert_eq!(next_poll_delay(&Err(StoreError::ClaimLost)), ERROR_DELAY_SECS);
    assert_eq!(EMPTY_QUEUE_DELAY_SECS, 10);
}

#[test]
fn saved_response_copy_is_identical() {
    let r = see_other_newsletter();
    let mut with_body = SavedResponse { status: r.status, headers: Vec::new(), body: vec![1, 2, 3] };
    with_body.headers.push(r.headers[0].duplicate());
    assert_eq!(with_body.duplicate(), with_body);
}

//! The publish command and the worker step, over one store that holds the
//! ledger, the issues and the delivery queue. Each `&mut` call is one
//! transaction: it either makes all of its changes or none.
use vstd::prelude::*;
use crate::delivery::{
    claim_spec, enqueue_all, first_claimable, has_claimable, settle_spec, Attempt, DeliveryQueue,
    Disposition, QueueView, StoreError, TaskView,
};
use crate::email::{email_is_valid, SubscriberEmail};
use crate::idempotency::{
    entry_index, key_error, key_state, lemma_entry_at, placeholder, saved_entry, EntryView,
    IdempotencyKey, IdempotencyLedger, KeyError, KeyState, LedgerError, NextAction,
};
use crate::response::{published_response, see_other_newsletter, ResponseView, SavedResponse};

verus! {

/// The fields of the publish form.
#[derive(Debug)]
pub struct NewsletterFormData {
    pub title: String,
    pub text_content: String,
    pub html_content: String,
    pub idempotency_key: String,
}

/// A published issue; immutable once stored.
#[derive(Debug)]
pub struct NewsletterIssue {
    pub issue_id: u64,
    pub title: String,
    pub html_content: String,
    pub text_content: String,
}

pub struct IssueView {
    pub issue_id: u64,
    pub title: Seq<char>,
    pub html_content: Seq<char>,
    pub text_content: Seq<char>,
}

impl View for NewsletterIssue {
    type V = IssueView;

    open spec fn view(&self) -> IssueView {
        IssueView {
            issue_id: self.issue_id,
            title: self.title@,
            html_content: self.html_content@,
            text_content: self.text_content@,
        }
    }
}

/// Title, HTML body and text body of a submission.
pub struct ContentView {
    pub title: Seq<char>,
    pub html_content: Seq<char>,
    pub text_content: Seq<char>,
}

pub open spec fn form_content(form: NewsletterFormData) -> ContentView {
    ContentView {
        title: form.title@,
        html_content: form.html_content@,
        text_content: form.text_content@,
    }
}

/// The confirmed subscribers as handed to the command: the address of each
/// one that parsed, `None` for each one that did not.
pub open spec fn subscribers_view(subs: Seq<Result<SubscriberEmail, String>>) -> Seq<Option<Seq<char>>> {
    subs.map_values(
        |r: Result<SubscriberEmail, String>|
            match r {
                Ok(e) => Some(e@),
                Err(_) => None,
            },
    )
}

/// The parsed addresses, in order.
pub open spec fn valid_recipients(subs: Seq<Option<Seq<char>>>) -> Seq<Seq<char>>
    decreases subs.len(),
{
    if subs.len() == 0 {
        Seq::empty()
    } else {
        let rest = valid_recipients(subs.drop_last());
        match subs.last() {
            Some(e) => rest.push(e),
            None => rest,
        }
    }
}

/// Why the publish command did not produce a response.
#[derive(Debug, Clone, Copy, PartialEq, Eq, Structural)]
pub enum CommandError {
    /// The idempotency key was malformed; nothing was touched.
    InvalidKey(KeyError),
    /// The same (user, key) is being processed by another submission.
    InFlight,
    /// The two-phase commit found no reservation to complete.
    NotReserved,
    /// The store could not take the work; the reservation was rolled back.
    Storage(StoreError),
}

/// Everything a worker needs to send one e-mail.
#[derive(Debug)]
pub struct Delivery {
    pub token: u64,
    pub task_id: u64,
    pub issue_id: u64,
    pub recipient: SubscriberEmail,
    pub title: String,
    pub html_content: String,
    pub text_content: String,
}

/// The result of one worker step.
#[derive(Debug)]
pub enum Dispatch {
    /// No task can be claimed now: the worker may sleep.
    EmptyQueue,
    /// The claimed task held an address that does not parse; it was retired
    /// without a send.
    Skipped(u64),
    /// A task was claimed: send it, then report with `complete_delivery`.
    Deliver(Delivery),
}

/// Seconds a worker sleeps when the queue is empty.
pub const EMPTY_QUEUE_DELAY_SECS: u64 = 10;

/// Seconds a worker waits after a storage error before it polls again.
pub const ERROR_DELAY_SECS: u64 = 1;

/// How long the worker loop waits before its next step: not at all after a
/// task, to drain bursts; a while on an empty queue; a little after an error,
/// which never stops the loop.
pub fn next_poll_delay(step: &Result<Dispatch, StoreError>) -> (r: u64)
    ensures
        r == match step {
            Ok(Dispatch::EmptyQueue) => EMPTY_QUEUE_DELAY_SECS,
            Ok(_) => 0,
            Err(_) => ERROR_DELAY_SECS,
        },
{
    match step {
        Ok(Dispatch::EmptyQueue) => EMPTY_QUEUE_DELAY_SECS,
        Ok(_) => 0,
        Err(_) => ERROR_DELAY_SECS,
    }
}

pub struct RoomView {
    pub ledger: Seq<EntryView>,
    pub issues: Seq<IssueView>,
    pub queue: QueueView,
}

/// The store: the idempotency ledger, the issues (the issue with id `i`
/// stands at position `i`) and the delivery queue.
pub struct Newsroom {
    ledger: IdempotencyLedger,
    issues: Vec<NewsletterIssue>,
    queue: DeliveryQueue,
}

impl View for Newsroom {
    type V = RoomView;

    closed spec fn view(&self) -> RoomView {
        RoomView {
            ledger: self.ledger@,
            issues: self.issues@.map_values(|i: NewsletterIssue| i@),
            queue: self.queue@,
        }
    }
}

pub open spec fn room_wf(v: RoomView) -> bool {
    &&& crate::idempotency::unique_keys(v.ledger)
    &&& crate::delivery::queue_wf(v.queue)
    &&& v.issues.len() <= u64::MAX
    &&& forall|i: int| 0 <= i < v.issues.len() ==> (#[trigger] v.issues[i]).issue_id == i
    &&& forall|i: int|
        0 <= i < v.queue.tasks.len() ==> (#[trigger] v.queue.tasks[i]).issue_id < v.issues.len()
}

/// Whether the identifiers left suffice for one more issue and its tasks.
pub open spec fn fits(v: RoomView, n_subscribers: nat) -> bool {
    v.issues.len() < u64::MAX && v.queue.next_task_id + n_subscribers <= u64::MAX
}

pub open spec fn new_issue(issue_id: u64, c: ContentView) -> IssueView {
    IssueView {
        issue_id,
        title: c.title,
        html_content: c.html_content,
        text_content: c.text_content,
    }
}

/// The issue and its fan-out, added where the ledger is `ledger`.
pub open spec fn with_issue(
    v: RoomView,
    ledger: Seq<EntryView>,
    c: ContentView,
    subs: Seq<Option<Seq<char>>>,
    now: u64,
) -> RoomView {
    RoomView {
        ledger,
        issues: v.issues.push(new_issue(v.issues.len() as u64, c)),
        queue: enqueue_all(v.queue, v.issues.len() as u64, valid_recipients(subs), now),
    }
}

/// The store after completing the reservation of (user, key).
pub open spec fn commit_spec(
    v: RoomView,
    user_id: u128,
    key: Seq<char>,
    c: ContentView,
    subs: Seq<Option<Seq<char>>>,
    now: u64,
) -> RoomView {
    let idx = entry_index(v.ledger, user_id, key);
    with_issue(v, v.ledger.update(idx, saved_entry(v.ledger[idx], published_response())), c, subs, now)
}

/// One submission of the publish command with a well-formed key: the store
/// after it, and the response or the error.
pub open spec fn publish_spec(
    v: RoomView,
    user_id: u128,
    key: Seq<char>,
    c: ContentView,
    subs: Seq<Option<Seq<char>>>,
    now: u64,
) -> (RoomView, Result<ResponseView, CommandError>) {
    match key_state(v.ledger, user_id, key) {
        KeyState::Saved(resp) => (v, Ok(resp)),
        KeyState::InFlight => (v, Err(CommandError::InFlight)),
        KeyState::Absent => if fits(v, subs.len()) {
            (
                with_issue(
                    v,
                    v.ledger.push(saved_entry(placeholder(user_id, key, now), published_response())),
                    c,
                    subs,
                    now,
                ),
                Ok(published_response()),
            )
        } else {
            (v, Err(CommandError::Storage(StoreError::IdSpaceExhausted)))
        },
    }
}

pub open spec fn response_result(r: Result<SavedResponse, CommandError>) -> Result<ResponseView, CommandError> {
    match r {
        Ok(resp) => Ok(resp@),
        Err(e) => Err(e),
    }
}

impl Newsroom {
    pub open spec fn wf(&self) -> bool {
        room_wf(self@)
    }

    /// An empty store.
    pub fn new() -> (r: Newsroom)
        ensures
            r.wf(),
            r@.ledger == Seq::<EntryView>::empty(),
            r@.issues == Seq::<IssueView>::empty(),
            r@.queue.tasks == Seq::<TaskView>::empty(),
    {
        let r = Newsroom {
            ledger: IdempotencyLedger::new(),
            issues: Vec::new(),
            queue: DeliveryQueue::new(),
        };
        assert(r@.issues =~= Seq::<IssueView>::empty());
        r
    }

    /// The delivery queue.
    pub fn queue(&self) -> (r: &DeliveryQueue)
        ensures
            r@ == self@.queue,
    {
        &self.queue
    }

    /// The ledger.
    pub fn ledger(&self) -> (r: &IdempotencyLedger)
        ensures
            r@ == self@.ledger,
    {
        &self.ledger
    }

    /// The number of issues published.
    pub fn issue_count(&self) -> (r: usize)
        ensures
            r == self@.issues.len(),
    {
        self.issues.len()
    }

    /// The issue at position `i`.
    pub fn issue(&self, i: usize) -> (r: &NewsletterIssue)
        requires
            i < self@.issues.len(),
        ensures
            r@ == self@.issues[i as int],
    {
        &self.issues[i]
    }

    /// Adds the issue and one task per parsed address; the ledger is left
    /// to the caller.
    fn add_issue(
        &mut self,
        form: &NewsletterFormData,
        subscribers: &Vec<Result<SubscriberEmail, String>>,
        now: u64,
    )
        requires
            old(self).wf(),
            fits(old(self)@, subscribers@.len()),
        ensures
            final(self)@ == with_issue(
                old(self)@,
                old(self)@.ledger,
                form_content(*form),
                subscribers_view(subscribers@),
                now,
            ),
            final(self).wf(),
    {
        let issue_id = self.issues.len() as u64;
        let issue = NewsletterIssue {
            issue_id,
            title: form.title.clone(),
            html_content: form.html_content.clone(),
            text_content: form.text_content.clone(),
        };
        let ghost v0 = self@;
        self.issues.push(issue);
        assert(self@.issues =~= v0.issues.push(new_issue(issue_id, form_content(*form))));
        let ghost subs = subscribers_view(subscribers@);
        let mut i: usize = 0;
        while i < subscribers.len()
            invariant
                i <= subscribers@.len(),
                subs == subscribers_view(subscribers@),
                issue_id == v0.issues.len(),
                self@.ledger == v0.ledger,
                self@.issues == v0.issues.push(new_issue(issue_id, form_content(*form))),
                self@.queue == enqueue_all(v0.queue, issue_id, valid_recipients(subs.take(i as int)), now),
                self.queue.wf(),
                self@.queue.next_task_id <= v0.queue.next_task_id + i,
                v0.queue.next_task_id + subscribers@.len() <= u64::MAX,
                forall|j: int|
                    0 <= j < self@.queue.tasks.len() ==> (#[trigger] self@.queue.tasks[j]).issue_id
                        < self@.issues.len(),
            decreases subscribers@.len() - i,
        {
            let ghost prev = valid_recipients(subs.take(i as int));
            assert(subs.take(i as int + 1).drop_last() =~= subs.take(i as int));
            assert(subs.take(i as int + 1).last() == subs[i as int]);
            match &subscribers[i] {
                Ok(email) => {
                    assert(subs[i as int] == Some(email@));
                    assert(valid_recipients(subs.take(i as int + 1)) == prev.push(email@));
                    assert(prev.push(email@).drop_last() =~= prev);
                    let ghost q = self@.queue;
                    self.queue.enqueue(issue_id, email.as_str().to_string(), now);
                    assert forall|j: int|
                        0 <= j < self@.queue.tasks.len() implies (#[trigger] self@.queue.tasks[j]).issue_id
                            < self@.issues.len() by {
                        if j < q.tasks.len() {
                            assert(self@.queue.tasks[j] == q.tasks[j]);
                        }
                    }
                },
                Err(_) => {
                    assert(subs[i as int] is None);
                    assert(valid_recipients(subs.take(i as int + 1)) == prev);
                },
            }
            i = i + 1;
        }
        assert(subs.take(subscribers@.len() as int) =~= subs);
    }
    /// Consults the ledger for (user, key): reserves it when free, replays
    /// the saved response when an earlier submission completed, refuses
    /// while one is in flight. Issues and queue are untouched.
    pub fn begin(&mut self, user_id: u128, key: &IdempotencyKey, now: u64) -> (r: Result<NextAction, LedgerError>)
        requires
            old(self).wf(),
        ensures
            final(self).wf(),
            final(self)@.issues == old(self)@.issues,
            final(self)@.queue == old(self)@.queue,
            match key_state(old(self)@.ledger, user_id, key@) {
                KeyState::Absent => r matches Ok(NextAction::StartProcessing)
                    && final(self)@.ledger == old(self)@.ledger.push(placeholder(user_id, key@, now)),
                KeyState::InFlight => r == Err::<NextAction, LedgerError>(LedgerError::InFlight)
                    && final(self)@.ledger == old(self)@.ledger,
                KeyState::Saved(v) => r matches Ok(NextAction::ReturnSaved(resp)) && resp@ == v
                    && final(self)@.ledger == old(self)@.ledger,
            },
    {
        self.ledger.begin_or_replay(user_id, key, now)
    }

    /// Rolls back the reservation of (user, key) while it is in flight.
    pub fn abort(&mut self, user_id: u128, key: &IdempotencyKey) -> (r: Result<(), LedgerError>)
        requires
            old(self).wf(),
        ensures
            final(self).wf(),
            final(self)@.issues == old(self)@.issues,
            final(self)@.queue == old(self)@.queue,
            match key_state(old(self)@.ledger, user_id, key@) {
                KeyState::InFlight => r is Ok && final(self)@.ledger == old(self)@.ledger.remove(
                    entry_index(old(self)@.ledger, user_id, key@),
                ),
                _ => r == Err::<(), LedgerError>(LedgerError::NotReserved) && final(self)@.ledger
                    == old(self)@.ledger,
            },
    {
        self.ledger.release(user_id, key)
    }

    /// Completes the reservation of (user, key) in one step: stores the
    /// issue, enqueues one task per parsed address and saves the response to
    /// replay. Where the identifiers would run out, the reservation is rolled
    /// back instead and nothing else changes.
    pub fn commit_publish(
        &mut self,
        user_id: u128,
        key: &IdempotencyKey,
        form: &NewsletterFormData,
        subscribers: &Vec<Result<SubscriberEmail, String>>,
        now: u64,
    ) -> (r: Result<SavedResponse, CommandError>)
        requires
            old(self).wf(),
        ensures
            final(self).wf(),
            !(key_state(old(self)@.ledger, user_id, key@) is InFlight) ==> r
                == Err::<SavedResponse, CommandError>(CommandError::NotReserved) && final(self)@
                == old(self)@,
            key_state(old(self)@.ledger, user_id, key@) is InFlight && !fits(old(self)@, subscribers@.len())
                ==> r == Err::<SavedResponse, CommandError>(CommandError::Storage(StoreError::IdSpaceExhausted))
                && final(self)@ == (RoomView {
                ledger: old(self)@.ledger.remove(entry_index(old(self)@.ledger, user_id, key@)),
                ..old(self)@
            }),
            key_state(old(self)@.ledger, user_id, key@) is InFlight && fits(old(self)@, subscribers@.len())
                ==> (r matches Ok(resp) && resp@ == published_response()) && final(self)@ == commit_spec(
                old(self)@,
                user_id,
                key@,
                form_content(*form),
                subscribers_view(subscribers@),
                now,
            ),
    {
        match self.ledger.state_of(user_id, key) {
            Some(None) => {},
            _ => {
                return Err(CommandError::NotReserved);
            },
        }
        let n = subscribers.len() as u64;
        if self.issues.len() as u64 == u64::MAX || self.queue.next_task_id() > u64::MAX - n {
            let _ = self.ledger.release(user_id, key);
            return Err(CommandError::Storage(StoreError::IdSpaceExhausted));
        }
        self.add_issue(form, subscribers, now);
        let response = see_other_newsletter();
        let replay = response.duplicate();
        let _ = self.ledger.save_response(user_id, key, replay);
        Ok(response)
    }

    /// The publish command: validates the key, then either replays the
    /// saved response of an earlier submission with the same (user, key), or
    /// reserves the key and commits the issue, its fan-out and the response
    /// together.
    pub fn publish_newsletter(
        &mut self,
        user_id: u128,
        form: &NewsletterFormData,
        subscribers: &Vec<Result<SubscriberEmail, String>>,
        now: u64,
    ) -> (r: Result<SavedResponse, CommandError>)
        requires
            old(self).wf(),
        ensures
            final(self).wf(),
            key_error(form.idempotency_key@) matches Some(e) ==> r == Err::<SavedResponse, CommandError>(
                CommandError::InvalidKey(e),
            ) && final(self)@ == old(self)@,
            key_error(form.idempotency_key@) is None ==> (final(self)@, response_result(r)) == publish_spec(
                old(self)@,
                user_id,
                form.idempotency_key@,
                form_content(*form),
                subscribers_view(subscribers@),
                now,
            ),
    {
        let key = match IdempotencyKey::parse(form.idempotency_key.clone()) {
            Ok(k) => k,
            Err(e) => {
                return Err(CommandError::InvalidKey(e));
            },
        };
        let ghost v0 = self@;
        match self.begin(user_id, &key, now) {
            Err(_) => Err(CommandError::InFlight),
            Ok(NextAction::ReturnSaved(resp)) => Ok(resp),
            Ok(NextAction::StartProcessing) => {
                proof {
                    lemma_entry_at(self@.ledger, user_id, key@, v0.ledger.len() as int);
                }
                let r = self.commit_publish(user_id, &key, form, subscribers, now);
                proof {
                    let p = placeholder(user_id, key@, now);
                    let saved = saved_entry(p, published_response());
                    assert(v0.ledger.push(p).update(v0.ledger.len() as int, saved) =~= v0.ledger.push(saved));
                    assert(v0.ledger.push(p).remove(v0.ledger.len() as int) =~= v0.ledger);
                }
                r
            },
        }
    }
    /// One worker step at `now`: claims the oldest claimable task under a
    /// fresh lease; a task whose stored address does not parse is retired on
    /// the spot.
    pub fn next_delivery(&mut self, now: u64) -> (r: Result<Dispatch, StoreError>)
        requires
            old(self).wf(),
        ensures
            final(self).wf(),
            final(self)@.ledger == old(self)@.ledger,
            final(self)@.issues == old(self)@.issues,
            !has_claimable(old(self)@.queue.tasks, now) ==> (r matches Ok(Dispatch::EmptyQueue)
                && final(self)@.queue == old(self)@.queue),
            has_claimable(old(self)@.queue.tasks, now) && old(self)@.queue.next_token == u64::MAX ==> r
                == Err::<Dispatch, StoreError>(StoreError::IdSpaceExhausted) && final(self)@.queue
                == old(self)@.queue,
            has_claimable(old(self)@.queue.tasks, now) && old(self)@.queue.next_token < u64::MAX ==> {
                let q = old(self)@.queue;
                let t = q.tasks[first_claimable(q.tasks, now)];
                let issue = old(self)@.issues[t.issue_id as int];
                if email_is_valid(t.recipient) {
                    &&& final(self)@.queue == claim_spec(q, now)
                    &&& r matches Ok(Dispatch::Deliver(d)) && d.token == q.next_token && d.task_id
                        == t.task_id && d.issue_id == t.issue_id && d.recipient@ == t.recipient
                        && d.title@ == issue.title && d.html_content@ == issue.html_content
                        && d.text_content@ == issue.text_content
                } else {
                    &&& final(self)@.queue == settle_spec(
                        claim_spec(q, now),
                        q.next_token,
                        Attempt::InvalidRecipient,
                        now,
                    )
                    &&& r matches Ok(Dispatch::Skipped(id)) && id == t.task_id
                }
            },
    {
        let ghost v0 = self@;
        let claim = match self.queue.claim_next(now) {
            Err(e) => {
                return Err(e);
            },
            Ok(None) => {
                return Ok(Dispatch::EmptyQueue);
            },
            Ok(Some(c)) => c,
        };
        proof {
            crate::delivery::lemma_first_claimable(v0.queue.tasks, now);
            let i = first_claimable(v0.queue.tasks, now);
            assert(self@.queue.tasks[i].issue_id == v0.queue.tasks[i].issue_id);
            assert(crate::delivery::leased_by(self@.queue.tasks[i], claim.token));
            crate::delivery::lemma_lease_at(self@.queue, claim.token, i);
            assert forall|j: int|
                0 <= j < self@.queue.tasks.len() implies (#[trigger] self@.queue.tasks[j]).issue_id
                    < self@.issues.len() by {
                assert(self@.queue.tasks[j].issue_id == v0.queue.tasks[j].issue_id);
            }
        }
        match SubscriberEmail::parse(claim.recipient) {
            Err(_) => {
                let _ = self.queue.settle(claim.token, Attempt::InvalidRecipient, now);
                proof {
                    let q1 = claim_spec(v0.queue, now);
                    let s = self@.queue.tasks;
                    assert forall|j: int|
                        0 <= j < s.len() implies (#[trigger] s[j]).issue_id < self@.issues.len() by {
                        let k = first_claimable(v0.queue.tasks, now);
                        let o = if j < k { j } else { j + 1 };
                        assert(s[j] == q1.tasks[o]);
                    }
                }
                Ok(Dispatch::Skipped(claim.task_id))
            },
            Ok(recipient) => {
                proof {
                    let i = first_claimable(v0.queue.tasks, now);
                    assert(v0.queue.tasks[i].issue_id < v0.issues.len());
                    assert(claim.issue_id < self.issues@.len());
                }
                let n_issues = self.issues.len();
                assert(claim.issue_id < n_issues);
                let idx = claim.issue_id as usize;
                let issue = &self.issues[idx];
                assert(issue@ == v0.issues[idx as int]);
                Ok(
                    Dispatch::Deliver(
                        Delivery {
                            token: claim.token,
                            task_id: claim.task_id,
                            issue_id: claim.issue_id,
                            recipient,
                            title: issue.title.clone(),
                            html_content: issue.html_content.clone(),
                            text_content: issue.text_content.clone(),
                        },
                    ),
                )
            },
        }
    }

    /// Reports the send attempt of the task held under `token`: a
    /// successful send retires it; a failed one re-queues it with backoff
    /// until the attempts run out.
    pub fn complete_delivery(&mut self, token: u64, sent: bool, now: u64) -> (r: Result<Disposition, StoreError>)
        requires
            old(self).wf(),
        ensures
            final(self).wf(),
            final(self)@.ledger == old(self)@.ledger,
            final(self)@.issues == old(self)@.issues,
            !crate::delivery::has_lease(old(self)@.queue.tasks, token) ==> r == Err::<Disposition, StoreError>(
                StoreError::ClaimLost,
            ) && final(self)@.queue == old(self)@.queue,
            crate::delivery::has_lease(old(self)@.queue.tasks, token) ==> {
                let attempt = if sent {
                    Attempt::Delivered
                } else {
                    Attempt::TransientFailure
                };
                let t = old(self)@.queue.tasks[crate::delivery::lease_index(old(self)@.queue.tasks, token)];
                &&& final(self)@.queue == settle_spec(old(self)@.queue, token, attempt, now)
                &&& r == Ok::<Disposition, StoreError>(
                    if crate::delivery::retries(t, attempt) {
                        Disposition::Requeued
                    } else {
                        Disposition::Retired
                    },
                )
            },
    {
        let attempt = if sent {
            Attempt::Delivered
        } else {
            Attempt::TransientFailure
        };
        let ghost v0 = self@;
        let r = self.queue.settle(token, attempt, now);
        proof {
            if crate::delivery::has_lease(v0.queue.tasks, token) {
                let k = crate::delivery::lease_index(v0.queue.tasks, token);
                let s = self@.queue.tasks;
                assert forall|j: int|
                    0 <= j < s.len() implies (#[trigger] s[j]).issue_id < self@.issues.len() by {
                    if crate::delivery::retries(v0.queue.tasks[k], attempt) {
                        assert(s[j].issue_id == v0.queue.tasks[j].issue_id);
                    } else {
                        let o = if j < k { j } else { j + 1 };
                        assert(s[j] == v0.queue.tasks[o]);
                    }
                }
            }
        }
        r
    }
}

} // verus!

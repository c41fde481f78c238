//! What holds across several calls: exactly-once publishing under
//! resubmission and under concurrent duplicates, the size of the fan-out,
//! and how the worker drains the queue.
use vstd::prelude::*;
use crate::delivery::{
    claim_spec, claimable, enqueue_all, first_claimable, has_claimable, has_lease, has_task_for,
    is_task_for, lease_index, leased_by, lemma_first_claimable, lemma_first_claimable_unique,
    new_task, queue_wf, requeued, settle_spec, Attempt, QueueView, TaskView, MAX_ATTEMPTS,
};
use crate::email::email_is_valid;
use crate::idempotency::{
    entry_index, has_entry, is_entry_for, key_state, lemma_entry_at, placeholder, saved_entry,
    unique_keys, EntryView, KeyState,
};
use crate::newsroom::{
    commit_spec, fits, publish_spec, room_wf, valid_recipients, ContentView, RoomView,
};
use crate::response::published_response;

verus! {

/// A row for a key that had none keeps the rows unique and is the row found
/// for that key.
pub proof fn lemma_push_entry(s: Seq<EntryView>, e: EntryView)
    requires
        unique_keys(s),
        !has_entry(s, e.user_id, e.key),
    ensures
        unique_keys(s.push(e)),
        has_entry(s.push(e), e.user_id, e.key),
        entry_index(s.push(e), e.user_id, e.key) == s.len(),
{
    let t = s.push(e);
    assert forall|i: int, j: int|
        0 <= i < t.len() && 0 <= j < t.len() && #[trigger] t[i].user_id == #[trigger] t[j].user_id
            && t[i].key == t[j].key implies i == j by {
        if i < s.len() && j == s.len() {
            assert(is_entry_for(s[i], e.user_id, e.key));
        } else if j < s.len() && i == s.len() {
            assert(is_entry_for(s[j], e.user_id, e.key));
        } else if i < s.len() && j < s.len() {
            assert(s[i] == t[i] && s[j] == t[j]);
        }
    }
    lemma_entry_at(t, e.user_id, e.key, s.len() as int);
}

/// Submitting the same (user, key) a second time, after the first
/// submission was accepted, changes nothing and returns the first response
/// byte for byte: one issue and one fan-out in all.
pub proof fn lemma_resubmission_replays(
    v: RoomView,
    user_id: u128,
    key: Seq<char>,
    c: ContentView,
    subs: Seq<Option<Seq<char>>>,
    now: u64,
    c2: ContentView,
    subs2: Seq<Option<Seq<char>>>,
    now2: u64,
)
    requires
        room_wf(v),
        key_state(v.ledger, user_id, key) is Absent,
        fits(v, subs.len()),
    ensures
        publish_spec(v, user_id, key, c, subs, now).1 == Ok::<_, crate::newsroom::CommandError>(
            published_response(),
        ),
        publish_spec(v, user_id, key, c, subs, now).0.issues.len() == v.issues.len() + 1,
        publish_spec(publish_spec(v, user_id, key, c, subs, now).0, user_id, key, c2, subs2, now2)
            == publish_spec(v, user_id, key, c, subs, now),
{
    let e = saved_entry(placeholder(user_id, key, now), published_response());
    lemma_push_entry(v.ledger, e);
}

/// Two concurrent submissions of one (user, key): once the first has
/// reserved the key, the second is told to wait and nothing changes; once
/// the first commits, the second receives the very response of the first,
/// and the store holds the one fan-out that a single submission makes. If
/// the first rolls back instead, the key is free again.
pub proof fn lemma_concurrent_duplicate(
    v: RoomView,
    user_id: u128,
    key: Seq<char>,
    c: ContentView,
    subs: Seq<Option<Seq<char>>>,
    now: u64,
)
    requires
        room_wf(v),
        key_state(v.ledger, user_id, key) is Absent,
        fits(v, subs.len()),
    ensures
        ({
            let reserved = RoomView { ledger: v.ledger.push(placeholder(user_id, key, now)), ..v };
            let committed = commit_spec(reserved, user_id, key, c, subs, now);
            &&& key_state(reserved.ledger, user_id, key) is InFlight
            &&& key_state(committed.ledger, user_id, key) == KeyState::Saved(published_response())
            &&& committed == publish_spec(v, user_id, key, c, subs, now).0
            &&& key_state(
                reserved.ledger.remove(entry_index(reserved.ledger, user_id, key)),
                user_id,
                key,
            ) is Absent
        }),
{
    let p = placeholder(user_id, key, now);
    let reserved = RoomView { ledger: v.ledger.push(p), ..v };
    lemma_push_entry(v.ledger, p);
    let e = saved_entry(p, published_response());
    lemma_push_entry(v.ledger, e);
    assert(v.ledger.push(p).update(v.ledger.len() as int, e) =~= v.ledger.push(e));
    assert(v.ledger.push(p).remove(v.ledger.len() as int) =~= v.ledger);
}

/// The tasks that a fan-out of `rs` appends, numbered from the queue's next
/// task id.
pub open spec fn fresh_tasks(q: QueueView, issue_id: u64, rs: Seq<Seq<char>>, now: u64) -> Seq<TaskView> {
    Seq::new(rs.len(), |k: int| new_task((q.next_task_id + k) as u64, issue_id, rs[k], now))
}

pub open spec fn no_duplicates(rs: Seq<Seq<char>>) -> bool {
    forall|i: int, j: int| 0 <= i < rs.len() && 0 <= j < rs.len() && i != j ==> rs[i] != rs[j]
}

/// Different subscribers hold different addresses.
pub open spec fn distinct_addresses(subs: Seq<Option<Seq<char>>>) -> bool {
    forall|i: int, j: int|
        0 <= i < subs.len() && 0 <= j < subs.len() && i != j && subs[i] is Some && subs[j] is Some
            ==> subs[i] != subs[j]
}

/// For a new issue and distinct recipients, the fan-out appends exactly one
/// fresh task per recipient, in order.
pub proof fn lemma_fan_out(q: QueueView, issue_id: u64, rs: Seq<Seq<char>>, now: u64)
    requires
        forall|i: int| 0 <= i < q.tasks.len() ==> (#[trigger] q.tasks[i]).issue_id != issue_id,
        no_duplicates(rs),
        q.next_task_id + rs.len() <= u64::MAX,
    ensures
        enqueue_all(q, issue_id, rs, now).tasks == q.tasks + fresh_tasks(q, issue_id, rs, now),
        enqueue_all(q, issue_id, rs, now).next_task_id == q.next_task_id + rs.len(),
        enqueue_all(q, issue_id, rs, now).next_token == q.next_token,
    decreases rs.len(),
{
    if rs.len() == 0 {
        assert(q.tasks + fresh_tasks(q, issue_id, rs, now) =~= q.tasks);
    } else {
        let front = rs.drop_last();
        assert forall|i: int, j: int| 0 <= i < front.len() && 0 <= j < front.len() && i != j implies front[i]
            != front[j] by {
            assert(front[i] == rs[i] && front[j] == rs[j]);
        }
        lemma_fan_out(q, issue_id, front, now);
        let q1 = enqueue_all(q, issue_id, front, now);
        let fresh = fresh_tasks(q, issue_id, front, now);
        assert(!has_task_for(q1.tasks, issue_id, rs.last())) by {
            assert forall|i: int| 0 <= i < q1.tasks.len() implies !is_task_for(
                #[trigger] q1.tasks[i],
                issue_id,
                rs.last(),
            ) by {
                if i < q.tasks.len() {
                    assert(q1.tasks[i] == q.tasks[i]);
                } else {
                    let k = i - q.tasks.len();
                    assert(q1.tasks[i] == fresh[k]);
                    assert(fresh[k].recipient == rs[k]);
                    assert(rs[k] != rs[rs.len() - 1]);
                }
            }
        }
        assert(q1.tasks.push(new_task(q1.next_task_id, issue_id, rs.last(), now)) =~= q.tasks
            + fresh_tasks(q, issue_id, rs, now));
    }
}

proof fn lemma_valid_recipients_sources(subs: Seq<Option<Seq<char>>>)
    ensures
        forall|a: int|
            #![trigger valid_recipients(subs)[a]]
            0 <= a < valid_recipients(subs).len() ==> exists|i: int|
                0 <= i < subs.len() && #[trigger] subs[i] == Some(valid_recipients(subs)[a]),
    decreases subs.len(),
{
    if subs.len() > 0 {
        let front = subs.drop_last();
        lemma_valid_recipients_sources(front);
        let vr = valid_recipients(subs);
        assert forall|a: int| #![trigger vr[a]] 0 <= a < vr.len() implies exists|i: int|
            0 <= i < subs.len() && #[trigger] subs[i] == Some(vr[a]) by {
            if a < valid_recipients(front).len() {
                let i = choose|i: int| 0 <= i < front.len() && #[trigger] front[i] == Some(valid_recipients(front)[a]);
                assert(subs[i] == front[i]);
            } else {
                assert(subs[subs.len() - 1] == Some(vr[a]));
            }
        }
    }
}

/// Distinct addresses give distinct recipients.
pub proof fn lemma_valid_recipients_distinct(subs: Seq<Option<Seq<char>>>)
    requires
        distinct_addresses(subs),
    ensures
        no_duplicates(valid_recipients(subs)),
    decreases subs.len(),
{
    if subs.len() > 0 {
        let front = subs.drop_last();
        assert forall|i: int, j: int|
            0 <= i < front.len() && 0 <= j < front.len() && i != j && front[i] is Some && front[j] is Some
                implies front[i] != front[j] by {
            assert(front[i] == subs[i] && front[j] == subs[j]);
        }
        lemma_valid_recipients_distinct(front);
        lemma_valid_recipients_sources(front);
        let vf = valid_recipients(front);
        let vr = valid_recipients(subs);
        if subs.last() is Some {
            let n = (subs.len() - 1) as int;
            assert forall|i: int, j: int| 0 <= i < vr.len() && 0 <= j < vr.len() && i != j implies vr[i]
                != vr[j] by {
                if i < vf.len() && j < vf.len() {
                } else if i < vf.len() {
                    let k = choose|k: int| 0 <= k < front.len() && #[trigger] front[k] == Some(vf[i]);
                    assert(subs[k] == front[k]);
                    assert(subs[k] != subs[n]);
                } else if j < vf.len() {
                    let k = choose|k: int| 0 <= k < front.len() && #[trigger] front[k] == Some(vf[j]);
                    assert(subs[k] == front[k]);
                    assert(subs[k] != subs[n]);
                }
            }
        }
    }
}

proof fn lemma_valid_recipients_all(subs: Seq<Option<Seq<char>>>)
    requires
        forall|j: int| 0 <= j < subs.len() ==> (#[trigger] subs[j]) is Some,
    ensures
        valid_recipients(subs).len() == subs.len(),
    decreases subs.len(),
{
    if subs.len() > 0 {
        let front = subs.drop_last();
        assert forall|j: int| 0 <= j < front.len() implies (#[trigger] front[j]) is Some by {
            assert(front[j] == subs[j]);
        }
        lemma_valid_recipients_all(front);
        assert(subs[subs.len() - 1] is Some);
    }
}

proof fn lemma_valid_recipients_one_missing(subs: Seq<Option<Seq<char>>>, k: int)
    requires
        0 <= k < subs.len(),
        subs[k] is None,
        forall|j: int| 0 <= j < subs.len() && j != k ==> (#[trigger] subs[j]) is Some,
    ensures
        valid_recipients(subs).len() == subs.len() - 1,
    decreases subs.len(),
{
    let front = subs.drop_last();
    if k == subs.len() - 1 {
        assert forall|j: int| 0 <= j < front.len() implies (#[trigger] front[j]) is Some by {
            assert(front[j] == subs[j]);
        }
        lemma_valid_recipients_all(front);
    } else {
        assert forall|j: int| 0 <= j < front.len() && j != k implies (#[trigger] front[j]) is Some by {
            assert(front[j] == subs[j]);
        }
        assert(front[k] == subs[k]);
        lemma_valid_recipients_one_missing(front, k);
        assert(subs[subs.len() - 1] is Some);
    }
}

/// An accepted submission with distinct subscriber addresses enqueues
/// exactly one task per address that parsed, for the new issue, and no
/// other task.
pub proof fn lemma_publish_fan_out(
    v: RoomView,
    user_id: u128,
    key: Seq<char>,
    c: ContentView,
    subs: Seq<Option<Seq<char>>>,
    now: u64,
)
    requires
        room_wf(v),
        key_state(v.ledger, user_id, key) is Absent,
        fits(v, subs.len()),
        distinct_addresses(subs),
    ensures
        publish_spec(v, user_id, key, c, subs, now).0.queue.tasks == v.queue.tasks + fresh_tasks(
            v.queue,
            v.issues.len() as u64,
            valid_recipients(subs),
            now,
        ),
{
    lemma_valid_recipients_distinct(subs);
    lemma_valid_recipients_len_bound(subs);
    lemma_fan_out(v.queue, v.issues.len() as u64, valid_recipients(subs), now);
}

proof fn lemma_valid_recipients_len_bound(subs: Seq<Option<Seq<char>>>)
    ensures
        valid_recipients(subs).len() <= subs.len(),
    decreases subs.len(),
{
    if subs.len() > 0 {
        lemma_valid_recipients_len_bound(subs.drop_last());
    }
}

/// Of N subscribers with distinct addresses, one of which does not parse,
/// an accepted submission succeeds and enqueues exactly N - 1 tasks.
pub proof fn lemma_one_unparseable_subscriber(
    v: RoomView,
    user_id: u128,
    key: Seq<char>,
    c: ContentView,
    subs: Seq<Option<Seq<char>>>,
    now: u64,
    k: int,
)
    requires
        room_wf(v),
        key_state(v.ledger, user_id, key) is Absent,
        fits(v, subs.len()),
        distinct_addresses(subs),
        0 <= k < subs.len(),
        subs[k] is None,
        forall|j: int| 0 <= j < subs.len() && j != k ==> (#[trigger] subs[j]) is Some,
    ensures
        publish_spec(v, user_id, key, c, subs, now).1 is Ok,
        publish_spec(v, user_id, key, c, subs, now).0.queue.tasks.len() == v.queue.tasks.len() + subs.len()
            - 1,
{
    lemma_publish_fan_out(v, user_id, key, c, subs, now);
    lemma_valid_recipients_one_missing(subs, k);
}

/// One worker step at `now` in which every send succeeds: the queue after it
/// and the e-mail sent, if the claimed task's address parsed.
pub open spec fn worker_step(q: QueueView, now: u64) -> (QueueView, Option<(u64, Seq<char>)>) {
    let t = q.tasks[first_claimable(q.tasks, now)];
    let claimed = claim_spec(q, now);
    if email_is_valid(t.recipient) {
        (settle_spec(claimed, q.next_token, Attempt::Delivered, now), Some((t.issue_id, t.recipient)))
    } else {
        (settle_spec(claimed, q.next_token, Attempt::InvalidRecipient, now), None)
    }
}

/// Up to `steps` worker steps at `now`, stopping at the first empty poll:
/// the e-mails sent, in order, and the queue left behind.
pub open spec fn drain(q: QueueView, now: u64, steps: nat) -> (Seq<(u64, Seq<char>)>, QueueView)
    decreases steps,
{
    if steps == 0 || !has_claimable(q.tasks, now) || q.next_token == u64::MAX {
        (Seq::empty(), q)
    } else {
        let (next, sent) = worker_step(q, now);
        let (rest, left) = drain(next, now, (steps - 1) as nat);
        (
            match sent {
                Some(x) => seq![x] + rest,
                None => rest,
            },
            left,
        )
    }
}

/// The (issue, recipient) of each task whose address parses, in order.
pub open spec fn deliverable(ts: Seq<TaskView>) -> Seq<(u64, Seq<char>)>
    decreases ts.len(),
{
    if ts.len() == 0 {
        Seq::empty()
    } else {
        let head: Seq<(u64, Seq<char>)> = if email_is_valid(ts[0].recipient) {
            seq![(ts[0].issue_id, ts[0].recipient)]
        } else {
            Seq::empty()
        };
        head + deliverable(ts.drop_first())
    }
}

/// No task is leased or waiting out a backoff at `now`.
pub open spec fn all_ready(ts: Seq<TaskView>, now: u64) -> bool {
    forall|i: int| 0 <= i < ts.len() ==> (#[trigger] ts[i]).lease is None && ts[i].available_at <= now
}

/// Draining a queue whose tasks are all ready, one step per task, sends
/// exactly one e-mail per task whose address parses, in queue order, and
/// leaves no pending task, so that the next poll finds the queue empty.
pub proof fn lemma_drain(q: QueueView, now: u64)
    requires
        all_ready(q.tasks, now),
        q.next_token + q.tasks.len() <= u64::MAX,
    ensures
        drain(q, now, q.tasks.len()).0 == deliverable(q.tasks),
        drain(q, now, q.tasks.len()).1.tasks.len() == 0,
        !has_claimable(drain(q, now, q.tasks.len()).1.tasks, now),
    decreases q.tasks.len(),
{
    if q.tasks.len() > 0 {
        assert(claimable(q.tasks[0], now));
        assert(crate::delivery::is_first_claimable(q.tasks, now, 0));
        lemma_first_claimable_unique(q.tasks, now, 0);
        let token = q.next_token;
        let claimed = claim_spec(q, now);
        assert(leased_by(claimed.tasks[0], token));
        assert(has_lease(claimed.tasks, token));
        let k = lease_index(claimed.tasks, token);
        assert(k == 0) by {
            if k != 0 {
                assert(claimed.tasks[k] == q.tasks[k]);
            }
        }
        let next = worker_step(q, now).0;
        assert(next.tasks =~= q.tasks.drop_first());
        assert(all_ready(next.tasks, now)) by {
            assert forall|i: int| 0 <= i < next.tasks.len() implies (#[trigger] next.tasks[i]).lease is None
                && next.tasks[i].available_at <= now by {
                assert(next.tasks[i] == q.tasks[i + 1]);
            }
        }
        lemma_drain(next, now);
        assert(q.tasks.drop_first().len() == (q.tasks.len() - 1) as nat);
    } else {
        assert(!has_claimable(q.tasks, now));
    }
}

/// The task just claimed is the one found under the new token.
pub proof fn lemma_claimed_lease(q: QueueView, now: u64)
    requires
        queue_wf(q),
        has_claimable(q.tasks, now),
        q.next_token < u64::MAX,
    ensures
        crate::delivery::is_first_claimable(q.tasks, now, first_claimable(q.tasks, now)),
        has_lease(claim_spec(q, now).tasks, q.next_token),
        lease_index(claim_spec(q, now).tasks, q.next_token) == first_claimable(q.tasks, now),
{
    lemma_first_claimable(q.tasks, now);
    let i = first_claimable(q.tasks, now);
    let claimed = claim_spec(q, now);
    assert(leased_by(claimed.tasks[i], q.next_token));
    assert(has_lease(claimed.tasks, q.next_token));
    let k = lease_index(claimed.tasks, q.next_token);
    if k != i {
        assert(claimed.tasks[k] == q.tasks[k]);
    }
}

/// A transient failure on an attempt that leaves attempts to spare keeps
/// the task, in place and alone for its (issue, recipient), with one more
/// attempt counted, no lease, and a backoff before it can be claimed again.
pub proof fn lemma_transient_failure_requeues(q: QueueView, now: u64)
    requires
        queue_wf(q),
        has_claimable(q.tasks, now),
        q.next_token < u64::MAX,
        q.tasks[first_claimable(q.tasks, now)].attempts + 1 < MAX_ATTEMPTS,
    ensures
        ({
            let i = first_claimable(q.tasks, now);
            let t = q.tasks[i];
            let after = settle_spec(claim_spec(q, now), q.next_token, Attempt::TransientFailure, now);
            &&& after.tasks == q.tasks.update(i, requeued(t, now))
            &&& queue_wf(after)
            &&& forall|j: int|
                0 <= j < after.tasks.len() && is_task_for(#[trigger] after.tasks[j], t.issue_id, t.recipient)
                    ==> j == i
        }),
{
    lemma_claimed_lease(q, now);
    let i = first_claimable(q.tasks, now);
    let t = q.tasks[i];
    let after = settle_spec(claim_spec(q, now), q.next_token, Attempt::TransientFailure, now);
    assert(after.tasks =~= q.tasks.update(i, requeued(t, now)));
    assert forall|j: int|
        0 <= j < after.tasks.len() && is_task_for(#[trigger] after.tasks[j], t.issue_id, t.recipient)
            implies j == i by {
        if j != i {
            assert(after.tasks[j] == q.tasks[j]);
            assert(q.tasks[j].issue_id == q.tasks[i].issue_id);
        }
    }
    let s = after.tasks;
    assert forall|a: int, b: int|
        0 <= a < s.len() && 0 <= b < s.len() && (#[trigger] s[a]).lease is Some && (#[trigger] s[b]).lease is Some
            && s[a].lease->0.token == s[b].lease->0.token implies a == b by {
        assert(q.tasks[a] == s[a] && q.tasks[b] == s[b]);
    }
    assert forall|a: int, b: int|
        0 <= a < s.len() && 0 <= b < s.len() && #[trigger] s[a].task_id == #[trigger] s[b].task_id implies a
            == b by {
        assert(q.tasks[a].task_id == s[a].task_id && q.tasks[b].task_id == s[b].task_id);
    }
    assert forall|a: int, b: int|
        0 <= a < s.len() && 0 <= b < s.len() && #[trigger] s[a].issue_id == #[trigger] s[b].issue_id
            && s[a].recipient == s[b].recipient implies a == b by {
        assert(q.tasks[a].issue_id == s[a].issue_id && q.tasks[b].issue_id == s[b].issue_id);
        assert(q.tasks[a].recipient == s[a].recipient && q.tasks[b].recipient == s[b].recipient);
    }
    assert forall|a: int| 0 <= a < s.len() && (#[trigger] s[a]).lease is Some implies s[a].lease->0.token
        < after.next_token by {
        assert(q.tasks[a] == s[a]);
    }
    assert forall|a: int| 0 <= a < s.len() implies (#[trigger] s[a]).task_id < after.next_task_id
        && s[a].attempts < MAX_ATTEMPTS by {
        assert(q.tasks[a].task_id == s[a].task_id);
    }
}

/// A successful send retires the task, and with it the only task for its
/// (issue, recipient): no later step sends that issue to that recipient
/// again.
pub proof fn lemma_delivery_retires_pair(q: QueueView, now: u64)
    requires
        queue_wf(q),
        has_claimable(q.tasks, now),
        q.next_token < u64::MAX,
    ensures
        ({
            let i = first_claimable(q.tasks, now);
            let t = q.tasks[i];
            let after = settle_spec(claim_spec(q, now), q.next_token, Attempt::Delivered, now);
            &&& after.tasks == q.tasks.remove(i)
            &&& !has_task_for(after.tasks, t.issue_id, t.recipient)
        }),
{
    lemma_claimed_lease(q, now);
    let i = first_claimable(q.tasks, now);
    let t = q.tasks[i];
    let claimed = claim_spec(q, now);
    let after = settle_spec(claimed, q.next_token, Attempt::Delivered, now);
    assert(after.tasks =~= q.tasks.remove(i));
    assert forall|j: int| 0 <= j < after.tasks.len() implies !is_task_for(
        #[trigger] after.tasks[j],
        t.issue_id,
        t.recipient,
    ) by {
        let o = if j < i { j } else { j + 1 };
        assert(after.tasks[j] == q.tasks[o]);
        assert(o != i);
    }
}

/// Of tasks whose addresses all parse, every one is deliverable, in order.
proof fn lemma_deliverable_all(ts: Seq<TaskView>)
    requires
        forall|i: int| 0 <= i < ts.len() ==> email_is_valid((#[trigger] ts[i]).recipient),
    ensures
        deliverable(ts) == ts.map_values(|t: TaskView| (t.issue_id, t.recipient)),
    decreases ts.len(),
{
    if ts.len() > 0 {
        let rest = ts.drop_first();
        assert forall|i: int| 0 <= i < rest.len() implies email_is_valid((#[trigger] rest[i]).recipient) by {
            assert(rest[i] == ts[i + 1]);
        }
        lemma_deliverable_all(rest);
        assert(email_is_valid(ts[0].recipient));
        assert(deliverable(ts) =~= ts.map_values(|t: TaskView| (t.issue_id, t.recipient)));
    }
}

/// Publishing an issue to subscribers with distinct addresses, on a store
/// whose queue is empty, and then draining the queue one worker step per
/// task, sends the new issue exactly once to each subscriber whose address
/// parsed, in order, and leaves no pending task.
pub proof fn lemma_publish_then_drain(
    v: RoomView,
    user_id: u128,
    key: Seq<char>,
    c: ContentView,
    subs: Seq<Option<Seq<char>>>,
    now: u64,
    later: u64,
)
    requires
        room_wf(v),
        v.queue.tasks.len() == 0,
        key_state(v.ledger, user_id, key) is Absent,
        fits(v, subs.len()),
        v.queue.next_token + subs.len() <= u64::MAX,
        distinct_addresses(subs),
        forall|i: int| 0 <= i < subs.len() && (#[trigger] subs[i]) is Some ==> email_is_valid(subs[i]->0),
        now <= later,
    ensures
        ({
            let q = publish_spec(v, user_id, key, c, subs, now).0.queue;
            let rs = valid_recipients(subs);
            &&& drain(q, later, q.tasks.len()).0 == Seq::new(rs.len(), |k: int| (v.issues.len() as u64, rs[k]))
            &&& drain(q, later, q.tasks.len()).1.tasks.len() == 0
        }),
{
    let id = v.issues.len() as u64;
    let rs = valid_recipients(subs);
    lemma_publish_fan_out(v, user_id, key, c, subs, now);
    lemma_valid_recipients_len_bound(subs);
    lemma_valid_recipients_sources(subs);
    let q = publish_spec(v, user_id, key, c, subs, now).0.queue;
    let fresh = fresh_tasks(v.queue, id, rs, now);
    assert(q.tasks =~= fresh);
    lemma_valid_recipients_distinct(subs);
    lemma_fan_out(v.queue, id, rs, now);
    assert(all_ready(q.tasks, later));
    assert forall|i: int| 0 <= i < q.tasks.len() implies email_is_valid((#[trigger] q.tasks[i]).recipient) by {
        assert(q.tasks[i].recipient == rs[i]);
        let j = choose|j: int| 0 <= j < subs.len() && #[trigger] subs[j] == Some(rs[i]);
        assert(subs[j] is Some);
    }
    lemma_drain(q, later);
    lemma_deliverable_all(q.tasks);
    assert(q.tasks.map_values(|t: TaskView| (t.issue_id, t.recipient)) =~= Seq::new(
        rs.len(),
        |k: int| (id, rs[k]),
    ));
}

} // verus!

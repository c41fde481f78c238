//! The delivery queue: one pending task per (issue, recipient), claimed one
//! at a time under a lease, retired after a send or re-queued with
//! exponential backoff after a transient failure.
use vstd::prelude::*;

verus! {

/// A task is retired after this many failed attempts.
pub const MAX_ATTEMPTS: u32 = 5;

/// How long a claim holds a task before another worker may take it over.
pub const LEASE_SECS: u64 = 60;

/// Delay before the first retry; each further retry waits twice as long.
pub const BASE_BACKOFF_SECS: u64 = 30;

/// A worker's exclusive hold on a task, identified by a token that is never
/// handed out twice.
#[derive(Debug, Clone, Copy, PartialEq, Eq, Structural)]
pub struct Lease {
    pub token: u64,
    pub expires_at: u64,
}

/// A pending delivery of one issue to one recipient.
#[derive(Debug)]
pub struct DeliveryTask {
    pub task_id: u64,
    pub issue_id: u64,
    pub recipient: String,
    pub enqueued_at: u64,
    pub attempts: u32,
    pub available_at: u64,
    pub lease: Option<Lease>,
}

pub struct TaskView {
    pub task_id: u64,
    pub issue_id: u64,
    pub recipient: Seq<char>,
    pub enqueued_at: u64,
    pub attempts: u32,
    pub available_at: u64,
    pub lease: Option<Lease>,
}

impl View for DeliveryTask {
    type V = TaskView;

    open spec fn view(&self) -> TaskView {
        TaskView {
            task_id: self.task_id,
            issue_id: self.issue_id,
            recipient: self.recipient@,
            enqueued_at: self.enqueued_at,
            attempts: self.attempts,
            available_at: self.available_at,
            lease: self.lease,
        }
    }
}

/// Why the store refused a step.
#[derive(Debug, Clone, Copy, PartialEq, Eq, Structural)]
pub enum StoreError {
    /// An identifier counter reached its largest value.
    IdSpaceExhausted,
    /// The token names no task held under a lease: the task was settled
    /// already, or its lease ran out and another worker took it.
    ClaimLost,
}

pub struct QueueView {
    pub tasks: Seq<TaskView>,
    pub next_task_id: u64,
    pub next_token: u64,
}

/// Pending tasks in order of enqueueing.
pub struct DeliveryQueue {
    tasks: Vec<DeliveryTask>,
    next_task_id: u64,
    next_token: u64,
}

impl View for DeliveryQueue {
    type V = QueueView;

    closed spec fn view(&self) -> QueueView {
        QueueView {
            tasks: self.tasks@.map_values(|t: DeliveryTask| t@),
            next_task_id: self.next_task_id,
            next_token: self.next_token,
        }
    }
}

pub open spec fn is_task_for(t: TaskView, issue_id: u64, recipient: Seq<char>) -> bool {
    t.issue_id == issue_id && t.recipient == recipient
}

pub open spec fn has_task_for(s: Seq<TaskView>, issue_id: u64, recipient: Seq<char>) -> bool {
    exists|i: int| 0 <= i < s.len() && is_task_for(#[trigger] s[i], issue_id, recipient)
}

/// Identifiers below the counters, each task id and each lease token used
/// once, one task per (issue, recipient), attempts below the limit.
pub open spec fn queue_wf(q: QueueView) -> bool {
    &&& forall|i: int| 0 <= i < q.tasks.len() ==> (#[trigger] q.tasks[i]).task_id < q.next_task_id
    &&& forall|i: int| 0 <= i < q.tasks.len() ==> (#[trigger] q.tasks[i]).attempts < MAX_ATTEMPTS
    &&& forall|i: int|
        0 <= i < q.tasks.len() && (#[trigger] q.tasks[i]).lease is Some ==> q.tasks[i].lease->0.token
            < q.next_token
    &&& forall|i: int, j: int|
        0 <= i < q.tasks.len() && 0 <= j < q.tasks.len() && #[trigger] q.tasks[i].task_id
            == #[trigger] q.tasks[j].task_id ==> i == j
    &&& forall|i: int, j: int|
        0 <= i < q.tasks.len() && 0 <= j < q.tasks.len() && (#[trigger] q.tasks[i]).lease is Some
            && (#[trigger] q.tasks[j]).lease is Some && q.tasks[i].lease->0.token
            == q.tasks[j].lease->0.token ==> i == j
    &&& forall|i: int, j: int|
        0 <= i < q.tasks.len() && 0 <= j < q.tasks.len() && #[trigger] q.tasks[i].issue_id
            == #[trigger] q.tasks[j].issue_id && q.tasks[i].recipient == q.tasks[j].recipient ==> i
            == j
}

/// The task enqueued for (issue, recipient) at `now`.
pub open spec fn new_task(task_id: u64, issue_id: u64, recipient: Seq<char>, now: u64) -> TaskView {
    TaskView {
        task_id,
        issue_id,
        recipient,
        enqueued_at: now,
        attempts: 0,
        available_at: now,
        lease: None,
    }
}

/// Enqueueing adds a task unless one is already pending for the pair.
pub open spec fn enqueue_spec(q: QueueView, issue_id: u64, recipient: Seq<char>, now: u64) -> QueueView {
    if has_task_for(q.tasks, issue_id, recipient) {
        q
    } else {
        QueueView {
            tasks: q.tasks.push(new_task(q.next_task_id, issue_id, recipient, now)),
            next_task_id: (q.next_task_id + 1) as u64,
            next_token: q.next_token,
        }
    }
}

/// Enqueues each recipient of `rs` in turn.
pub open spec fn enqueue_all(q: QueueView, issue_id: u64, rs: Seq<Seq<char>>, now: u64) -> QueueView
    decreases rs.len(),
{
    if rs.len() == 0 {
        q
    } else {
        enqueue_spec(enqueue_all(q, issue_id, rs.drop_last(), now), issue_id, rs.last(), now)
    }
}


/// A task may be claimed once its backoff has passed and no live lease
/// holds it.
pub open spec fn claimable(t: TaskView, now: u64) -> bool {
    &&& t.available_at <= now
    &&& match t.lease {
        None => true,
        Some(l) => l.expires_at <= now,
    }
}

pub open spec fn has_claimable(s: Seq<TaskView>, now: u64) -> bool {
    exists|i: int| 0 <= i < s.len() && claimable(#[trigger] s[i], now)
}

pub open spec fn is_first_claimable(s: Seq<TaskView>, now: u64, i: int) -> bool {
    &&& 0 <= i < s.len()
    &&& claimable(s[i], now)
    &&& forall|j: int| 0 <= j < i ==> !claimable(#[trigger] s[j], now)
}

/// The oldest claimable task; meaningful when `has_claimable`.
pub open spec fn first_claimable(s: Seq<TaskView>, now: u64) -> int {
    choose|i: int| is_first_claimable(s, now, i)
}

/// `a + b`, or `u64::MAX` where the sum does not fit.
pub open spec fn saturating_sum(a: u64, b: u64) -> u64 {
    if a as int + b as int > u64::MAX as int {
        u64::MAX
    } else {
        (a + b) as u64
    }
}

/// The task held under a new lease.
pub open spec fn leased(t: TaskView, token: u64, now: u64) -> TaskView {
    TaskView { lease: Some(Lease { token, expires_at: saturating_sum(now, LEASE_SECS) }), ..t }
}

/// The queue after a claim at `now`, when a task is claimable.
pub open spec fn claim_spec(q: QueueView, now: u64) -> QueueView {
    let i = first_claimable(q.tasks, now);
    QueueView {
        tasks: q.tasks.update(i, leased(q.tasks[i], q.next_token, now)),
        next_task_id: q.next_task_id,
        next_token: (q.next_token + 1) as u64,
    }
}

pub open spec fn pow2(n: nat) -> nat
    decreases n,
{
    if n == 0 {
        1
    } else {
        2 * pow2((n - 1) as nat)
    }
}

/// The wait after the `failures`-th failed attempt: `BASE_BACKOFF_SECS`,
/// doubled for each earlier failure.
pub open spec fn retry_delay(failures: u32) -> int {
    BASE_BACKOFF_SECS * pow2((failures - 1) as nat)
}

/// The outcome of one send attempt, as the worker saw it.
#[derive(Debug, Clone, Copy, PartialEq, Eq, Structural)]
pub enum Attempt {
    Delivered,
    TransientFailure,
    InvalidRecipient,
}

/// What became of a settled task.
#[derive(Debug, Clone, Copy, PartialEq, Eq, Structural)]
pub enum Disposition {
    /// Delivered, or given up on: the task is gone.
    Retired,
    /// Back in the queue, to be tried again after its backoff.
    Requeued,
}

pub open spec fn leased_by(t: TaskView, token: u64) -> bool {
    t.lease matches Some(l) && l.token == token
}

pub open spec fn has_lease(s: Seq<TaskView>, token: u64) -> bool {
    exists|i: int| 0 <= i < s.len() && leased_by(#[trigger] s[i], token)
}

/// The task held under `token`; meaningful when `has_lease`.
pub open spec fn lease_index(s: Seq<TaskView>, token: u64) -> int {
    choose|i: int| 0 <= i < s.len() && leased_by(#[trigger] s[i], token)
}

/// The task put back after a transient failure at `now`.
pub open spec fn requeued(t: TaskView, now: u64) -> TaskView {
    TaskView {
        attempts: (t.attempts + 1) as u32,
        available_at: saturating_sum(now, retry_delay((t.attempts + 1) as u32) as u64),
        lease: None,
        ..t
    }
}

/// A transient failure re-queues the task while attempts remain; anything
/// else retires it.
pub open spec fn retries(t: TaskView, attempt: Attempt) -> bool {
    attempt == Attempt::TransientFailure && t.attempts + 1 < MAX_ATTEMPTS
}

/// The queue after settling the task held under `token`, when there is one.
pub open spec fn settle_spec(q: QueueView, token: u64, attempt: Attempt, now: u64) -> QueueView {
    let i = lease_index(q.tasks, token);
    if retries(q.tasks[i], attempt) {
        QueueView { tasks: q.tasks.update(i, requeued(q.tasks[i], now)), ..q }
    } else {
        QueueView { tasks: q.tasks.remove(i), ..q }
    }
}

/// The oldest claimable task is the only one that `first_claimable` can
/// name.
pub proof fn lemma_first_claimable_unique(s: Seq<TaskView>, now: u64, i: int)
    requires
        is_first_claimable(s, now, i),
    ensures
        has_claimable(s, now),
        first_claimable(s, now) == i,
{
    assert(claimable(s[i], now));
    let k = first_claimable(s, now);
    assert(is_first_claimable(s, now, k));
    if k < i {
        assert(!claimable(s[k], now));
    } else if i < k {
        assert(!claimable(s[i], now));
    }
}

/// Computes `retry_delay(failures)` for a failure count that allows a
/// retry.
pub fn backoff_delay(failures: u32) -> (r: u64)
    requires
        1 <= failures < MAX_ATTEMPTS,
    ensures
        r == retry_delay(failures),
{
    let mut d: u64 = BASE_BACKOFF_SECS;
    let mut k: u32 = 1;
    while k < failures
        invariant
            1 <= k <= failures < MAX_ATTEMPTS,
            d == BASE_BACKOFF_SECS * pow2((k - 1) as nat),
        decreases failures - k,
    {
        proof {
            reveal_with_fuel(pow2, 3);
            assert(pow2((k - 1) as nat) <= 4) by {
                if k == 1 {
                } else if k == 2 {
                } else {
                    assert(k == 3);
                }
            }
        }
        d = d * 2;
        k = k + 1;
    }
    d
}

/// In a well-formed queue, the task found for a token is the one at `i`.
pub proof fn lemma_lease_at(q: QueueView, token: u64, i: int)
    requires
        queue_wf(q),
        0 <= i < q.tasks.len(),
        leased_by(q.tasks[i], token),
    ensures
        has_lease(q.tasks, token),
        lease_index(q.tasks, token) == i,
{
    assert(has_lease(q.tasks, token));
    let k = lease_index(q.tasks, token);
    assert(q.tasks[k].lease is Some && q.tasks[i].lease is Some);
}

/// When some task is claimable, `first_claimable` names the oldest one.
pub proof fn lemma_first_claimable(s: Seq<TaskView>, now: u64)
    requires
        has_claimable(s, now),
    ensures
        is_first_claimable(s, now, first_claimable(s, now)),
{
    let k = choose|k: int| 0 <= k < s.len() && claimable(#[trigger] s[k], now);
    lemma_first_claimable_below(s, now, k);
}

proof fn lemma_first_claimable_below(s: Seq<TaskView>, now: u64, k: int)
    requires
        0 <= k < s.len(),
        claimable(s[k], now),
    ensures
        exists|i: int| is_first_claimable(s, now, i),
    decreases k,
{
    if exists|j: int| 0 <= j < k && claimable(#[trigger] s[j], now) {
        let j = choose|j: int| 0 <= j < k && claimable(#[trigger] s[j], now);
        lemma_first_claimable_below(s, now, j);
    } else {
        assert(is_first_claimable(s, now, k));
    }
}

/// A task handed to a worker.
#[derive(Debug)]
pub struct Claim {
    pub token: u64,
    pub task_id: u64,
    pub issue_id: u64,
    pub recipient: String,
}

impl DeliveryQueue {
    pub open spec fn wf(&self) -> bool {
        queue_wf(self@)
    }

    /// An empty queue.
    pub fn new() -> (r: DeliveryQueue)
        ensures
            r.wf(),
            r@.tasks == Seq::<TaskView>::empty(),
            r@.next_task_id == 0,
            r@.next_token == 0,
    {
        let r = DeliveryQueue { tasks: Vec::new(), next_task_id: 0, next_token: 0 };
        assert(r@.tasks =~= Seq::<TaskView>::empty());
        r
    }

    /// The identifier the next task will get.
    pub fn next_task_id(&self) -> (r: u64)
        ensures
            r == self@.next_task_id,
    {
        self.next_task_id
    }

    /// The number of pending tasks.
    pub fn len(&self) -> (r: usize)
        ensures
            r == self@.tasks.len(),
    {
        self.tasks.len()
    }

    /// The task at position `i`.
    pub fn task(&self, i: usize) -> (r: &DeliveryTask)
        requires
            i < self@.tasks.len(),
        ensures
            r@ == self@.tasks[i as int],
    {
        &self.tasks[i]
    }

    fn holds_task_for(&self, issue_id: u64, recipient: &String) -> (r: bool)
        ensures
            r == has_task_for(self@.tasks, issue_id, recipient@),
    {
        let mut i: usize = 0;
        while i < self.tasks.len()
            invariant
                i <= self.tasks@.len(),
                self@.tasks.len() == self.tasks@.len(),
                forall|j: int| 0 <= j < i ==> !is_task_for(#[trigger] self@.tasks[j], issue_id, recipient@),
            decreases self.tasks@.len() - i,
        {
            let t = &self.tasks[i];
            assert(self@.tasks[i as int] == t@);
            if t.issue_id == issue_id && t.recipient == *recipient {
                return true;
            }
            i = i + 1;
        }
        false
    }

    /// Adds a task for (issue, recipient) unless one is pending already.
    pub fn enqueue(&mut self, issue_id: u64, recipient: String, now: u64)
        requires
            old(self).wf(),
            old(self)@.next_task_id < u64::MAX,
        ensures
            final(self).wf(),
            final(self)@ == enqueue_spec(old(self)@, issue_id, recipient@, now),
    {
        if self.holds_task_for(issue_id, &recipient) {
            return;
        }
        let ghost r = recipient@;
        let task = DeliveryTask {
            task_id: self.next_task_id,
            issue_id,
            recipient,
            enqueued_at: now,
            attempts: 0,
            available_at: now,
            lease: None,
        };
        self.tasks.push(task);
        self.next_task_id = self.next_task_id + 1;
        assert(self@.tasks =~= old(self)@.tasks.push(new_task(old(self)@.next_task_id, issue_id, r, now)));
        let ghost s = self@.tasks;
        let ghost n = old(self)@.tasks.len();
        assert forall|i: int, j: int|
            0 <= i < s.len() && 0 <= j < s.len() && #[trigger] s[i].issue_id == #[trigger] s[j].issue_id
                && s[i].recipient == s[j].recipient implies i == j by {
            if i == n && j < n {
                assert(is_task_for(old(self)@.tasks[j], issue_id, r));
            } else if j == n && i < n {
                assert(is_task_for(old(self)@.tasks[i], issue_id, r));
            }
        }
    }
    fn find_claimable(&self, now: u64) -> (r: Option<usize>)
        ensures
            match r {
                Some(i) => is_first_claimable(self@.tasks, now, i as int),
                None => !has_claimable(self@.tasks, now),
            },
    {
        let mut i: usize = 0;
        while i < self.tasks.len()
            invariant
                i <= self.tasks@.len(),
                self@.tasks.len() == self.tasks@.len(),
                forall|j: int| 0 <= j < i ==> !claimable(#[trigger] self@.tasks[j], now),
            decreases self.tasks@.len() - i,
        {
            let t = &self.tasks[i];
            assert(self@.tasks[i as int] == t@);
            let free = match t.lease {
                None => true,
                Some(l) => l.expires_at <= now,
            };
            if t.available_at <= now && free {
                return Some(i);
            }
            i = i + 1;
        }
        None
    }

    /// Claims the oldest claimable task under a fresh lease token.
    pub fn claim_next(&mut self, now: u64) -> (r: Result<Option<Claim>, StoreError>)
        requires
            old(self).wf(),
        ensures
            final(self).wf(),
            !has_claimable(old(self)@.tasks, now) ==> (r matches Ok(None) && final(self)@ == old(self)@),
            has_claimable(old(self)@.tasks, now) && old(self)@.next_token == u64::MAX ==> r
                == Err::<Option<Claim>, StoreError>(StoreError::IdSpaceExhausted) && final(self)@
                == old(self)@,
            has_claimable(old(self)@.tasks, now) && old(self)@.next_token < u64::MAX ==> {
                let t = old(self)@.tasks[first_claimable(old(self)@.tasks, now)];
                &&& final(self)@ == claim_spec(old(self)@, now)
                &&& r matches Ok(Some(c)) && c.token == old(self)@.next_token && c.task_id == t.task_id
                    && c.issue_id == t.issue_id && c.recipient@ == t.recipient
            },
    {
        match self.find_claimable(now) {
            None => Ok(None),
            Some(i) => {
                if self.next_token == u64::MAX {
                    return Err(StoreError::IdSpaceExhausted);
                }
                proof {
                    lemma_first_claimable_unique(self@.tasks, now, i as int);
                }
                let token = self.next_token;
                let expires_at = if now > u64::MAX - LEASE_SECS {
                    u64::MAX
                } else {
                    now + LEASE_SECS
                };
                let ghost before = self@;
                self.tasks[i].lease = Some(Lease { token, expires_at });
                self.next_token = token + 1;
                assert(self@.tasks =~= before.tasks.update(i as int, leased(before.tasks[i as int], token, now)));
                let ghost s = self@.tasks;
                assert forall|a: int, b: int|
                    0 <= a < s.len() && 0 <= b < s.len() && (#[trigger] s[a]).lease is Some
                        && (#[trigger] s[b]).lease is Some && s[a].lease->0.token
                        == s[b].lease->0.token implies a == b by {
                    if a != i && b != i {
                        assert(before.tasks[a] == s[a] && before.tasks[b] == s[b]);
                    } else if a != i {
                        assert(before.tasks[a] == s[a]);
                    } else if b != i {
                        assert(before.tasks[b] == s[b]);
                    }
                }
                assert forall|a: int, b: int|
                    0 <= a < s.len() && 0 <= b < s.len() && #[trigger] s[a].task_id
                        == #[trigger] s[b].task_id implies a == b by {
                    assert(before.tasks[a].task_id == s[a].task_id && before.tasks[b].task_id == s[b].task_id);
                }
                assert forall|a: int, b: int|
                    0 <= a < s.len() && 0 <= b < s.len() && #[trigger] s[a].issue_id
                        == #[trigger] s[b].issue_id && s[a].recipient == s[b].recipient implies a == b by {
                    assert(before.tasks[a].issue_id == s[a].issue_id && before.tasks[b].issue_id == s[b].issue_id);
                    assert(before.tasks[a].recipient == s[a].recipient && before.tasks[b].recipient == s[b].recipient);
                }
                assert forall|a: int| 0 <= a < s.len() && (#[trigger] s[a]).lease is Some implies s[a].lease->0.token
                    < self@.next_token by {
                    if a != i {
                        assert(before.tasks[a] == s[a]);
                    }
                }
                assert forall|a: int| 0 <= a < s.len() implies (#[trigger] s[a]).task_id < self@.next_task_id
                    && s[a].attempts < MAX_ATTEMPTS by {
                    assert(before.tasks[a].task_id == s[a].task_id && before.tasks[a].attempts == s[a].attempts);
                }
                let t = &self.tasks[i];
                Ok(Some(Claim { token, task_id: t.task_id, issue_id: t.issue_id, recipient: t.recipient.clone() }))
            },
        }
    }
    fn find_lease(&self, token: u64) -> (r: Option<usize>)
        requires
            self.wf(),
        ensures
            match r {
                Some(i) => i < self@.tasks.len() && leased_by(self@.tasks[i as int], token)
                    && lease_index(self@.tasks, token) == i,
                None => !has_lease(self@.tasks, token),
            },
    {
        let mut i: usize = 0;
        while i < self.tasks.len()
            invariant
                self.wf(),
                i <= self.tasks@.len(),
                self@.tasks.len() == self.tasks@.len(),
                forall|j: int| 0 <= j < i ==> !leased_by(#[trigger] self@.tasks[j], token),
            decreases self.tasks@.len() - i,
        {
            let t = &self.tasks[i];
            assert(self@.tasks[i as int] == t@);
            let held = match t.lease {
                None => false,
                Some(l) => l.token == token,
            };
            if held {
                proof {
                    let k = lease_index(self@.tasks, token);
                    assert(leased_by(self@.tasks[k], token));
                }
                return Some(i);
            }
            i = i + 1;
        }
        None
    }

    /// Settles the task held under `token` with the outcome of its send
    /// attempt at `now`.
    pub fn settle(&mut self, token: u64, attempt: Attempt, now: u64) -> (r: Result<Disposition, StoreError>)
        requires
            old(self).wf(),
        ensures
            final(self).wf(),
            !has_lease(old(self)@.tasks, token) ==> r == Err::<Disposition, StoreError>(StoreError::ClaimLost)
                && final(self)@ == old(self)@,
            has_lease(old(self)@.tasks, token) ==> {
                &&& final(self)@ == settle_spec(old(self)@, token, attempt, now)
                &&& r == Ok::<Disposition, StoreError>(
                    if retries(old(self)@.tasks[lease_index(old(self)@.tasks, token)], attempt) {
                        Disposition::Requeued
                    } else {
                        Disposition::Retired
                    },
                )
            },
    {
        let i = match self.find_lease(token) {
            None => {
                return Err(StoreError::ClaimLost);
            },
            Some(i) => i,
        };
        let ghost before = self@;
        let attempts = self.tasks[i].attempts;
        let retry = match attempt {
            Attempt::TransientFailure => attempts + 1 < MAX_ATTEMPTS,
            _ => false,
        };
        if retry {
            let failures = attempts + 1;
            let delay = backoff_delay(failures);
            let available_at = if now > u64::MAX - delay {
                u64::MAX
            } else {
                now + delay
            };
            self.tasks[i].attempts = failures;
            self.tasks[i].available_at = available_at;
            self.tasks[i].lease = None;
            assert(self@.tasks =~= before.tasks.update(i as int, requeued(before.tasks[i as int], now)));
            let ghost s = self@.tasks;
            assert forall|a: int, b: int|
                0 <= a < s.len() && 0 <= b < s.len() && (#[trigger] s[a]).lease is Some
                    && (#[trigger] s[b]).lease is Some && s[a].lease->0.token
                    == s[b].lease->0.token implies a == b by {
                assert(before.tasks[a] == s[a] && before.tasks[b] == s[b]);
            }
            assert forall|a: int, b: int|
                0 <= a < s.len() && 0 <= b < s.len() && #[trigger] s[a].task_id
                    == #[trigger] s[b].task_id implies a == b by {
                assert(before.tasks[a].task_id == s[a].task_id && before.tasks[b].task_id == s[b].task_id);
            }
            assert forall|a: int, b: int|
                0 <= a < s.len() && 0 <= b < s.len() && #[trigger] s[a].issue_id
                    == #[trigger] s[b].issue_id && s[a].recipient == s[b].recipient implies a == b by {
                assert(before.tasks[a].issue_id == s[a].issue_id && before.tasks[b].issue_id == s[b].issue_id);
                assert(before.tasks[a].recipient == s[a].recipient && before.tasks[b].recipient == s[b].recipient);
            }
            assert forall|a: int| 0 <= a < s.len() && (#[trigger] s[a]).lease is Some implies s[a].lease->0.token
                < self@.next_token by {
                assert(before.tasks[a] == s[a]);
            }
            assert forall|a: int| 0 <= a < s.len() implies (#[trigger] s[a]).task_id < self@.next_task_id
                && s[a].attempts < MAX_ATTEMPTS by {
                assert(before.tasks[a].task_id == s[a].task_id);
            }
            Ok(Disposition::Requeued)
        } else {
            self.tasks.remove(i);
            assert(self@.tasks =~= before.tasks.remove(i as int));
            let ghost s = self@.tasks;
            assert forall|a: int| #![trigger s[a]] 0 <= a < s.len() implies s[a] == before.tasks[if a < i { a } else { a + 1 }] by {}
            Ok(Disposition::Retired)
        }
    }
}

} // verus!

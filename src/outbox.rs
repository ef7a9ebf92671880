use vstd::prelude::*;
use crate::subscription::{SubscriberStatus, SubscriberView, SubscriptionStore};

verus! {

/// Clock readings are milliseconds; the dispatch operations accept readings
/// up to this bound, so that a retry time computed from one always fits.
pub const MAX_CLOCK: u64 = 0x3fff_ffff_ffff_ffff;

/// Upper bound on any delay a retry policy may produce.
pub const MAX_POLICY_DELAY: u64 = 0xffff_ffff;

/// When and how often a transiently failing delivery is tried again.
#[derive(PartialEq, Eq, Structural, Clone, Copy, Debug)]
pub struct RetryPolicy {
    /// Attempts a task gets before it is dead-lettered.
    pub max_attempts: u32,
    /// Delay after the first failure; it doubles after each further one.
    pub base_delay_ms: u64,
    /// Ceiling of the doubling delay.
    pub max_delay_ms: u64,
    /// The delay is moved by up to this much either way.
    pub jitter_ms: u64,
}

impl RetryPolicy {
    pub open spec fn wf(self) -> bool {
        &&& self.max_attempts >= 1
        &&& self.jitter_ms < self.base_delay_ms
        &&& self.base_delay_ms <= self.max_delay_ms
        &&& self.max_delay_ms <= MAX_POLICY_DELAY
        &&& self.jitter_ms <= MAX_POLICY_DELAY
    }

    /// Five attempts, starting at one second and doubling up to a minute,
    /// with a quarter of a second of jitter.
    pub fn standard() -> (r: RetryPolicy)
        ensures
            r.wf(),
            r.max_attempts == 5,
            r.base_delay_ms == 1000,
            r.max_delay_ms == 60_000,
            r.jitter_ms == 250,
    {
        RetryPolicy { max_attempts: 5, base_delay_ms: 1000, max_delay_ms: 60_000, jitter_ms: 250 }
    }

    /// The delay before the next try after the `attempt`-th failure, before
    /// jitter: the base delay doubled `attempt - 1` times, never above the
    /// ceiling.
    pub open spec fn capped_delay(self, attempt: nat) -> nat
        decreases attempt,
    {
        if attempt <= 1 {
            self.base_delay_ms as nat
        } else {
            let d = 2 * self.capped_delay((attempt - 1) as nat);
            if d <= self.max_delay_ms {
                d
            } else {
                self.max_delay_ms as nat
            }
        }
    }

    /// The delay with jitter: `jitter` is any number, of which only its
    /// remainder modulo `2 * jitter_ms + 1` counts, moving the delay by
    /// between `-jitter_ms` and `+jitter_ms`.
    pub open spec fn backoff(self, attempt: nat, jitter: nat) -> nat {
        (self.capped_delay(attempt) - self.jitter_ms + jitter % ((2 * self.jitter_ms + 1) as nat)) as nat
    }

    pub proof fn lemma_capped_delay_bounds(self, attempt: nat)
        requires
            self.wf(),
        ensures
            self.base_delay_ms <= self.capped_delay(attempt) <= self.max_delay_ms,
        decreases attempt,
    {
        if attempt > 1 {
            self.lemma_capped_delay_bounds((attempt - 1) as nat);
        }
    }

    pub proof fn lemma_backoff_bounds(self, attempt: nat, jitter: nat)
        requires
            self.wf(),
        ensures
            1 <= self.backoff(attempt, jitter) <= self.max_delay_ms + self.jitter_ms,
    {
        self.lemma_capped_delay_bounds(attempt);
        let m = (2 * self.jitter_ms + 1) as nat;
        assert(jitter % m < m) by (nonlinear_arith)
            requires
                m > 0,
        ;
    }

    /// Computes `backoff(attempt, jitter)`.
    pub fn backoff_delay(&self, attempt: u32, jitter: u64) -> (r: u64)
        requires
            self.wf(),
        ensures
            r as nat == self.backoff(attempt as nat, jitter as nat),
            1 <= r <= self.max_delay_ms + self.jitter_ms,
    {
        let mut d: u64 = self.base_delay_ms;
        let mut k: u32 = 1;
        while k < attempt
            invariant
                self.wf(),
                1 <= k,
                attempt == 0 ==> k == 1,
                attempt >= 1 ==> k <= attempt,
                d as nat == self.capped_delay(k as nat),
                d <= self.max_delay_ms,
            decreases attempt - k,
        {
            let doubled = 2 * d;
            if doubled <= self.max_delay_ms {
                d = doubled;
            } else {
                d = self.max_delay_ms;
            }
            k = k + 1;
        }
        proof {
            if attempt == 0 {
                assert(self.capped_delay(0) == self.capped_delay(1));
                assert(k == 1);
            } else {
                assert(k == attempt);
            }
            assert(d as nat == self.capped_delay(attempt as nat));
            self.lemma_capped_delay_bounds(attempt as nat);
            self.lemma_backoff_bounds(attempt as nat, jitter as nat);
        }
        let m: u64 = jitter % (2 * self.jitter_ms + 1);
        d - self.jitter_ms + m
    }
}

/// Where a delivery task stands. `Sent`, `Failed` and `DeadLettered` are
/// terminal.
#[derive(PartialEq, Eq, Structural, Clone, Copy, Debug)]
pub enum TaskStatus {
    Pending,
    InFlight,
    Sent,
    /// The gateway refused the delivery for good.
    Failed,
    /// Transient failures used up every attempt.
    DeadLettered,
}

/// What one attempt to send a message reported.
pub enum SendOutcome {
    Delivered,
    /// A failure worth retrying (a timeout counts as one), with its reason.
    Transient(String),
    /// A failure that no retry will mend, with its reason.
    Permanent(String),
}

pub ghost enum SendOutcomeView {
    Delivered,
    Transient(Seq<char>),
    Permanent(Seq<char>),
}

impl View for SendOutcome {
    type V = SendOutcomeView;

    open spec fn view(&self) -> SendOutcomeView {
        match self {
            SendOutcome::Delivered => SendOutcomeView::Delivered,
            SendOutcome::Transient(e) => SendOutcomeView::Transient(e@),
            SendOutcome::Permanent(e) => SendOutcomeView::Permanent(e@),
        }
    }
}

/// One delivery of one issue to one recipient.
pub struct OutboxTask {
    pub id: usize,
    pub issue_id: u64,
    pub recipient: String,
    pub status: TaskStatus,
    pub attempt_count: u32,
    pub next_attempt_at: u64,
    pub claimed_at: u64,
    pub last_error: Option<String>,
}

pub ghost struct TaskView {
    pub id: nat,
    pub issue_id: nat,
    pub recipient: Seq<char>,
    pub status: TaskStatus,
    pub attempt_count: nat,
    pub next_attempt_at: nat,
    pub claimed_at: nat,
    pub last_error: Option<Seq<char>>,
}

impl View for OutboxTask {
    type V = TaskView;

    open spec fn view(&self) -> TaskView {
        TaskView {
            id: self.id as nat,
            issue_id: self.issue_id as nat,
            recipient: self.recipient@,
            status: self.status,
            attempt_count: self.attempt_count as nat,
            next_attempt_at: self.next_attempt_at as nat,
            claimed_at: self.claimed_at as nat,
            last_error: match self.last_error {
                Some(e) => Some(e@),
                None => None,
            },
        }
    }
}

/// A task as fan-out creates it: pending, untried, due at once.
pub open spec fn new_task(id: nat, issue_id: nat, recipient: Seq<char>, now: nat) -> TaskView {
    TaskView {
        id,
        issue_id,
        recipient,
        status: TaskStatus::Pending,
        attempt_count: 0,
        next_attempt_at: now,
        claimed_at: now,
        last_error: None,
    }
}

pub open spec fn is_due(t: TaskView, now: nat) -> bool {
    t.status == TaskStatus::Pending && t.next_attempt_at <= now
}

/// Dispatch order: earlier retry time first, then lower id.
pub open spec fn precedes(a: TaskView, b: TaskView) -> bool {
    a.next_attempt_at < b.next_attempt_at || (a.next_attempt_at == b.next_attempt_at && a.id
        <= b.id)
}

pub open spec fn claimed(t: TaskView, now: nat) -> TaskView {
    TaskView { status: TaskStatus::InFlight, claimed_at: now, ..t }
}

/// A claimed task after the gateway reported `outcome` at time `now`.
pub open spec fn after_send(
    t: TaskView,
    outcome: SendOutcomeView,
    now: nat,
    jitter: nat,
    policy: RetryPolicy,
) -> TaskView {
    match outcome {
        SendOutcomeView::Delivered => TaskView { status: TaskStatus::Sent, ..t },
        SendOutcomeView::Permanent(e) => TaskView {
            status: TaskStatus::Failed,
            last_error: Some(e),
            ..t
        },
        SendOutcomeView::Transient(e) => {
            let n = t.attempt_count + 1;
            if n < policy.max_attempts {
                TaskView {
                    status: TaskStatus::Pending,
                    attempt_count: n,
                    next_attempt_at: now + policy.backoff(n, jitter),
                    last_error: Some(e),
                    ..t
                }
            } else {
                TaskView {
                    status: TaskStatus::DeadLettered,
                    attempt_count: n,
                    last_error: Some(e),
                    ..t
                }
            }
        },
    }
}

/// A task whose claim is `lease` or more old goes back to pending; any
/// other task is left as it is.
pub open spec fn reclaimed(t: TaskView, now: nat, lease: nat) -> TaskView {
    if t.status == TaskStatus::InFlight && t.claimed_at + lease <= now {
        TaskView { status: TaskStatus::Pending, ..t }
    } else {
        t
    }
}

pub open spec fn has_task(tasks: Seq<TaskView>, issue_id: nat, recipient: Seq<char>) -> bool {
    exists|i: int|
        0 <= i < tasks.len() && #[trigger] tasks[i].issue_id == issue_id && tasks[i].recipient
            == recipient
}

/// The tasks after fanning `issue_id` out over `subs`: in order, each
/// confirmed subscriber without a task for the issue gets a new one.
pub open spec fn fan_out_spec(
    tasks: Seq<TaskView>,
    issue_id: nat,
    subs: Seq<SubscriberView>,
    now: nat,
) -> Seq<TaskView>
    decreases subs.len(),
{
    if subs.len() == 0 {
        tasks
    } else {
        let prev = fan_out_spec(tasks, issue_id, subs.drop_last(), now);
        let s = subs.last();
        if s.status == SubscriberStatus::Confirmed && !has_task(prev, issue_id, s.email) {
            prev.push(new_task(prev.len(), issue_id, s.email, now))
        } else {
            prev
        }
    }
}

pub open spec fn tasks_wf(tasks: Seq<TaskView>, policy: RetryPolicy) -> bool {
    &&& forall|i: int| 0 <= i < tasks.len() ==> #[trigger] tasks[i].id == i
    &&& forall|i: int, k: int|
        0 <= i < k < tasks.len() ==> !(#[trigger] tasks[i].issue_id == #[trigger] tasks[k].issue_id
            && tasks[i].recipient == tasks[k].recipient)
    &&& forall|i: int|
        0 <= i < tasks.len() ==> (#[trigger] tasks[i]).attempt_count <= policy.max_attempts
    &&& forall|i: int|
        0 <= i < tasks.len() && ((#[trigger] tasks[i]).status == TaskStatus::Pending
            || tasks[i].status == TaskStatus::InFlight) ==> tasks[i].attempt_count
            < policy.max_attempts
    &&& forall|i: int|
        0 <= i < tasks.len() && (#[trigger] tasks[i]).status == TaskStatus::InFlight
            ==> tasks[i].next_attempt_at <= tasks[i].claimed_at
}

/// How many of `tasks` belong to `issue_id`.
pub open spec fn count_for_issue(tasks: Seq<TaskView>, issue_id: nat) -> nat
    decreases tasks.len(),
{
    if tasks.len() == 0 {
        0
    } else {
        count_for_issue(tasks.drop_last(), issue_id) + if tasks.last().issue_id == issue_id {
            1nat
        } else {
            0nat
        }
    }
}

/// How many of `subs` are confirmed.
pub open spec fn count_confirmed(subs: Seq<SubscriberView>) -> nat
    decreases subs.len(),
{
    if subs.len() == 0 {
        0
    } else {
        count_confirmed(subs.drop_last()) + if subs.last().status == SubscriberStatus::Confirmed {
            1nat
        } else {
            0nat
        }
    }
}

pub open spec fn distinct_emails(subs: Seq<SubscriberView>) -> bool {
    forall|i: int, k: int|
        0 <= i < k < subs.len() ==> #[trigger] subs[i].email != #[trigger] subs[k].email
}

proof fn lemma_count_zero(tasks: Seq<TaskView>, issue_id: nat)
    requires
        count_for_issue(tasks, issue_id) == 0,
    ensures
        forall|i: int| 0 <= i < tasks.len() ==> #[trigger] tasks[i].issue_id != issue_id,
    decreases tasks.len(),
{
    if tasks.len() > 0 {
        lemma_count_zero(tasks.drop_last(), issue_id);
        assert forall|i: int| 0 <= i < tasks.len() implies #[trigger] tasks[i].issue_id != issue_id by {
            if i < tasks.len() - 1 {
                assert(tasks.drop_last()[i] == tasks[i]);
            }
        }
    }
}

/// Fan-out keeps the tasks it found, and each task it adds belongs to the
/// issue and to a confirmed subscriber; afterwards every confirmed
/// subscriber has a task for the issue.
pub proof fn lemma_fan_out_shape(tasks: Seq<TaskView>, issue_id: nat, subs: Seq<SubscriberView>, now: nat)
    ensures
        ({
            let r = fan_out_spec(tasks, issue_id, subs, now);
            &&& r.len() >= tasks.len()
            &&& forall|i: int| 0 <= i < tasks.len() ==> #[trigger] r[i] == tasks[i]
            &&& forall|i: int|
                tasks.len() <= i < r.len() ==> #[trigger] r[i].issue_id == issue_id && exists|k: int|
                    0 <= k < subs.len() && subs[k].status == SubscriberStatus::Confirmed
                        && #[trigger] subs[k].email == r[i].recipient
            &&& forall|k: int|
                0 <= k < subs.len() && #[trigger] subs[k].status == SubscriberStatus::Confirmed
                    ==> has_task(r, issue_id, subs[k].email)
        }),
    decreases subs.len(),
{
    if subs.len() > 0 {
        let d = subs.drop_last();
        lemma_fan_out_shape(tasks, issue_id, d, now);
        let prev = fan_out_spec(tasks, issue_id, d, now);
        let r = fan_out_spec(tasks, issue_id, subs, now);
        let s = subs.last();
        assert forall|i: int|
            tasks.len() <= i < r.len() implies #[trigger] r[i].issue_id == issue_id && exists|k: int|
                0 <= k < subs.len() && subs[k].status == SubscriberStatus::Confirmed
                    && #[trigger] subs[k].email == r[i].recipient by {
            if i < prev.len() {
                assert(r[i] == prev[i]);
                assert(prev[i].issue_id == issue_id);
                let k = choose|k: int|
                    0 <= k < d.len() && d[k].status == SubscriberStatus::Confirmed
                        && #[trigger] d[k].email == prev[i].recipient;
                assert(subs[k] == d[k]);
            } else {
                assert(subs[subs.len() - 1] == s);
            }
        }
        assert forall|k: int|
            0 <= k < subs.len() && #[trigger] subs[k].status == SubscriberStatus::Confirmed
                implies has_task(r, issue_id, subs[k].email) by {
            if k < subs.len() - 1 {
                assert(d[k] == subs[k]);
                let i = choose|i: int|
                    0 <= i < prev.len() && #[trigger] prev[i].issue_id == issue_id && prev[i].recipient
                        == d[k].email;
                assert(r[i] == prev[i]);
            } else if !has_task(prev, issue_id, s.email) {
                assert(r[prev.len() as int].issue_id == issue_id);
            }
        }
    }
}

/// Fanning an issue out over subscribers with distinct addresses, when it
/// has no task yet, creates exactly one task per confirmed subscriber.
pub proof fn lemma_fan_out_count(tasks: Seq<TaskView>, issue_id: nat, subs: Seq<SubscriberView>, now: nat)
    requires
        count_for_issue(tasks, issue_id) == 0,
        distinct_emails(subs),
    ensures
        count_for_issue(fan_out_spec(tasks, issue_id, subs, now), issue_id) == count_confirmed(subs),
    decreases subs.len(),
{
    if subs.len() > 0 {
        let d = subs.drop_last();
        assert(distinct_emails(d)) by {
            assert forall|i: int, k: int| 0 <= i < k < d.len() implies #[trigger] d[i].email != #[trigger] d[k].email by {
                assert(d[i] == subs[i] && d[k] == subs[k]);
            }
        }
        lemma_fan_out_count(tasks, issue_id, d, now);
        let prev = fan_out_spec(tasks, issue_id, d, now);
        let r = fan_out_spec(tasks, issue_id, subs, now);
        let s = subs.last();
        if s.status == SubscriberStatus::Confirmed {
            lemma_count_zero(tasks, issue_id);
            lemma_fan_out_shape(tasks, issue_id, d, now);
            if has_task(prev, issue_id, s.email) {
                let i = choose|i: int|
                    0 <= i < prev.len() && #[trigger] prev[i].issue_id == issue_id && prev[i].recipient
                        == s.email;
                if i < tasks.len() {
                    assert(prev[i] == tasks[i]);
                } else {
                    let k = choose|k: int|
                        0 <= k < d.len() && d[k].status == SubscriberStatus::Confirmed
                            && #[trigger] d[k].email == prev[i].recipient;
                    assert(subs[k] == d[k]);
                    assert(subs[subs.len() - 1] == s);
                }
            }
            assert(r.drop_last() =~= prev);
        }
    }
}

proof fn lemma_fan_out_noop(tasks: Seq<TaskView>, issue_id: nat, subs: Seq<SubscriberView>, now: nat)
    requires
        forall|k: int|
            0 <= k < subs.len() && #[trigger] subs[k].status == SubscriberStatus::Confirmed
                ==> has_task(tasks, issue_id, subs[k].email),
    ensures
        fan_out_spec(tasks, issue_id, subs, now) == tasks,
    decreases subs.len(),
{
    if subs.len() > 0 {
        let d = subs.drop_last();
        assert forall|k: int|
            0 <= k < d.len() && #[trigger] d[k].status == SubscriberStatus::Confirmed
                implies has_task(tasks, issue_id, d[k].email) by {
            assert(d[k] == subs[k]);
        }
        lemma_fan_out_noop(tasks, issue_id, d, now);
        assert(subs[subs.len() - 1] == subs.last());
    }
}

/// Running fan-out a second time for the same issue over the same
/// subscribers creates no task.
pub proof fn lemma_fan_out_idempotent(
    tasks: Seq<TaskView>,
    issue_id: nat,
    subs: Seq<SubscriberView>,
    first: nat,
    second: nat,
)
    ensures
        ({
            let once = fan_out_spec(tasks, issue_id, subs, first);
            fan_out_spec(once, issue_id, subs, second) == once
        }),
{
    lemma_fan_out_shape(tasks, issue_id, subs, first);
    lemma_fan_out_noop(fan_out_spec(tasks, issue_id, subs, first), issue_id, subs, second);
}

/// One attempt that fails transiently: the task is claimed at `now` and the
/// gateway reports a failure worth retrying.
#[verifier::opaque]
pub open spec fn transient_attempt(
    t: TaskView,
    now: nat,
    jitter: nat,
    reason: Seq<char>,
    policy: RetryPolicy,
) -> TaskView {
    after_send(claimed(t, now), SendOutcomeView::Transient(reason), now, jitter, policy)
}

proof fn lemma_transient_prefix(
    policy: RetryPolicy,
    states: Seq<TaskView>,
    nows: Seq<nat>,
    jitters: Seq<nat>,
    reasons: Seq<Seq<char>>,
    i: int,
)
    requires
        policy.wf(),
        states.len() == policy.max_attempts + 1,
        nows.len() == policy.max_attempts,
        jitters.len() == policy.max_attempts,
        reasons.len() == policy.max_attempts,
        states[0].status == TaskStatus::Pending,
        states[0].attempt_count == 0,
        forall|j: int|
            0 <= j < policy.max_attempts ==> #[trigger] states[j + 1] == transient_attempt(
                states[j],
                nows[j],
                jitters[j],
                reasons[j],
                policy,
            ),
        0 <= i <= policy.max_attempts,
    ensures
        states[i].attempt_count == i,
        i < policy.max_attempts ==> states[i].status == TaskStatus::Pending,
        i == policy.max_attempts ==> states[i].status == TaskStatus::DeadLettered,
        i > 0 ==> states[i].last_error == Some(reasons[i - 1]),
        0 < i < policy.max_attempts ==> states[i].next_attempt_at > nows[i - 1],
    decreases i,
{
    reveal(transient_attempt);
    if i > 0 {
        lemma_transient_prefix(policy, states, nows, jitters, reasons, i - 1);
        assert(states[(i - 1) + 1] == transient_attempt(
            states[i - 1],
            nows[i - 1],
            jitters[i - 1],
            reasons[i - 1],
            policy,
        ));
        policy.lemma_backoff_bounds(i as nat, jitters[i - 1]);
    }
}

/// A task that fails transiently on each of its `max_attempts` attempts,
/// each made once it is due, is pending with one more attempt counted after
/// each failure but the last, its retry time strictly later each time, and
/// ends dead-lettered with `attempt_count == max_attempts` and the last
/// reason recorded.
pub proof fn lemma_transient_failures_dead_letter(
    policy: RetryPolicy,
    states: Seq<TaskView>,
    nows: Seq<nat>,
    jitters: Seq<nat>,
    reasons: Seq<Seq<char>>,
)
    requires
        policy.wf(),
        states.len() == policy.max_attempts + 1,
        nows.len() == policy.max_attempts,
        jitters.len() == policy.max_attempts,
        reasons.len() == policy.max_attempts,
        states[0].status == TaskStatus::Pending,
        states[0].attempt_count == 0,
        forall|j: int| 0 <= j < policy.max_attempts ==> states[j].next_attempt_at <= #[trigger] nows[j],
        forall|j: int|
            0 <= j < policy.max_attempts ==> #[trigger] states[j + 1] == transient_attempt(
                states[j],
                nows[j],
                jitters[j],
                reasons[j],
                policy,
            ),
    ensures
        forall|j: int| 0 <= j < policy.max_attempts ==> is_due(#[trigger] states[j], nows[j]),
        forall|j: int|
            0 <= j < policy.max_attempts ==> (#[trigger] states[j]).attempt_count == j,
        forall|j: int|
            0 < j < policy.max_attempts ==> (#[trigger] states[j]).next_attempt_at
                > states[j - 1].next_attempt_at,
        states[policy.max_attempts as int].status == TaskStatus::DeadLettered,
        states[policy.max_attempts as int].attempt_count == policy.max_attempts,
        states[policy.max_attempts as int].last_error == Some(reasons[policy.max_attempts - 1]),
{
    assert forall|j: int| 0 <= j < policy.max_attempts implies is_due(#[trigger] states[j], nows[j])
        && states[j].attempt_count == j by {
        lemma_transient_prefix(policy, states, nows, jitters, reasons, j);
    }
    assert forall|j: int|
        0 < j < policy.max_attempts implies (#[trigger] states[j]).next_attempt_at
            > states[j - 1].next_attempt_at by {
        lemma_transient_prefix(policy, states, nows, jitters, reasons, j);
        assert(states[j - 1].next_attempt_at <= nows[j - 1]);
    }
    lemma_transient_prefix(policy, states, nows, jitters, reasons, policy.max_attempts as int);
}

/// A task left in flight by a crashed worker goes back to pending once its
/// lease has run out, is due again at once, and is sent when a later
/// attempt succeeds: it keeps its issue and recipient throughout.
pub proof fn lemma_reclaimed_task_delivered(
    t: TaskView,
    now: nat,
    lease: nat,
    later: nat,
    jitter: nat,
    policy: RetryPolicy,
)
    requires
        t.status == TaskStatus::InFlight,
        t.next_attempt_at <= t.claimed_at,
        t.claimed_at + lease <= now,
        now <= later,
    ensures
        ({
            let r = reclaimed(t, now, lease);
            let done = after_send(claimed(r, later), SendOutcomeView::Delivered, later, jitter, policy);
            &&& r.status == TaskStatus::Pending
            &&& is_due(r, now)
            &&& is_due(r, later)
            &&& done.status == TaskStatus::Sent
            &&& done.issue_id == t.issue_id
            &&& done.recipient == t.recipient
        }),
{
}

/// The durable queue of delivery tasks, one per issue and recipient.
pub struct Outbox {
    pub tasks: Vec<OutboxTask>,
    pub policy: RetryPolicy,
}

impl View for Outbox {
    type V = Seq<TaskView>;

    open spec fn view(&self) -> Seq<TaskView> {
        self.tasks@.map_values(|t: OutboxTask| t@)
    }
}

impl Outbox {
    pub open spec fn wf(&self) -> bool {
        self.policy.wf() && tasks_wf(self@, self.policy)
    }

    /// An empty outbox whose tasks are retried by `policy`.
    pub fn new(policy: RetryPolicy) -> (r: Outbox)
        requires
            policy.wf(),
        ensures
            r.wf(),
            r@.len() == 0,
            r.policy == policy,
    {
        Outbox { tasks: Vec::new(), policy }
    }

    /// The position of the task for this issue and recipient, if there is one.
    pub fn find_task(&self, issue_id: u64, recipient: &String) -> (r: Option<usize>)
        ensures
            r is None <==> !has_task(self@, issue_id as nat, recipient@),
            r matches Some(i) ==> i < self@.len() && self@[i as int].issue_id == issue_id
                && self@[i as int].recipient == recipient@,
    {
        let mut i: usize = 0;
        while i < self.tasks.len()
            invariant
                0 <= i <= self.tasks.len(),
                forall|k: int|
                    0 <= k < i ==> !(#[trigger] self@[k].issue_id == issue_id && self@[k].recipient
                        == recipient@),
            decreases self.tasks.len() - i,
        {
            if self.tasks[i].issue_id == issue_id && self.tasks[i].recipient == *recipient {
                assert(self@[i as int].issue_id == issue_id && self@[i as int].recipient == recipient@);
                return Some(i);
            }
            i = i + 1;
        }
        None
    }

    /// Creates one pending task for `issue_id` for each confirmed
    /// subscriber of `store` that has none yet; running it again adds
    /// nothing. Returns how many tasks were created. No mail is sent here.
    pub fn fan_out(&mut self, issue_id: u64, store: &SubscriptionStore, now: u64) -> (r: usize)
        requires
            old(self).wf(),
        ensures
            final(self).wf(),
            final(self).policy == old(self).policy,
            final(self)@ == fan_out_spec(old(self)@, issue_id as nat, store@.subscribers, now as nat),
            r == final(self)@.len() - old(self)@.len(),
    {
        let ghost start = self@;
        let ghost subs = store@.subscribers;
        let start_len = self.tasks.len();
        let mut i: usize = 0;
        while i < store.subscribers.len()
            invariant
                self.wf(),
                self.policy == old(self).policy,
                start == old(self)@,
                start_len == start.len(),
                subs == store@.subscribers,
                0 <= i <= subs.len(),
                self@ == fan_out_spec(start, issue_id as nat, subs.take(i as int), now as nat),
                self@.len() >= start_len,
            decreases subs.len() - i,
        {
            proof {
                assert(subs.take(i as int + 1).drop_last() =~= subs.take(i as int));
                assert(subs.take(i as int + 1).last() == subs[i as int]);
            }
            if store.subscribers[i].status == SubscriberStatus::Confirmed {
                let found = self.find_task(issue_id, &store.subscribers[i].email);
                if found.is_none() {
                    let id = self.tasks.len();
                    let recipient = store.subscribers[i].email.clone();
                    let ghost before = self@;
                    self.tasks.push(
                        OutboxTask {
                            id,
                            issue_id,
                            recipient,
                            status: TaskStatus::Pending,
                            attempt_count: 0,
                            next_attempt_at: now,
                            claimed_at: now,
                            last_error: None,
                        },
                    );
                    proof {
                        assert(self@ =~= before.push(
                            new_task(id as nat, issue_id as nat, subs[i as int].email, now as nat),
                        ));
                        assert forall|a: int, b: int|
                            0 <= a < b < self@.len() implies !(#[trigger] self@[a].issue_id
                                == #[trigger] self@[b].issue_id && self@[a].recipient
                                == self@[b].recipient) by {
                            if b == self@.len() - 1 && self@[a].issue_id == self@[b].issue_id
                                && self@[a].recipient == self@[b].recipient {
                                assert(before[a].issue_id == issue_id && before[a].recipient
                                    == subs[i as int].email);
                            }
                        }
                    }
                }
            }
            i = i + 1;
        }
        proof {
            assert(subs.take(subs.len() as int) =~= subs);
        }
        self.tasks.len() - start_len
    }

    /// Claims the first due task in dispatch order (earliest retry time,
    /// then lowest id) by moving it from pending to in flight. Returns its
    /// position, or `None` when no task is due.
    pub fn claim_next(&mut self, now: u64) -> (r: Option<usize>)
        requires
            old(self).wf(),
        ensures
            final(self).wf(),
            final(self).policy == old(self).policy,
            r is None <==> (forall|j: int| 0 <= j < old(self)@.len() ==> !is_due(#[trigger] old(self)@[j], now as nat)),
            r is None ==> final(self)@ == old(self)@,
            r matches Some(i) ==> {
                &&& i < old(self)@.len()
                &&& is_due(old(self)@[i as int], now as nat)
                &&& forall|j: int|
                    0 <= j < old(self)@.len() && is_due(#[trigger] old(self)@[j], now as nat)
                        ==> precedes(old(self)@[i as int], old(self)@[j])
                &&& final(self)@ == old(self)@.update(i as int, claimed(old(self)@[i as int], now as nat))
            },
    {
        let mut best: Option<usize> = None;
        let mut i: usize = 0;
        while i < self.tasks.len()
            invariant
                self.wf(),
                0 <= i <= self.tasks.len(),
                best is None ==> forall|j: int| 0 <= j < i ==> !is_due(#[trigger] self@[j], now as nat),
                best matches Some(b) ==> b < i && is_due(self@[b as int], now as nat) && forall|j: int|
                    0 <= j < i && is_due(#[trigger] self@[j], now as nat) ==> precedes(self@[b as int], self@[j]),
            decreases self.tasks.len() - i,
        {
            let t = &self.tasks[i];
            if t.status == TaskStatus::Pending && t.next_attempt_at <= now {
                match best {
                    None => {
                        best = Some(i);
                    },
                    Some(b) => {
                        if t.next_attempt_at < self.tasks[b].next_attempt_at {
                            best = Some(i);
                        }
                    },
                }
            }
            i = i + 1;
        }
        match best {
            None => None,
            Some(b) => {
                let ghost before = self@;
                self.tasks[b].status = TaskStatus::InFlight;
                self.tasks[b].claimed_at = now;
                proof {
                    assert(self@ =~= before.update(b as int, claimed(before[b as int], now as nat)));
                }
                Some(b)
            },
        }
    }

    /// Records what the gateway reported for the task at `i`. Only a task
    /// that is in flight is changed (a task reclaimed meanwhile is left
    /// alone); returns whether it was.
    pub fn complete(&mut self, i: usize, outcome: SendOutcome, now: u64, jitter: u64) -> (r: bool)
        requires
            old(self).wf(),
            i < old(self)@.len(),
            now <= MAX_CLOCK,
        ensures
            final(self).wf(),
            final(self).policy == old(self).policy,
            r == (old(self)@[i as int].status == TaskStatus::InFlight),
            r ==> final(self)@ == old(self)@.update(
                i as int,
                after_send(old(self)@[i as int], outcome@, now as nat, jitter as nat, old(self).policy),
            ),
            !r ==> final(self)@ == old(self)@,
    {
        if self.tasks[i].status != TaskStatus::InFlight {
            return false;
        }
        let ghost before = self@;
        let ghost out = outcome@;
        match outcome {
            SendOutcome::Delivered => {
                self.tasks[i].status = TaskStatus::Sent;
            },
            SendOutcome::Permanent(e) => {
                self.tasks[i].status = TaskStatus::Failed;
                self.tasks[i].last_error = Some(e);
            },
            SendOutcome::Transient(e) => {
                let n = self.tasks[i].attempt_count + 1;
                if n < self.policy.max_attempts {
                    let delay = self.policy.backoff_delay(n, jitter);
                    self.tasks[i].status = TaskStatus::Pending;
                    self.tasks[i].next_attempt_at = now + delay;
                } else {
                    self.tasks[i].status = TaskStatus::DeadLettered;
                }
                self.tasks[i].attempt_count = n;
                self.tasks[i].last_error = Some(e);
            },
        }
        proof {
            assert(self@ =~= before.update(
                i as int,
                after_send(before[i as int], out, now as nat, jitter as nat, self.policy),
            ));
        }
        true
    }

    /// Sends back to pending every in-flight task claimed `lease` or more
    /// milliseconds before `now`: its worker is taken to have crashed.
    pub fn reclaim_expired(&mut self, now: u64, lease: u64)
        requires
            old(self).wf(),
        ensures
            final(self).wf(),
            final(self).policy == old(self).policy,
            final(self)@.len() == old(self)@.len(),
            forall|j: int|
                0 <= j < old(self)@.len() ==> #[trigger] final(self)@[j] == reclaimed(
                    old(self)@[j],
                    now as nat,
                    lease as nat,
                ),
    {
        let ghost start = self@;
        let mut i: usize = 0;
        while i < self.tasks.len()
            invariant
                self.wf(),
                self.policy == old(self).policy,
                start == old(self)@,
                self@.len() == start.len(),
                0 <= i <= self@.len(),
                forall|j: int| 0 <= j < i ==> #[trigger] self@[j] == reclaimed(start[j], now as nat, lease as nat),
                forall|j: int| i <= j < self@.len() ==> #[trigger] self@[j] == start[j],
            decreases self@.len() - i,
        {
            let t = &self.tasks[i];
            if t.status == TaskStatus::InFlight && t.claimed_at <= now && now - t.claimed_at >= lease {
                let ghost before = self@;
                self.tasks[i].status = TaskStatus::Pending;
                proof {
                    assert(self@ =~= before.update(i as int, reclaimed(before[i as int], now as nat, lease as nat)));
                }
            }
            i = i + 1;
        }
    }
}

} // verus!

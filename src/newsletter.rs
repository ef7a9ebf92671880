use vstd::prelude::*;
use crate::idempotency::{
    after_claim, after_finish, claim_outcome, has_key, key_at, records_wf, IdempotencyGuard,
    KeyClaim, PublishResponse, RecordView,
};
use crate::outbox::{
    claimed, count_confirmed, count_for_issue, fan_out_spec, is_due, lemma_fan_out_count,
    lemma_fan_out_shape, precedes, after_send, reclaimed, Outbox, RetryPolicy, SendOutcome,
    TaskStatus, TaskView, MAX_CLOCK,
};
use crate::subscription::{
    ConfirmOutcome, StoreView, SubscribeError, SubscriberView, SubscriptionStore,
};

verus! {

/// Status code recorded for an accepted publish request.
pub const ACCEPTED: u16 = 202;

/// A newsletter issue; never changed once added.
pub struct NewsletterIssue {
    pub id: usize,
    pub title: String,
    pub html: String,
    pub text: String,
    pub created_at: u64,
}

/// Why a publish request was not carried out.
#[derive(PartialEq, Eq, Structural, Clone, Copy, Debug)]
pub enum PublishError {
    /// No issue has this id.
    UnknownIssue,
    /// Another request with the same key is still running; retry later.
    Conflict,
}

/// The answer a publish request gets when it fans `issue_id` out over the
/// store now.
pub open spec fn fan_out_response(
    tasks: Seq<TaskView>,
    subs: Seq<SubscriberView>,
    issue_id: nat,
    now: nat,
) -> PublishResponse {
    PublishResponse {
        status_code: ACCEPTED,
        tasks_created: (fan_out_spec(tasks, issue_id, subs, now).len() - tasks.len()) as u64,
    }
}

/// The first publish of an issue that has no task yet, under a key never
/// used, creates exactly one task per confirmed subscriber; afterwards the
/// key answers every request with the recorded response, and taking it
/// again changes nothing, so no further fan-out runs.
pub proof fn lemma_publish_fans_out_once(
    tasks: Seq<TaskView>,
    records: Seq<RecordView>,
    store: StoreView,
    issue_id: nat,
    key: Seq<char>,
    now: nat,
    later: nat,
)
    requires
        store.wf(),
        records_wf(records),
        !has_key(records, key),
        count_for_issue(tasks, issue_id) == 0,
    ensures
        ({
            let resp = fan_out_response(tasks, store.subscribers, issue_id, now);
            let after = fan_out_spec(tasks, issue_id, store.subscribers, now);
            let recorded = after_finish(after_claim(records, key, issue_id, now), key, resp);
            &&& claim_outcome(records, key) == KeyClaim::Acquired
            &&& count_for_issue(after, issue_id) == count_confirmed(store.subscribers)
            &&& records_wf(recorded)
            &&& claim_outcome(recorded, key) == KeyClaim::Cached(resp)
            &&& after_claim(recorded, key, issue_id, later) == recorded
        }),
{
    lemma_fan_out_count(tasks, issue_id, store.subscribers, now);
    let resp = fan_out_response(tasks, store.subscribers, issue_id, now);
    let claimed = after_claim(records, key, issue_id, now);
    let last = records.len() as int;
    assert(claimed[last].key == key);
    assert(has_key(claimed, key));
    let j = key_at(claimed, key);
    if j != last {
        assert(records[j].key == key);
    }
    let recorded = after_finish(claimed, key, resp);
    assert(recorded[last].key == key);
    assert(has_key(recorded, key));
    let j2 = key_at(recorded, key);
    if j2 != last {
        assert(records[j2].key == key);
    }
    assert forall|a: int, b: int| 0 <= a < b < recorded.len() implies #[trigger] recorded[a].key
        != #[trigger] recorded[b].key by {
        if b == last {
            assert(records[a].key != key);
        }
    }
}

/// A claimed task together with what is to be sent for it.
pub struct Delivery {
    pub task: usize,
    pub recipient: String,
    pub subject: String,
    pub html: String,
    pub text: String,
}

/// The whole service: subscribers, issues, the outbox and the guard of
/// publish requests.
pub struct Newsletter {
    pub store: SubscriptionStore,
    pub outbox: Outbox,
    pub guard: IdempotencyGuard,
    pub issues: Vec<NewsletterIssue>,
}

impl Newsletter {
    pub open spec fn wf(&self) -> bool {
        &&& self.store.wf()
        &&& self.outbox.wf()
        &&& self.guard.wf()
        &&& forall|i: int| 0 <= i < self.issues@.len() ==> #[trigger] self.issues@[i].id == i
        &&& forall|j: int|
            0 <= j < self.outbox@.len() ==> #[trigger] self.outbox@[j].issue_id < self.issues@.len()
    }

    /// An empty service whose deliveries are retried by `policy`.
    pub fn new(policy: RetryPolicy) -> (r: Newsletter)
        requires
            policy.wf(),
        ensures
            r.wf(),
            r.store@.subscribers.len() == 0,
            r.store@.tokens.len() == 0,
            r.outbox@.len() == 0,
            r.outbox.policy == policy,
            r.guard@.len() == 0,
            r.issues@.len() == 0,
    {
        Newsletter {
            store: SubscriptionStore::new(),
            outbox: Outbox::new(policy),
            guard: IdempotencyGuard::new(),
            issues: Vec::new(),
        }
    }

    /// See `SubscriptionStore::subscribe`.
    pub fn subscribe(&mut self, email: String, name: String, token: String, now: u64) -> (r: Result<usize, SubscribeError>)
        requires
            old(self).wf(),
        ensures
            final(self).wf(),
            final(self).outbox == old(self).outbox,
            final(self).guard == old(self).guard,
            final(self).issues == old(self).issues,
            match old(self).store@.subscribe_error(email@, name@, token@) {
                Some(e) => r == Err::<usize, SubscribeError>(e) && final(self).store@ == old(self).store@,
                None => r == Ok::<usize, SubscribeError>(old(self).store@.subscribers.len() as usize)
                    && final(self).store@ == old(self).store@.add_pending(email@, name@, token@, now as nat),
            },
    {
        self.store.subscribe(email, name, token, now)
    }

    /// See `SubscriptionStore::confirm`.
    pub fn confirm(&mut self, token: &String) -> (r: ConfirmOutcome)
        requires
            old(self).wf(),
        ensures
            final(self).wf(),
            final(self).outbox == old(self).outbox,
            final(self).guard == old(self).guard,
            final(self).issues == old(self).issues,
            r == old(self).store@.confirm_outcome(token@),
            final(self).store@ == old(self).store@.after_confirm(token@),
    {
        self.store.confirm(token)
    }

    /// Adds an issue and returns its id.
    pub fn add_issue(&mut self, title: String, html: String, text: String, now: u64) -> (r: usize)
        requires
            old(self).wf(),
        ensures
            final(self).wf(),
            final(self).store == old(self).store,
            final(self).outbox == old(self).outbox,
            final(self).guard == old(self).guard,
            r == old(self).issues@.len(),
            final(self).issues@.len() == old(self).issues@.len() + 1,
            forall|i: int| 0 <= i < r ==> #[trigger] final(self).issues@[i] == old(self).issues@[i],
            final(self).issues@[r as int].title@ == title@,
            final(self).issues@[r as int].html@ == html@,
            final(self).issues@[r as int].text@ == text@,
            final(self).issues@[r as int].created_at == now,
    {
        let id = self.issues.len();
        self.issues.push(NewsletterIssue { id, title, html, text, created_at: now });
        id
    }

    /// Publishes an issue under an idempotency key. The first request with
    /// a key fans the issue out over the confirmed subscribers and records
    /// its answer; a later request with that key gets the recorded answer
    /// and changes nothing, or `Conflict` while the first has not answered.
    pub fn publish(&mut self, issue_id: u64, key: String, now: u64) -> (r: Result<PublishResponse, PublishError>)
        requires
            old(self).wf(),
        ensures
            final(self).wf(),
            final(self).store == old(self).store,
            final(self).issues == old(self).issues,
            final(self).outbox.policy == old(self).outbox.policy,
            issue_id >= old(self).issues@.len() ==> {
                &&& r == Err::<PublishResponse, PublishError>(PublishError::UnknownIssue)
                &&& final(self).outbox@ == old(self).outbox@
                &&& final(self).guard@ == old(self).guard@
            },
            issue_id < old(self).issues@.len() ==> match claim_outcome(old(self).guard@, key@) {
                KeyClaim::Cached(resp) => {
                    &&& r == Ok::<PublishResponse, PublishError>(resp)
                    &&& final(self).outbox@ == old(self).outbox@
                    &&& final(self).guard@ == old(self).guard@
                },
                KeyClaim::Conflict => {
                    &&& r == Err::<PublishResponse, PublishError>(PublishError::Conflict)
                    &&& final(self).outbox@ == old(self).outbox@
                    &&& final(self).guard@ == old(self).guard@
                },
                KeyClaim::Acquired => {
                    let resp = fan_out_response(old(self).outbox@, old(self).store@.subscribers, issue_id as nat, now as nat);
                    &&& r == Ok::<PublishResponse, PublishError>(resp)
                    &&& final(self).outbox@ == fan_out_spec(
                        old(self).outbox@,
                        issue_id as nat,
                        old(self).store@.subscribers,
                        now as nat,
                    )
                    &&& final(self).guard@ == after_finish(
                        after_claim(old(self).guard@, key@, issue_id as nat, now as nat),
                        key@,
                        resp,
                    )
                },
            },
    {
        if issue_id as usize >= self.issues.len() || issue_id > usize::MAX as u64 {
            return Err(PublishError::UnknownIssue);
        }
        let ghost k = key@;
        let ghost old_outbox = self.outbox;
        let ghost old_guard = self.guard@;
        match self.guard.begin(key.clone(), issue_id, now) {
            KeyClaim::Cached(resp) => Ok(resp),
            KeyClaim::Conflict => Err(PublishError::Conflict),
            KeyClaim::Acquired => {
                let created = self.outbox.fan_out(issue_id, &self.store, now);
                proof {
                    lemma_fan_out_shape(old_outbox@, issue_id as nat, self.store@.subscribers, now as nat);
                    assert forall|j: int| 0 <= j < self.outbox@.len() implies #[trigger] self.outbox@[j].issue_id
                        < self.issues@.len() by {
                        if j < old_outbox@.len() {
                            assert(self.outbox@[j] == old_outbox@[j]);
                        }
                    }
                }
                let resp = PublishResponse { status_code: ACCEPTED, tasks_created: created as u64 };
                assert(resp == fan_out_response(old_outbox@, self.store@.subscribers, issue_id as nat, now as nat));
                self.guard.finish(&key, resp);
                Ok(resp)
            },
        }
    }

    /// Claims the next due task, as `Outbox::claim_next` does, and hands
    /// out its recipient and the content of its issue for sending.
    pub fn claim_delivery(&mut self, now: u64) -> (r: Option<Delivery>)
        requires
            old(self).wf(),
        ensures
            final(self).wf(),
            final(self).store == old(self).store,
            final(self).guard == old(self).guard,
            final(self).issues == old(self).issues,
            final(self).outbox.policy == old(self).outbox.policy,
            r is None <==> (forall|j: int|
                0 <= j < old(self).outbox@.len() ==> !is_due(#[trigger] old(self).outbox@[j], now as nat)),
            r is None ==> final(self).outbox@ == old(self).outbox@,
            r matches Some(d) ==> {
                let t = old(self).outbox@[d.task as int];
                let issue = old(self).issues@[t.issue_id as int];
                &&& d.task < old(self).outbox@.len()
                &&& is_due(t, now as nat)
                &&& forall|j: int|
                    0 <= j < old(self).outbox@.len() && is_due(#[trigger] old(self).outbox@[j], now as nat)
                        ==> precedes(t, old(self).outbox@[j])
                &&& final(self).outbox@ == old(self).outbox@.update(d.task as int, claimed(t, now as nat))
                &&& d.recipient@ == t.recipient
                &&& d.subject@ == issue.title@
                &&& d.html@ == issue.html@
                &&& d.text@ == issue.text@
            },
    {
        let ghost before = self.outbox@;
        match self.outbox.claim_next(now) {
            None => None,
            Some(i) => {
                proof {
                    assert forall|j: int| 0 <= j < self.outbox@.len() implies #[trigger] self.outbox@[j].issue_id
                        < self.issues@.len() by {
                        assert(self.outbox@[j].issue_id == before[j].issue_id);
                    }
                }
                let issue_id = self.outbox.tasks[i].issue_id;
                assert(self.outbox@[i as int].issue_id == before[i as int].issue_id);
                assert(before[i as int].issue_id < self.issues@.len());
                let n: usize = self.issues.len();
                assert(issue_id < n);
                let issue = &self.issues[issue_id as usize];
                Some(
                    Delivery {
                        task: i,
                        recipient: self.outbox.tasks[i].recipient.clone(),
                        subject: issue.title.clone(),
                        html: issue.html.clone(),
                        text: issue.text.clone(),
                    },
                )
            },
        }
    }

    /// Records what the gateway reported for a claimed task, as
    /// `Outbox::complete` does.
    pub fn record_delivery(&mut self, task: usize, outcome: SendOutcome, now: u64, jitter: u64) -> (r: bool)
        requires
            old(self).wf(),
            task < old(self).outbox@.len(),
            now <= MAX_CLOCK,
        ensures
            final(self).wf(),
            final(self).store == old(self).store,
            final(self).guard == old(self).guard,
            final(self).issues == old(self).issues,
            final(self).outbox.policy == old(self).outbox.policy,
            r == (old(self).outbox@[task as int].status == TaskStatus::InFlight),
            r ==> final(self).outbox@ == old(self).outbox@.update(
                task as int,
                after_send(
                    old(self).outbox@[task as int],
                    outcome@,
                    now as nat,
                    jitter as nat,
                    old(self).outbox.policy,
                ),
            ),
            !r ==> final(self).outbox@ == old(self).outbox@,
    {
        let ghost before = self.outbox@;
        let r = self.outbox.complete(task, outcome, now, jitter);
        proof {
            assert forall|j: int| 0 <= j < self.outbox@.len() implies #[trigger] self.outbox@[j].issue_id
                < self.issues@.len() by {
                assert(self.outbox@[j].issue_id == before[j].issue_id);
            }
        }
        r
    }

    /// Sends expired claims back to pending, as `Outbox::reclaim_expired`
    /// does.
    pub fn reclaim_expired(&mut self, now: u64, lease: u64)
        requires
            old(self).wf(),
        ensures
            final(self).wf(),
            final(self).store == old(self).store,
            final(self).guard == old(self).guard,
            final(self).issues == old(self).issues,
            final(self).outbox.policy == old(self).outbox.policy,
            final(self).outbox@.len() == old(self).outbox@.len(),
            forall|j: int|
                0 <= j < old(self).outbox@.len() ==> #[trigger] final(self).outbox@[j] == reclaimed(
                    old(self).outbox@[j],
                    now as nat,
                    lease as nat,
                ),
    {
        let ghost before = self.outbox@;
        self.outbox.reclaim_expired(now, lease);
        proof {
            assert forall|j: int| 0 <= j < self.outbox@.len() implies #[trigger] self.outbox@[j].issue_id
                < self.issues@.len() by {
                assert(self.outbox@[j] == reclaimed(before[j], now as nat, lease as nat));
            }
        }
    }
}

} // verus!

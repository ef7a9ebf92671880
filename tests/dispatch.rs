use zerocool::newsletter::Newsletter;
use zerocool::outbox::{Outbox, RetryPolicy, SendOutcome, TaskStatus};
use zerocool::subscription::SubscriptionStore;

fn confirmed_store(emails: &[&str]) -> SubscriptionStore {
    let mut store = SubscriptionStore::new();
    for (i, e) in emails.iter().enumerate() {
        let token = format!("tok{}", i);
        store
            .subscribe(e.to_string(), format!("N{}", i), token.clone(), 0)
            .unwrap();
        store.confirm(&token);
    }
    store
}

#[test]
fn backoff_doubles_up_to_the_ceiling() {
    let p = RetryPolicy::standard();
    assert_eq!(p.max_attempts, 5);
    // a jitter of 250 is the middle of 0..=500: no shift
    assert_eq!(p.backoff_delay(1, 250), 1000);
    assert_eq!(p.backoff_delay(2, 250), 2000);
    assert_eq!(p.backoff_delay(3, 250), 4000);
    assert_eq!(p.backoff_delay(6, 250), 32000);
    assert_eq!(p.backoff_delay(7, 250), 60000);
    assert_eq!(p.backoff_delay(40, 250), 60000);
    assert_eq!(p.backoff_delay(0, 250), 1000);
    // jitter moves the delay by at most 250 either way
    assert_eq!(p.backoff_delay(1, 0), 750);
    assert_eq!(p.backoff_delay(1, 500), 1250);
    assert_eq!(p.backoff_delay(1, 501), 750);
    assert_eq!(p.backoff_delay(7, u64::MAX), 60000 - 250 + (u64::MAX % 501));
}

#[test]
fn rerunning_fan_out_creates_no_duplicates() {
    let store = confirmed_store(&["a@x.com", "b@x.com"]);
    let mut outbox = Outbox::new(RetryPolicy::standard());
    assert_eq!(outbox.fan_out(7, &store, 10), 2);
    assert_eq!(outbox.fan_out(7, &store, 20), 0);
    assert_eq!(outbox.tasks.len(), 2);
    assert_eq!(outbox.tasks[0].recipient, "a@x.com");
    assert_eq!(outbox.tasks[1].recipient, "b@x.com");
    assert_eq!(outbox.tasks[0].next_attempt_at, 10);
    assert_eq!(outbox.tasks[1].status, TaskStatus::Pending);
    assert_eq!(outbox.tasks[1].attempt_count, 0);
    // another issue gets its own tasks
    assert_eq!(outbox.fan_out(8, &store, 30), 2);
    assert_eq!(outbox.tasks.len(), 4);
    assert_eq!(outbox.find_task(8, &"b@x.com".to_string()), Some(3));
    assert_eq!(outbox.find_task(9, &"b@x.com".to_string()), None);
}

#[test]
fn fan_out_skips_pending_subscribers() {
    let mut store = confirmed_store(&["a@x.com"]);
    store
        .subscribe("p@x.com".to_string(), "P".to_string(), "ptok".to_string(), 0)
        .unwrap();
    let mut outbox = Outbox::new(RetryPolicy::standard());
    assert_eq!(outbox.fan_out(1, &store, 0), 1);
    store.confirm(&"ptok".to_string());
    assert_eq!(outbox.fan_out(1, &store, 5), 1);
    assert_eq!(outbox.tasks[1].recipient, "p@x.com");
}

#[test]
fn transient_failures_end_dead_lettered() {
    let store = confirmed_store(&["a@x.com"]);
    let mut outbox = Outbox::new(RetryPolicy::standard());
    outbox.fan_out(1, &store, 100);
    let mut previous = outbox.tasks[0].next_attempt_at;
    for attempt in 1..=5u32 {
        let now = outbox.tasks[0].next_attempt_at;
        assert_eq!(outbox.claim_next(now), Some(0));
        assert_eq!(outbox.tasks[0].status, TaskStatus::InFlight);
        let done = outbox.complete(0, SendOutcome::Transient(format!("timeout {}", attempt)), now, 250);
        assert!(done);
        assert_eq!(outbox.tasks[0].attempt_count, attempt);
        if attempt < 5 {
            assert_eq!(outbox.tasks[0].status, TaskStatus::Pending);
            assert!(outbox.tasks[0].next_attempt_at > previous);
            previous = outbox.tasks[0].next_attempt_at;
        }
    }
    assert_eq!(outbox.tasks[0].status, TaskStatus::DeadLettered);
    assert_eq!(outbox.tasks[0].attempt_count, 5);
    assert_eq!(outbox.tasks[0].last_error, Some("timeout 5".to_string()));
    // 100 + 1000 + 2000 + 4000 + 8000
    assert_eq!(outbox.tasks[0].next_attempt_at, 15100);
    assert_eq!(outbox.claim_next(u64::MAX), None);
}

#[test]
fn retry_is_not_due_before_its_time() {
    let store = confirmed_store(&["a@x.com"]);
    let mut outbox = Outbox::new(RetryPolicy::standard());
    outbox.fan_out(1, &store, 0);
    assert_eq!(outbox.claim_next(0), Some(0));
    outbox.complete(0, SendOutcome::Transient("busy".to_string()), 0, 0);
    assert_eq!(outbox.tasks[0].next_attempt_at, 750);
    assert_eq!(outbox.claim_next(749), None);
    assert_eq!(outbox.claim_next(750), Some(0));
}

#[test]
fn permanent_failure_is_not_retried() {
    let store = confirmed_store(&["a@x.com"]);
    let mut outbox = Outbox::new(RetryPolicy::standard());
    outbox.fan_out(1, &store, 0);
    outbox.claim_next(0);
    assert!(outbox.complete(0, SendOutcome::Permanent("no such mailbox".to_string()), 3, 0));
    assert_eq!(outbox.tasks[0].status, TaskStatus::Failed);
    assert_eq!(outbox.tasks[0].attempt_count, 0);
    assert_eq!(outbox.tasks[0].last_error, Some("no such mailbox".to_string()));
    assert_eq!(outbox.claim_next(1_000_000), None);
    // a task no longer in flight is left alone
    assert!(!outbox.complete(0, SendOutcome::Delivered, 4, 0));
    assert_eq!(outbox.tasks[0].status, TaskStatus::Failed);
}

#[test]
fn crashed_claim_is_reclaimed_and_delivered() {
    let store = confirmed_store(&["a@x.com"]);
    let mut outbox = Outbox::new(RetryPolicy::standard());
    outbox.fan_out(1, &store, 0);
    assert_eq!(outbox.claim_next(10), Some(0));
    // the worker crashed: nobody completes the task
    assert_eq!(outbox.claim_next(20), None);
    outbox.reclaim_expired(20_009, 20_000);
    assert_eq!(outbox.tasks[0].status, TaskStatus::InFlight);
    outbox.reclaim_expired(20_010, 20_000);
    assert_eq!(outbox.tasks[0].status, TaskStatus::Pending);
    assert_eq!(outbox.claim_next(20_010), Some(0));
    assert!(outbox.complete(0, SendOutcome::Delivered, 20_011, 0));
    assert_eq!(outbox.tasks[0].status, TaskStatus::Sent);
    assert_eq!(outbox.tasks[0].recipient, "a@x.com");
}

#[test]
fn claims_follow_retry_time_then_id() {
    let store = confirmed_store(&["a@x.com", "b@x.com", "c@x.com"]);
    let mut outbox = Outbox::new(RetryPolicy::standard());
    outbox.fan_out(1, &store, 0);
    // push task 0 back to 750
    outbox.claim_next(0);
    outbox.complete(0, SendOutcome::Transient("x".to_string()), 0, 0);
    assert_eq!(outbox.claim_next(1000), Some(1));
    assert_eq!(outbox.claim_next(1000), Some(2));
    assert_eq!(outbox.claim_next(1000), Some(0));
    assert_eq!(outbox.claim_next(1000), None);
}

#[test]
fn service_dispatch_reads_issue_of_task() {
    let mut app = Newsletter::new(RetryPolicy::standard());
    app.subscribe("a@x.com".to_string(), "A".to_string(), "T".to_string(), 0)
        .unwrap();
    app.confirm(&"T".to_string());
    let issue = app.add_issue("Title".to_string(), "<p>hi</p>".to_string(), "hi".to_string(), 1);
    app.publish(issue as u64, "k".to_string(), 2).unwrap();
    assert!(app.claim_delivery(1).is_none());
    let d = app.claim_delivery(2).unwrap();
    assert_eq!(d.task, 0);
    assert_eq!(d.recipient, "a@x.com");
    assert_eq!(d.subject, "Title");
    assert_eq!(d.html, "<p>hi</p>");
    assert_eq!(d.text, "hi");
    assert_eq!(app.outbox.tasks[0].status, TaskStatus::InFlight);
    assert!(app.claim_delivery(3).is_none());
    app.reclaim_expired(100, 50);
    assert_eq!(app.outbox.tasks[0].status, TaskStatus::Pending);
    let again = app.claim_delivery(100).unwrap();
    assert!(app.record_delivery(again.task, SendOutcome::Delivered, 101, 0));
    assert_eq!(app.outbox.tasks[0].status, TaskStatus::Sent);
    assert!(!app.record_delivery(again.task, SendOutcome::Delivered, 102, 0));
}

use zerocool::idempotency::{IdempotencyGuard, KeyClaim, PublishResponse};
use zerocool::newsletter::{Newsletter, PublishError};
use zerocool::outbox::RetryPolicy;

fn with_subscribers(confirmed: usize, pending: usize) -> Newsletter {
    let mut app = Newsletter::new(RetryPolicy::standard());
    for i in 0..confirmed {
        let token = format!("c{}", i);
        app.subscribe(format!("c{}@x.com", i), format!("C{}", i), token.clone(), 0)
            .unwrap();
        app.confirm(&token);
    }
    for i in 0..pending {
        app.subscribe(format!("p{}@x.com", i), format!("P{}", i), format!("p{}", i), 0)
            .unwrap();
    }
    app
}

#[test]
fn publishing_twice_with_one_key_fans_out_once() {
    let mut app = with_subscribers(3, 1);
    let issue = app.add_issue("Issue 1".to_string(), "<b>1</b>".to_string(), "1".to_string(), 0);
    let first = app.publish(issue as u64, "k1".to_string(), 10);
    let second = app.publish(issue as u64, "k1".to_string(), 11);
    assert_eq!(app.outbox.tasks.len(), 3);
    assert_eq!(first, second);
    assert_eq!(first, Ok(PublishResponse { status_code: 202, tasks_created: 3 }));
    assert_eq!(app.guard.records.len(), 1);
}

#[test]
fn publishing_many_times_keeps_one_fan_out() {
    let mut app = with_subscribers(2, 0);
    let issue = app.add_issue("I".to_string(), "h".to_string(), "t".to_string(), 0);
    let first = app.publish(issue as u64, "key".to_string(), 0).unwrap();
    for n in 1..10u64 {
        assert_eq!(app.publish(issue as u64, "key".to_string(), n), Ok(first));
    }
    assert_eq!(app.outbox.tasks.len(), 2);
}

#[test]
fn a_new_key_for_the_same_issue_adds_no_task() {
    let mut app = with_subscribers(2, 0);
    let issue = app.add_issue("I".to_string(), "h".to_string(), "t".to_string(), 0);
    app.publish(issue as u64, "a".to_string(), 0).unwrap();
    let again = app.publish(issue as u64, "b".to_string(), 1);
    assert_eq!(again, Ok(PublishResponse { status_code: 202, tasks_created: 0 }));
    assert_eq!(app.outbox.tasks.len(), 2);
}

#[test]
fn publish_while_key_is_held_is_a_conflict() {
    let mut app = with_subscribers(1, 0);
    let issue = app.add_issue("I".to_string(), "h".to_string(), "t".to_string(), 0);
    assert_eq!(app.guard.begin("held".to_string(), issue as u64, 0), KeyClaim::Acquired);
    assert_eq!(app.publish(issue as u64, "held".to_string(), 1), Err(PublishError::Conflict));
    assert!(app.outbox.tasks.is_empty());
}

#[test]
fn publish_of_unknown_issue_is_refused() {
    let mut app = with_subscribers(1, 0);
    assert_eq!(app.publish(0, "k".to_string(), 0), Err(PublishError::UnknownIssue));
    assert_eq!(app.publish(u64::MAX, "k".to_string(), 0), Err(PublishError::UnknownIssue));
    assert!(app.guard.records.is_empty());
    assert!(app.outbox.tasks.is_empty());
}

#[test]
fn guard_answers_by_key() {
    let mut guard = IdempotencyGuard::new();
    let resp = PublishResponse { status_code: 202, tasks_created: 4 };
    assert_eq!(guard.begin("k".to_string(), 1, 0), KeyClaim::Acquired);
    assert_eq!(guard.begin("k".to_string(), 1, 1), KeyClaim::Conflict);
    assert!(guard.finish(&"k".to_string(), resp));
    assert_eq!(guard.begin("k".to_string(), 1, 2), KeyClaim::Cached(resp));
    let other = PublishResponse { status_code: 202, tasks_created: 9 };
    assert!(!guard.finish(&"k".to_string(), other));
    assert!(!guard.finish(&"missing".to_string(), other));
    assert_eq!(guard.begin("k".to_string(), 1, 3), KeyClaim::Cached(resp));
    assert_eq!(guard.find_key(&"k".to_string()), Some(0));
    assert_eq!(guard.records.len(), 1);
}

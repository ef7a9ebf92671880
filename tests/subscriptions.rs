use zerocool::newsletter::Newsletter;
use zerocool::outbox::RetryPolicy;
use zerocool::routes::{confirm, Parameters};
use zerocool::subscription::{
    is_valid_email, ConfirmOutcome, SubscribeError, SubscriberStatus, SubscriptionStore,
};

fn service() -> Newsletter {
    Newsletter::new(RetryPolicy::standard())
}

#[test]
fn subscriptions_subscribe_returns_a_200_for_valid_form_data() {
    let mut app = service();
    let r = app.subscribe(
        "ursula_le_guin@gmail.com".to_string(),
        "le guin".to_string(),
        "token-1".to_string(),
        0,
    );
    assert_eq!(r, Ok(0));
    let saved = &app.store.subscribers[0];
    assert_eq!(saved.email, "ursula_le_guin@gmail.com");
    assert_eq!(saved.name, "le guin");
    assert_eq!(saved.status, SubscriberStatus::PendingConfirmation);
}

#[test]
fn subscriptions_subscribe_returns_a_400_when_fields_are_present_but_invalid() {
    let test_cases = vec![
        ("", "ursula_le_quin@gmail.com", "empty name"),
        ("Ursula", "", "empty email"),
        ("Ursula", "not-an-email", "invalid email"),
    ];
    for (name, email, description) in test_cases {
        let mut app = service();
        let r = app.subscribe(email.to_string(), name.to_string(), "t".to_string(), 0);
        let status = match r {
            Ok(_) => 200,
            Err(e) => e.status_code(),
        };
        assert_eq!(
            400, status,
            "The API did not return a 400 Bad Rquest when the payload was {}.",
            description
        );
        assert!(app.store.subscribers.is_empty());
        assert!(app.store.tokens.is_empty());
    }
}

#[test]
fn empty_name_and_bad_email_report_distinct_errors() {
    let mut app = service();
    let r = app.subscribe("".to_string(), "".to_string(), "t".to_string(), 0);
    assert_eq!(r, Err(SubscribeError::InvalidName));
    let r = app.subscribe("nope".to_string(), "N".to_string(), "t".to_string(), 0);
    assert_eq!(r, Err(SubscribeError::InvalidEmail));
}

#[test]
fn subscribe_then_confirm_twice() {
    let mut app = service();
    let id = app
        .subscribe("a@x.com".to_string(), "A".to_string(), "T".to_string(), 5)
        .unwrap();
    assert_eq!(app.store.tokens[0].token, "T");
    assert_eq!(app.store.tokens[0].subscriber_id, id);
    assert_eq!(app.store.tokens[0].issued_at, 5);
    assert!(!app.store.tokens[0].consumed);

    let first = app.confirm(&"T".to_string());
    assert_eq!(first, ConfirmOutcome::Confirmed);
    assert_eq!(app.store.subscribers[id].status, SubscriberStatus::Confirmed);
    assert!(app.store.tokens[0].consumed);

    let second = app.confirm(&"T".to_string());
    assert_eq!(second, ConfirmOutcome::AlreadyConfirmed);
    assert_eq!(app.store.subscribers[id].status, SubscriberStatus::Confirmed);
    assert!(app.store.tokens[0].consumed);
    assert_eq!(app.store.subscribers.len(), 1);
    assert_eq!(app.store.tokens.len(), 1);
}

#[test]
fn unknown_token_is_not_found_and_changes_nothing() {
    let mut store = SubscriptionStore::new();
    store
        .subscribe("b@y.org".to_string(), "B".to_string(), "good".to_string(), 1)
        .unwrap();
    assert_eq!(store.confirm(&"bad".to_string()), ConfirmOutcome::TokenNotFound);
    assert_eq!(store.subscribers[0].status, SubscriberStatus::PendingConfirmation);
    assert!(!store.tokens[0].consumed);

    let mut empty = SubscriptionStore::new();
    assert_eq!(empty.confirm(&"".to_string()), ConfirmOutcome::TokenNotFound);
    assert!(empty.subscribers.is_empty());
}

#[test]
fn duplicate_email_and_token_are_refused() {
    let mut app = service();
    app.subscribe("a@x.com".to_string(), "A".to_string(), "T1".to_string(), 0)
        .unwrap();
    let again = app.subscribe("a@x.com".to_string(), "A2".to_string(), "T2".to_string(), 1);
    assert_eq!(again, Err(SubscribeError::EmailTaken));
    assert_eq!(SubscribeError::EmailTaken.status_code(), 409);
    let reused = app.subscribe("c@x.com".to_string(), "C".to_string(), "T1".to_string(), 1);
    assert_eq!(reused, Err(SubscribeError::TokenTaken));
    assert_eq!(SubscribeError::TokenTaken.status_code(), 409);
    assert_eq!(app.store.subscribers.len(), 1);
    assert_eq!(app.store.tokens.len(), 1);
    let second = app.subscribe("c@x.com".to_string(), "C".to_string(), "T2".to_string(), 2);
    assert_eq!(second, Ok(1));
    assert_eq!(app.store.subscribers[1].id, 1);
    assert_eq!(app.store.subscribers[1].created_at, 2);
}

#[test]
fn confirm_through_link_parameters() {
    let mut app = service();
    app.subscribe("d@z.net".to_string(), "D".to_string(), "abc123".to_string(), 0)
        .unwrap();
    let params = Parameters { subscription_token: "abc123".to_string() };
    let outcome = confirm(&mut app, &params);
    assert_eq!(outcome, ConfirmOutcome::Confirmed);
    assert_eq!(outcome.status_code(), 200);
    assert_eq!(confirm(&mut app, &params).status_code(), 200);
    let missing = Parameters { subscription_token: "zzz".to_string() };
    assert_eq!(confirm(&mut app, &missing), ConfirmOutcome::TokenNotFound);
    assert_eq!(ConfirmOutcome::TokenNotFound.status_code(), 401);
}

#[test]
fn email_syntax() {
    assert!(is_valid_email("a@x.com"));
    assert!(is_valid_email("ursula_le_guin@gmail.com"));
    assert!(is_valid_email("a@b"));
    assert!(!is_valid_email(""));
    assert!(!is_valid_email("not-an-email"));
    assert!(!is_valid_email("@x.com"));
    assert!(!is_valid_email("a@"));
    assert!(!is_valid_email("a@@x.com"));
    assert!(!is_valid_email("a@x@y"));
    assert!(!is_valid_email("a b@x.com"));
    assert!(!is_valid_email("a@x.com\n"));
}

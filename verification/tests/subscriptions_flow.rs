use zero2prod::domain::{NewSubscriber, SubscriberEmail, SubscriberName};
use zero2prod::store::Store;
use zero2prod::subscriptions::{
    generate_subscription_token, insert_subscriber, store_token, subscribe, FormData,
    SubscribeError,
};
use zero2prod::transport::Transport;

fn valid_form() -> FormData {
    FormData { email: "ursula@example.com".to_string(), name: "Ursula Le Guin".to_string() }
}

fn parsed(form: FormData) -> NewSubscriber {
    NewSubscriber::try_from(form).expect("form is valid")
}

#[test]
fn subscribing_records_a_pending_subscriber_and_sends_the_link() {
    let mut store = Store::new();
    let mut transport = Transport::new();

    let response =
        subscribe(&mut store, &mut transport, valid_form(), "https://news.example.com")
            .expect("subscription succeeds");
    assert_eq!(response.status, 200);
    assert!(response.headers.is_empty());
    assert!(response.body.is_empty());

    assert_eq!(store.subscriptions.len(), 1);
    let sub = &store.subscriptions[0];
    assert_eq!(sub.email, "ursula@example.com");
    assert_eq!(sub.name, "Ursula Le Guin");
    assert!(!sub.confirmed);

    assert_eq!(store.tokens.len(), 1);
    let token = &store.tokens[0];
    assert_eq!(token.subscriber_id, sub.id);
    assert_eq!(token.token.len(), 25);
    assert!(token.token.chars().all(|c| c.is_ascii_alphanumeric()));

    assert_eq!(transport.calls.len(), 1);
    let call = &transport.calls[0];
    assert_eq!(call.recipient, "ursula@example.com");
    assert_eq!(call.title, "Welcome!");
    let link = format!(
        "https://news.example.com/subscriptions/confirm?subscription_token={}",
        token.token
    );
    assert!(call.html_content.contains(&link));
    assert!(call.text_content.contains(&link));
}

#[test]
fn invalid_forms_are_rejected_with_a_400() {
    let mut store = Store::new();
    let mut transport = Transport::new();

    let bad_email = FormData { email: "not-an-email".to_string(), name: "Fine Name".to_string() };
    match subscribe(&mut store, &mut transport, bad_email, "https://x") {
        Err(e @ SubscribeError::ValidationError(_)) => {
            assert_eq!(e.status_code(), 400);
            if let SubscribeError::ValidationError(m) = e {
                assert_eq!(m, "not-an-email is not a valid subscriber email.");
            }
        }
        _ => panic!("a malformed email must be rejected"),
    }

    let bad_name = FormData { email: "a@example.com".to_string(), name: "for/bidden".to_string() };
    match subscribe(&mut store, &mut transport, bad_name, "https://x") {
        Err(SubscribeError::ValidationError(m)) => {
            assert_eq!(m, "for/bidden is not a valid subscriber name.");
        }
        _ => panic!("a forbidden name must be rejected"),
    }

    assert!(store.subscriptions.is_empty());
    assert!(store.tokens.is_empty());
    assert!(transport.calls.is_empty());
}

#[test]
fn a_rejected_form_leaves_the_store_wholly_unchanged() {
    let mut store = Store::new();
    store
        .add_confirmed_subscriber("old@example.com".to_string(), "Old Timer".to_string())
        .expect("fresh");
    let mut transport = Transport::new();

    let bad = FormData { email: "not-an-email".to_string(), name: "Fine Name".to_string() };
    assert!(subscribe(&mut store, &mut transport, bad, "https://x").is_err());

    // The rejection deleted nothing: the roster is exactly as before.
    assert_eq!(store.subscriptions.len(), 1);
    assert_eq!(store.subscriptions[0].email, "old@example.com");
    assert!(store.tokens.is_empty());
    assert!(transport.calls.is_empty());
}

#[test]
fn a_failed_confirmation_email_rolls_the_subscription_back() {
    let mut store = Store::new();
    store
        .add_confirmed_subscriber("old@example.com".to_string(), "Old Timer".to_string())
        .expect("fresh");
    let mut transport = Transport::new();
    transport.fail_for("ursula@example.com".to_string());

    match subscribe(&mut store, &mut transport, valid_form(), "https://x") {
        Err(e @ SubscribeError::UnexpectedError(_)) => {
            assert_eq!(e.status_code(), 500);
            if let SubscribeError::UnexpectedError(m) = e {
                assert_eq!(m, "Failed to send a confirmation email");
            }
        }
        _ => panic!("the failed send must surface"),
    }

    // The send was attempted, but neither the subscriber nor the token
    // survived the rollback; the pre-existing roster stands untouched.
    assert_eq!(transport.calls.len(), 1);
    assert_eq!(store.subscriptions.len(), 1);
    assert_eq!(store.subscriptions[0].email, "old@example.com");
    assert!(store.tokens.is_empty());
}

#[test]
fn subscribing_preserves_the_existing_roster() {
    let mut store = Store::new();
    store
        .add_confirmed_subscriber("old@example.com".to_string(), "Old Timer".to_string())
        .expect("fresh");
    let mut transport = Transport::new();

    subscribe(&mut store, &mut transport, valid_form(), "https://x").expect("subscribe");

    // The pre-existing row is untouched; the new pending subscriber is
    // appended after it.
    assert_eq!(store.subscriptions.len(), 2);
    assert_eq!(store.subscriptions[0].email, "old@example.com");
    assert!(store.subscriptions[0].confirmed);
    assert_eq!(store.subscriptions[1].email, "ursula@example.com");
    assert!(!store.subscriptions[1].confirmed);
}

#[test]
fn a_taken_email_surfaces_as_an_unexpected_error() {
    let mut store = Store::new();
    store
        .add_confirmed_subscriber("ursula@example.com".to_string(), "Already Here".to_string())
        .expect("fresh");
    let mut transport = Transport::new();

    match subscribe(&mut store, &mut transport, valid_form(), "https://x") {
        Err(SubscribeError::UnexpectedError(m)) => {
            assert_eq!(m, "Failed to insert new subscriber in the database");
        }
        _ => panic!("the unique email constraint must surface"),
    }
    // Nothing was written or sent; the existing row stands.
    assert_eq!(store.subscriptions.len(), 1);
    assert_eq!(store.subscriptions[0].email, "ursula@example.com");
    assert!(store.tokens.is_empty());
    assert!(transport.calls.is_empty());
}

#[test]
fn tokens_are_25_alphanumeric_characters() {
    let token = generate_subscription_token();
    assert_eq!(token.chars().count(), 25);
    assert!(token.chars().all(|c| c.is_ascii_alphanumeric()));
    // Two draws almost surely differ; equality would mean the generator
    // is not advancing at all.
    let other = generate_subscription_token();
    assert_ne!(token, other);
}

#[test]
fn duplicate_emails_and_tokens_are_refused() {
    let mut store = Store::new();
    let ns = parsed(valid_form());
    let id = insert_subscriber(&mut store, &ns).expect("first insert");
    assert!(insert_subscriber(&mut store, &ns).is_err(), "the email is taken");

    store_token(&mut store, id, "token-1").expect("first token");
    assert!(store_token(&mut store, id, "token-1").is_err(), "the token is taken");
    store_token(&mut store, id, "token-2").expect("a different token");
    assert_eq!(store.tokens.len(), 2);
}

#[test]
fn try_from_validates_name_before_email() {
    let both_bad = FormData { email: "bad".to_string(), name: "   ".to_string() };
    match NewSubscriber::try_from(both_bad) {
        Err(m) => assert_eq!(m, "    is not a valid subscriber name."),
        Ok(_) => panic!("blank names must be rejected"),
    }

    let ns = parsed(valid_form());
    assert_eq!(ns.email.as_ref(), "ursula@example.com");
    assert_eq!(ns.name.as_ref(), "Ursula Le Guin");
}

#[test]
fn subscriber_names_follow_the_rules() {
    assert!(SubscriberName::parse("Ursula".to_string()).is_ok());
    assert!(SubscriberName::parse("".to_string()).is_err());
    assert!(SubscriberName::parse("   ".to_string()).is_err());
    assert!(SubscriberName::parse("a".repeat(256)).is_ok());
    assert!(SubscriberName::parse("a".repeat(257)).is_err());
    for c in ['/', '(', ')', '"', '<', '>', '\\', '{', '}'] {
        assert!(SubscriberName::parse(format!("name{}", c)).is_err());
    }
}

#[test]
fn subscriber_emails_follow_the_validator() {
    assert!(SubscriberEmail::parse("ursula@example.com".to_string()).is_ok());
    assert!(SubscriberEmail::parse("".to_string()).is_err());
    assert!(SubscriberEmail::parse("missing-at-sign.com".to_string()).is_err());
    assert!(SubscriberEmail::parse("@missing-user.com".to_string()).is_err());
    match SubscriberEmail::parse("broken".to_string()) {
        Err(m) => assert_eq!(m, "broken is not a valid subscriber email."),
        Ok(_) => panic!("an address without a domain must be rejected"),
    }
    let ok = SubscriberEmail::parse("a@b.com".to_string()).expect("valid");
    assert_eq!(ok.as_ref(), "a@b.com");
}

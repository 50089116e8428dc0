use zero2prod::idempotency::{claim, save, ClaimOutcome, IdempotencyKey};
use zero2prod::publish::{publish_newsletter, FormData, PublishIssueError};
use zero2prod::response::HttpResponse;
use zero2prod::store::Store;

fn form(key: &str) -> FormData {
    FormData {
        title: "T".to_string(),
        text_content: "plain".to_string(),
        html_content: "<p>html</p>".to_string(),
        idempotency_key: key.to_string(),
    }
}

fn store_with_confirmed(emails: &[&str]) -> Store {
    let mut store = Store::new();
    for (i, email) in emails.iter().enumerate() {
        store
            .add_confirmed_subscriber(email.to_string(), format!("Subscriber {}", i))
            .expect("fresh email");
    }
    store
}

fn assert_see_other(resp: &HttpResponse) {
    assert_eq!(resp.status, 303);
    assert_eq!(resp.headers.len(), 1);
    assert_eq!(resp.headers[0].name, "Location");
    assert_eq!(resp.headers[0].value, "/admin/newsletters");
    assert!(resp.body.is_empty());
}

#[test]
fn publishing_twice_with_same_key_replays_the_response() {
    let mut store = store_with_confirmed(&["a@example.com", "b@example.com"]);
    let first = publish_newsletter(&mut store, 7, form("key-1"), 1000).expect("first publish");
    let second = publish_newsletter(&mut store, 7, form("key-1"), 2000).expect("second publish");

    // Byte-identical responses: status, header sequence, body.
    assert_eq!(first.status, second.status);
    assert_eq!(first.headers.len(), second.headers.len());
    for (h1, h2) in first.headers.iter().zip(second.headers.iter()) {
        assert_eq!(h1.name, h2.name);
        assert_eq!(h1.value, h2.value);
    }
    assert_eq!(first.body, second.body);
    assert_see_other(&second);

    // Exactly one issue row and one fan-out, regardless of submission count.
    assert_eq!(store.issues.len(), 1);
    assert_eq!(store.issues[0].title, "T");
    assert_eq!(store.issues[0].published_at, 1000);
    assert_eq!(store.queue.len(), 2);
}

#[test]
fn different_actors_with_identical_key_are_independent() {
    let mut store = store_with_confirmed(&["a@example.com"]);
    let r1 = publish_newsletter(&mut store, 1, form("shared-key"), 10).expect("actor 1");
    let r2 = publish_newsletter(&mut store, 2, form("shared-key"), 20).expect("actor 2");
    assert_see_other(&r1);
    assert_see_other(&r2);

    // Each actor's submission was claimed and resolved separately.
    assert_eq!(store.issues.len(), 2);
    assert_eq!(store.idempotency.len(), 2);
    assert_eq!(store.queue.len(), 2);
}

#[test]
fn concurrent_submissions_have_a_single_winner() {
    let mut store = store_with_confirmed(&["a@example.com", "b@example.com"]);
    let key = IdempotencyKey::try_from("retry-key".to_string()).expect("valid key");

    // Three concurrent copies race for the claim: one acquires it.
    let uow = match claim(&mut store, 9, &key).expect("first claim") {
        ClaimOutcome::Acquired(uow) => uow,
        ClaimOutcome::AlreadyResolved(_) => panic!("nothing was resolved yet"),
    };
    assert!(claim(&mut store, 9, &key).is_err(), "second claimant sees the conflict");
    assert!(claim(&mut store, 9, &key).is_err(), "third claimant sees the conflict");

    // Only the winner executes the business mutation.
    let mut uow = uow;
    let issue_id = zero2prod::publish::insert_newsletter_issue(
        &mut store,
        &mut uow,
        "T".to_string(),
        "text".to_string(),
        "html".to_string(),
        5,
    );
    zero2prod::publish::enqueue_delivery_tasks(&store, &mut uow);
    let response = zero2prod::response::see_other("/admin/newsletters");
    let response = save(&mut store, uow, response);
    assert_eq!(response.status, 303);
    assert_eq!(store.issues.len(), 1);
    assert_eq!(store.issues[0].issue_id, issue_id);
    assert_eq!(store.queue.len(), 2);

    // A late retry now observes the resolved record.
    match claim(&mut store, 9, &key).expect("claim after resolution") {
        ClaimOutcome::AlreadyResolved(saved) => assert_see_other(&saved),
        ClaimOutcome::Acquired(_) => panic!("the key must not be claimable again"),
    }
    assert_eq!(store.issues.len(), 1);
}

#[test]
fn publishing_against_an_unresolved_claim_surfaces_the_conflict() {
    let mut store = store_with_confirmed(&["a@example.com"]);
    let key = IdempotencyKey::try_from("in-flight".to_string()).expect("valid key");

    // Another request has claimed the key and is still processing.
    let uow = match claim(&mut store, 5, &key).expect("claim") {
        ClaimOutcome::Acquired(uow) => uow,
        ClaimOutcome::AlreadyResolved(_) => panic!("nothing was resolved yet"),
    };

    match publish_newsletter(&mut store, 5, form("in-flight"), 0) {
        Err(PublishIssueError::Conflict) => {}
        _ => panic!("the concurrent claim must surface as a conflict"),
    }
    assert_eq!(store.issues.len(), 0, "the conflicting request executed nothing");
    drop(uow);
}

#[test]
fn publishing_with_no_confirmed_recipients_enqueues_nothing() {
    let mut store = Store::new();
    let response = publish_newsletter(&mut store, 1, form("empty-roster"), 0).expect("publish");
    assert_see_other(&response);
    assert_eq!(store.issues.len(), 1);
    assert!(store.queue.is_empty());
}

#[test]
fn an_aborted_claim_leaves_the_key_retryable() {
    let mut store = store_with_confirmed(&["a@example.com"]);
    let key = IdempotencyKey::try_from("crashed-key".to_string()).expect("valid key");

    // The first attempt claims the key and then fails mid-flight: the
    // rollback removes the placeholder with everything else.
    let uow = match claim(&mut store, 3, &key).expect("first claim") {
        ClaimOutcome::Acquired(uow) => uow,
        ClaimOutcome::AlreadyResolved(_) => panic!("nothing was resolved yet"),
    };
    zero2prod::idempotency::abort(&mut store, uow);
    assert_eq!(store.idempotency.len(), 0);
    assert_eq!(store.issues.len(), 0);

    // A retry re-executes cleanly.
    let response = publish_newsletter(&mut store, 3, form("crashed-key"), 8).expect("retry");
    assert_see_other(&response);
    assert_eq!(store.issues.len(), 1);
}

#[test]
fn malformed_idempotency_keys_are_rejected() {
    let mut store = store_with_confirmed(&["a@example.com"]);

    match publish_newsletter(&mut store, 1, form(""), 0) {
        Err(PublishIssueError::Validation(m)) => {
            assert_eq!(m, "The idempotency key cannot be empty");
        }
        _ => panic!("an empty key must be rejected"),
    }

    let long_key = "k".repeat(50);
    match publish_newsletter(&mut store, 1, form(&long_key), 0) {
        Err(PublishIssueError::Validation(m)) => {
            assert_eq!(m, "The idempotency key must be shorter than 50 characters");
        }
        _ => panic!("an over-long key must be rejected"),
    }

    // Nothing was claimed or executed.
    assert_eq!(store.idempotency.len(), 0);
    assert_eq!(store.issues.len(), 0);
    assert_eq!(store.queue.len(), 0);
}

#[test]
fn forty_nine_character_keys_are_accepted() {
    let mut store = store_with_confirmed(&["a@example.com"]);
    let key = "k".repeat(49);
    publish_newsletter(&mut store, 1, form(&key), 0).expect("49 characters are acceptable");
    assert_eq!(store.issues.len(), 1);
}

use zero2prod::issue_delivery_worker::{
    delete_task, dequeue_task, dispatch_all_pending, get_issue, release_task, try_execute_task,
    ExecutionOutcome, WorkerLog,
};
use zero2prod::publish::{publish_newsletter, FormData};
use zero2prod::store::Store;
use zero2prod::transport::Transport;

fn form(key: &str) -> FormData {
    FormData {
        title: "T".to_string(),
        text_content: "plain".to_string(),
        html_content: "<p>html</p>".to_string(),
        idempotency_key: key.to_string(),
    }
}

fn published_store(emails: &[&str]) -> Store {
    let mut store = Store::new();
    for (i, email) in emails.iter().enumerate() {
        store
            .add_confirmed_subscriber(email.to_string(), format!("Subscriber {}", i))
            .expect("fresh email");
    }
    publish_newsletter(&mut store, 1, form("publish-key"), 42).expect("publish");
    store
}

#[test]
fn draining_delivers_once_per_confirmed_recipient() {
    let mut store = published_store(&["a@example.com", "b@example.com", "c@example.com"]);
    let mut transport = Transport::new();
    let mut log = WorkerLog::new();

    let count = dispatch_all_pending(&mut store, &mut transport, &mut log);

    assert_eq!(count, 3);
    assert!(store.queue.is_empty());
    assert_eq!(transport.calls.len(), 3);
    // Each recipient was attempted exactly once.
    let mut recipients: Vec<&str> =
        transport.calls.iter().map(|c| c.recipient.as_str()).collect();
    recipients.sort();
    assert_eq!(recipients, vec!["a@example.com", "b@example.com", "c@example.com"]);
    for call in &transport.calls {
        assert_eq!(call.title, "T");
        assert_eq!(call.html_content, "<p>html</p>");
        assert_eq!(call.text_content, "plain");
    }
    assert!(log.invalid_skipped.is_empty());
    assert!(log.delivery_failures.is_empty());

    // Re-running the drain is a no-op: the empty-queue outcome at once.
    let count_again = dispatch_all_pending(&mut store, &mut transport, &mut log);
    assert_eq!(count_again, 0);
    assert_eq!(transport.calls.len(), 3);
    assert_eq!(
        try_execute_task(&mut store, &mut transport, &mut log),
        ExecutionOutcome::EmptyQueue
    );
}

#[test]
fn concurrent_workers_never_claim_the_same_row() {
    let mut store = published_store(&["a@example.com", "b@example.com"]);

    // Two worker instances interleave: each claims a row before either
    // deletes one. The skip-locked claim hands them different rows.
    let claim_one = dequeue_task(&mut store).expect("first row");
    let claim_two = dequeue_task(&mut store).expect("second row");
    assert_ne!(claim_one.recipient, claim_two.recipient);
    assert!(dequeue_task(&mut store).is_none(), "everything is locked");

    // Both finish; the queue is empty and nothing was processed twice.
    delete_task(&mut store, claim_one);
    delete_task(&mut store, claim_two);
    assert!(store.queue.is_empty());
}

#[test]
fn a_released_row_becomes_claimable_again() {
    let mut store = published_store(&["a@example.com"]);

    let claim = dequeue_task(&mut store).expect("row");
    assert!(dequeue_task(&mut store).is_none(), "the row is locked");
    let recipient = claim.recipient.clone();
    release_task(&mut store, claim);

    let reclaimed = dequeue_task(&mut store).expect("row is claimable again");
    assert_eq!(reclaimed.recipient, recipient);
    delete_task(&mut store, reclaimed);
    assert!(store.queue.is_empty());
}

#[test]
fn malformed_stored_addresses_are_skipped_not_sent() {
    let mut store = Store::new();
    store
        .add_confirmed_subscriber("not-an-email".to_string(), "Corrupt Row".to_string())
        .expect("fresh");
    store
        .add_confirmed_subscriber("ok@example.com".to_string(), "Fine".to_string())
        .expect("fresh");
    publish_newsletter(&mut store, 1, form("skip-key"), 0).expect("publish");
    assert_eq!(store.queue.len(), 2);

    let mut transport = Transport::new();
    let mut log = WorkerLog::new();
    let count = dispatch_all_pending(&mut store, &mut transport, &mut log);

    // The malformed recipient got no transport call, was logged, and its
    // row is gone; the subsequent recipient was still processed.
    assert_eq!(count, 2);
    assert!(store.queue.is_empty());
    assert_eq!(transport.calls.len(), 1);
    assert_eq!(transport.calls[0].recipient, "ok@example.com");
    assert_eq!(log.invalid_skipped.len(), 1);
    assert_eq!(log.invalid_skipped[0].recipient, "not-an-email");
    assert!(log.delivery_failures.is_empty());
}

#[test]
fn transient_send_failures_are_logged_and_never_retried() {
    let mut store = published_store(&["down@example.com", "up@example.com"]);
    let mut transport = Transport::new();
    transport.fail_for("down@example.com".to_string());
    let mut log = WorkerLog::new();

    let count = dispatch_all_pending(&mut store, &mut transport, &mut log);

    // The failing recipient was attempted (the call is recorded), the
    // failure logged, and the row removed all the same.
    assert_eq!(count, 2);
    assert!(store.queue.is_empty());
    assert_eq!(transport.calls.len(), 2);
    assert_eq!(log.delivery_failures.len(), 1);
    assert_eq!(log.delivery_failures[0].recipient, "down@example.com");
    assert!(log.invalid_skipped.is_empty());

    // No retry: draining again performs no further attempt.
    let again = dispatch_all_pending(&mut store, &mut transport, &mut log);
    assert_eq!(again, 0);
    assert_eq!(transport.calls.len(), 2);
}

#[test]
fn completed_tasks_look_up_their_issue_content() {
    let mut store = published_store(&["a@example.com"]);
    let claim = dequeue_task(&mut store).expect("row");
    let issue = get_issue(&store, claim.issue_id).expect("the issue exists");
    assert_eq!(issue.title, "T");
    assert_eq!(issue.text_content, "plain");
    assert_eq!(issue.html_content, "<p>html</p>");
    assert!(get_issue(&store, claim.issue_id + 1).is_none());
    delete_task(&mut store, claim);
}

use zero2prod::newsletter::{
    basic_authentication, get_confirmed_subscribers, publish_newsletter,
    publish_newsletter_request, BodyData, Content, PublishError,
};
use zero2prod::store::Store;
use zero2prod::transport::Transport;

fn body() -> BodyData {
    BodyData {
        title: "Issue Nine".to_string(),
        content: Content { html: "<h1>Nine</h1>".to_string(), text: "Nine".to_string() },
    }
}

fn roster(entries: &[(&str, bool)]) -> Store {
    let mut store = Store::new();
    for (i, (email, confirmed)) in entries.iter().enumerate() {
        if *confirmed {
            store
                .add_confirmed_subscriber(email.to_string(), format!("Reader {}", i))
                .expect("fresh email");
        } else {
            // A pending subscriber: recorded but not yet confirmed.
            let id = store.next_subscriber_id;
            store.subscriptions.push(zero2prod::store::Subscription {
                id,
                email: email.to_string(),
                name: format!("Reader {}", i),
                confirmed: false,
            });
            store.next_subscriber_id = id + 1;
        }
    }
    store
}

#[test]
fn direct_publish_reaches_every_confirmed_subscriber() {
    let store = roster(&[
        ("a@example.com", true),
        ("pending@example.com", false),
        ("b@example.com", true),
    ]);
    let mut transport = Transport::new();

    let response = publish_newsletter(&store, &mut transport, &body()).expect("publish");
    assert_eq!(response.status, 200);

    // Confirmed subscribers only, in roster order.
    assert_eq!(transport.calls.len(), 2);
    assert_eq!(transport.calls[0].recipient, "a@example.com");
    assert_eq!(transport.calls[1].recipient, "b@example.com");
    assert_eq!(transport.calls[0].title, "Issue Nine");
    assert_eq!(transport.calls[0].html_content, "<h1>Nine</h1>");
    assert_eq!(transport.calls[0].text_content, "Nine");
}

#[test]
fn direct_publish_skips_invalid_addresses_and_continues() {
    let store = roster(&[("corrupt-address", true), ("b@example.com", true)]);
    let mut transport = Transport::new();

    publish_newsletter(&store, &mut transport, &body()).expect("publish succeeds past the skip");
    assert_eq!(transport.calls.len(), 1);
    assert_eq!(transport.calls[0].recipient, "b@example.com");
}

#[test]
fn the_first_rejected_send_aborts_the_direct_publish() {
    let store = roster(&[
        ("a@example.com", true),
        ("down@example.com", true),
        ("c@example.com", true),
    ]);
    let mut transport = Transport::new();
    transport.fail_for("down@example.com".to_string());

    match publish_newsletter(&store, &mut transport, &body()) {
        Err(PublishError::UnexpectedError(m)) => {
            assert_eq!(m, "Failed to send newsletter issue to down@example.com");
        }
        _ => panic!("the rejected send must abort the request"),
    }
    // The failing attempt is recorded; nothing after it was tried.
    assert_eq!(transport.calls.len(), 2);
    assert_eq!(transport.calls[1].recipient, "down@example.com");
}

#[test]
fn confirmed_subscribers_are_revalidated_on_read() {
    let store = roster(&[("ok@example.com", true), ("corrupt", true)]);
    let entries = get_confirmed_subscribers(&store);
    assert_eq!(entries.len(), 2);
    match &entries[0] {
        Ok(sub) => assert_eq!(sub.email.as_ref(), "ok@example.com"),
        Err(_) => panic!("a valid address parses"),
    }
    match &entries[1] {
        Err(m) => assert_eq!(m, "corrupt is not a valid subscriber email."),
        Ok(_) => panic!("a corrupt address must not parse"),
    }
}

#[test]
fn rejected_credentials_stop_the_publish_before_any_send() {
    let store = roster(&[("a@example.com", true), ("b@example.com", true)]);
    let mut transport = Transport::new();

    for bad in [None, Some("Bearer abc"), Some("Basic !!!"), Some("Basic bm9jb2xvbg==")] {
        match publish_newsletter_request(&store, &mut transport, &body(), bad) {
            Err(e @ PublishError::AuthError(_)) => {
                let challenge = e.error_response();
                assert_eq!(challenge.status, 401);
                assert_eq!(challenge.headers[0].name, "WWW-Authenticate");
            }
            _ => panic!("bad credentials must be rejected"),
        }
    }
    // No transport invocation was made for any of the rejected requests.
    assert!(transport.calls.is_empty());
}

#[test]
fn accepted_credentials_let_the_publish_fan_out() {
    let store = roster(&[("a@example.com", true), ("b@example.com", true)]);
    let mut transport = Transport::new();

    // base64 of "user:pass".
    let response =
        publish_newsletter_request(&store, &mut transport, &body(), Some("Basic dXNlcjpwYXNz"))
            .expect("authorised publish");
    assert_eq!(response.status, 200);
    assert_eq!(transport.calls.len(), 2);
    assert_eq!(transport.calls[0].recipient, "a@example.com");
    assert_eq!(transport.calls[1].recipient, "b@example.com");
}

#[test]
fn basic_credentials_are_decoded_and_split_at_the_first_colon() {
    // base64 of "user:pass"
    let creds = basic_authentication(Some("Basic dXNlcjpwYXNz")).expect("well-formed");
    assert_eq!(creds.username, "user");
    assert_eq!(creds.password, "pass");

    // base64 of "admin:pa:ss": only the first colon splits.
    let creds = basic_authentication(Some("Basic YWRtaW46cGE6c3M=")).expect("well-formed");
    assert_eq!(creds.username, "admin");
    assert_eq!(creds.password, "pa:ss");
}

#[test]
fn each_credential_defect_gets_its_own_message() {
    assert_eq!(
        basic_authentication(None).unwrap_err(),
        "The `Authorization` header was missing"
    );
    assert_eq!(
        basic_authentication(Some("Bearer abc")).unwrap_err(),
        "The authorization scheme was not `Basic`"
    );
    assert_eq!(
        basic_authentication(Some("Basic !!!")).unwrap_err(),
        "Failed to base64-decode `Basic` credentials"
    );
    // base64 of the bytes FF FE, which are not UTF-8.
    assert_eq!(
        basic_authentication(Some("Basic //4=")).unwrap_err(),
        "The decoded credential string is not valid UTF8"
    );
    // base64 of "nocolon".
    assert_eq!(
        basic_authentication(Some("Basic bm9jb2xvbg==")).unwrap_err(),
        "User and password must be provided in `Basic` auth"
    );
}

#[test]
fn error_responses_carry_the_right_status_and_challenge() {
    let unexpected = PublishError::UnexpectedError("boom".to_string());
    let resp = unexpected.error_response();
    assert_eq!(resp.status, 500);
    assert!(resp.headers.is_empty());
    assert!(resp.body.is_empty());

    let auth = PublishError::AuthError("who are you".to_string());
    let resp = auth.error_response();
    assert_eq!(resp.status, 401);
    assert_eq!(resp.headers.len(), 1);
    assert_eq!(resp.headers[0].name, "WWW-Authenticate");
    assert_eq!(resp.headers[0].value, r#"Basic realm="publish""#);
    assert!(resp.body.is_empty());
}

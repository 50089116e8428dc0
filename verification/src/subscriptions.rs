//! The subscribe flow: validate the form, record the pending subscriber
//! and a confirmation token, and hand the confirmation email to the
//! transport — all of it one transaction, so a failure at any step leaves
//! no row behind and the rest of the roster untouched.

use vstd::prelude::*;

use rand::Rng;

use crate::domain::{email_ok, name_ok, NewSubscriber, SubscriberEmail, SubscriberName};
use crate::response::{empty_response, empty_response_view, HttpResponse};
use crate::store::{
    Store, StoreView, Subscription, SubscriptionToken, SubscriptionView, TokenView,
};
use crate::transport::{fails_in, SendRequest, SendRequestView, Transport, TransportView};

verus! {

/// The subscription form.
pub struct FormData {
    pub email: String,
    pub name: String,
}

/// Why a subscription request failed.
#[derive(Debug)]
pub enum SubscribeError {
    /// The form's name or email was rejected; the message names the
    /// defect.
    ValidationError(String),
    /// The store or the transport failed mid-flight; everything the
    /// request had written is rolled back.
    UnexpectedError(String),
}

impl SubscribeError {
    /// The HTTP status code this error maps to.
    pub fn status_code(&self) -> (r: u16)
        ensures
            self matches SubscribeError::ValidationError(_) ==> r == 400,
            self matches SubscribeError::UnexpectedError(_) ==> r == 500,
    {
        match self {
            SubscribeError::ValidationError(_) => 400,
            SubscribeError::UnexpectedError(_) => 500,
        }
    }
}

impl NewSubscriber {
    /// Validates a subscription form: the name first, then the email, as
    /// the rejection messages reflect.
    pub fn try_from(f: FormData) -> (r: Result<NewSubscriber, String>)
        ensures
            r is Ok <==> name_ok(f.name@) && email_ok(f.email@),
            r matches Ok(ns) ==> ns.email@ == f.email@ && ns.name@ == f.name@,
            r matches Err(m) ==> {
                &&& (!name_ok(f.name@) ==> m@ == f.name@ + " is not a valid subscriber name."@)
                &&& (name_ok(f.name@) && !email_ok(f.email@) ==> m@ == f.email@
                    + " is not a valid subscriber email."@)
            },
    {
        let FormData { email, name } = f;
        let name = match SubscriberName::parse(name) {
            Ok(n) => n,
            Err(m) => {
                return Err(m);
            },
        };
        let email = match SubscriberEmail::parse(email) {
            Ok(e) => e,
            Err(m) => {
                return Err(m);
            },
        };
        Ok(NewSubscriber { email, name })
    }
}

/// A character of the confirmation-token alphabet: a-z, A-Z or 0-9.
pub open spec fn token_char(c: char) -> bool {
    ('a' <= c && c <= 'z') || ('A' <= c && c <= 'Z') || ('0' <= c && c <= '9')
}

/// Relies on rand's `Alphanumeric` distribution, sampled from the thread's
/// generator: every draw is uniform over a-z, A-Z, 0-9; nothing more is
/// assumed of it.
#[verifier::external_body]
fn sample_alphanumeric() -> (s: String)
    ensures
        s@.len() == 1,
        token_char(s@[0]),
{
    char::from(rand::thread_rng().sample(rand::distributions::Alphanumeric)).to_string()
}

/// Draws a fresh 25-character alphanumeric confirmation token.
pub fn generate_subscription_token() -> (t: String)
    ensures
        t@.len() == 25,
        forall|i: int| 0 <= i < t@.len() ==> token_char(#[trigger] t@[i]),
{
    let mut t = String::new();
    let mut i: usize = 0;
    while i < 25
        invariant
            0 <= i <= 25,
            t@.len() == i,
            forall|k: int| 0 <= k < i ==> token_char(#[trigger] t@[k]),
        decreases 25 - i,
    {
        let c = sample_alphanumeric();
        t.append(c.as_str());
        i += 1;
    }
    t
}

/// The confirmation link for `token` under `base_url`.
pub open spec fn confirmation_link(base_url: Seq<char>, token: Seq<char>) -> Seq<char> {
    base_url + "/subscriptions/confirm?subscription_token="@ + token
}

/// The confirmation email for `recipient`, with the link in both
/// renderings.
pub open spec fn confirmation_request(
    recipient: Seq<char>,
    base_url: Seq<char>,
    token: Seq<char>,
) -> SendRequestView {
    SendRequestView {
        recipient: recipient,
        title: "Welcome!"@,
        html_content: "Welcome to our newsletter!<br />Click <a href=\""@ + confirmation_link(
            base_url,
            token,
        ) + "\">here</a> to confirm you subscription"@,
        text_content: "Welcome to our newsletter!\nClick "@ + confirmation_link(base_url, token)
            + " to confirm you subscription"@,
    }
}

/// Builds and hands the confirmation email to the transport.
pub fn send_confirmation_email(
    transport: &mut Transport,
    new_subscriber: &NewSubscriber,
    base_url: &str,
    subscription_token: &str,
) -> (ok: bool)
    ensures
        final(transport)@.failing == old(transport)@.failing,
        final(transport)@.calls == old(transport)@.calls.push(
            confirmation_request(new_subscriber.email@, base_url@, subscription_token@),
        ),
        ok == !fails_in(old(transport)@.failing, new_subscriber.email@),
{
    let link = base_url.to_owned().concat("/subscriptions/confirm?subscription_token=").concat(
        subscription_token,
    );
    let html_body = "Welcome to our newsletter!<br />Click <a href=\"".to_owned().concat(
        link.as_str(),
    ).concat("\">here</a> to confirm you subscription");
    let text_body = "Welcome to our newsletter!\nClick ".to_owned().concat(link.as_str()).concat(
        " to confirm you subscription",
    );
    let request = SendRequest {
        recipient: new_subscriber.email.as_ref().to_owned(),
        title: "Welcome!".to_owned(),
        html_content: html_body,
        text_content: text_body,
    };
    proof {
        assert(request@ == confirmation_request(new_subscriber.email@, base_url@,
            subscription_token@));
    }
    transport.send(request)
}

/// `e` is already the email of a subscriber on the roster (the roster's
/// unique email constraint rejects a second row for it).
pub open spec fn email_taken(subs: Seq<SubscriptionView>, e: Seq<char>) -> bool {
    exists|i: int| 0 <= i < subs.len() && (#[trigger] subs[i]).email == e
}

/// Records the validated subscriber as pending confirmation, under a
/// freshly allocated id. Fails, leaving the store unchanged, when the
/// email is already on the roster.
pub fn insert_subscriber(store: &mut Store, new_subscriber: &NewSubscriber) -> (r: Result<u64, ()>)
    requires
        old(store)@.wf(),
        !email_taken(old(store)@.subscriptions, new_subscriber.email@) ==> old(
            store,
        )@.next_subscriber_id < u64::MAX,
    ensures
        final(store)@.wf(),
        final(store)@.idempotency == old(store)@.idempotency,
        final(store)@.issues == old(store)@.issues,
        final(store)@.queue == old(store)@.queue,
        final(store)@.tokens == old(store)@.tokens,
        final(store)@.next_issue_id == old(store)@.next_issue_id,
        email_taken(old(store)@.subscriptions, new_subscriber.email@) ==> {
            &&& r is Err
            &&& final(store)@ == old(store)@
        },
        !email_taken(old(store)@.subscriptions, new_subscriber.email@) ==> {
            &&& r matches Ok(id) && id == old(store)@.next_subscriber_id
            &&& final(store)@.subscriptions == old(store)@.subscriptions.push(
                SubscriptionView {
                    id: old(store)@.next_subscriber_id,
                    email: new_subscriber.email@,
                    name: new_subscriber.name@,
                    confirmed: false,
                },
            )
            &&& final(store)@.next_subscriber_id == old(store)@.next_subscriber_id + 1
        },
{
    let ghost old_view = store@;
    let email_s: String = new_subscriber.email.as_ref().to_owned();
    let mut i: usize = 0;
    let n = store.subscriptions.len();
    while i < n
        invariant
            n == store.subscriptions.len(),
            0 <= i <= n,
            old_view == old(store)@,
            old_view.wf(),
            store@ == old_view,
            email_s@ == new_subscriber.email@,
            forall|k: int|
                0 <= k < i ==> (#[trigger] old_view.subscriptions[k]).email
                    != new_subscriber.email@,
        decreases n - i,
    {
        if store.subscriptions[i].email == email_s {
            proof {
                assert(old(store)@.subscriptions[i as int].email == new_subscriber.email@);
            }
            return Err(());
        }
        i += 1;
    }
    proof {
        if email_taken(old_view.subscriptions, new_subscriber.email@) {
            let w = choose|i: int|
                0 <= i < old_view.subscriptions.len() && (#[trigger] old_view.subscriptions[i]).email
                    == new_subscriber.email@;
            assert(old_view.subscriptions[w].email != new_subscriber.email@);
        }
    }
    let id = store.next_subscriber_id;
    store.subscriptions.push(
        Subscription {
            id,
            email: new_subscriber.email.as_ref().to_owned(),
            name: new_subscriber.name.as_ref().to_owned(),
            confirmed: false,
        },
    );
    store.next_subscriber_id = id + 1;
    proof {
        assert(store@.subscriptions =~= old_view.subscriptions.push(
            SubscriptionView {
                id: id,
                email: new_subscriber.email@,
                name: new_subscriber.name@,
                confirmed: false,
            },
        ));
        assert(store@.idempotency =~= old_view.idempotency);
        assert(store@.issues =~= old_view.issues);
        assert(store@.queue =~= old_view.queue);
        assert(store@.tokens =~= old_view.tokens);
        StoreView::lemma_queue_wf_transfer(old_view, store@);
    }
    Ok(id)
}

/// `t` is already taken as a confirmation token.
pub open spec fn token_in(tokens: Seq<TokenView>, t: Seq<char>) -> bool {
    exists|i: int| 0 <= i < tokens.len() && (#[trigger] tokens[i]).token == t
}

/// Stores the confirmation token for a pending subscriber. Fails, leaving
/// the store unchanged, when the token is already taken.
pub fn store_token(store: &mut Store, subscriber_id: u64, subscription_token: &str) -> (r: Result<
    (),
    (),
>)
    requires
        old(store)@.wf(),
    ensures
        final(store)@.wf(),
        final(store)@.idempotency == old(store)@.idempotency,
        final(store)@.issues == old(store)@.issues,
        final(store)@.queue == old(store)@.queue,
        final(store)@.subscriptions == old(store)@.subscriptions,
        final(store)@.next_issue_id == old(store)@.next_issue_id,
        final(store)@.next_subscriber_id == old(store)@.next_subscriber_id,
        token_in(old(store)@.tokens, subscription_token@) ==> {
            &&& r is Err
            &&& final(store)@ == old(store)@
        },
        !token_in(old(store)@.tokens, subscription_token@) ==> {
            &&& r is Ok
            &&& final(store)@.tokens == old(store)@.tokens.push(
                TokenView { token: subscription_token@, subscriber_id: subscriber_id },
            )
        },
{
    let ghost old_view = store@;
    let token: String = subscription_token.to_owned();
    let mut i: usize = 0;
    let n = store.tokens.len();
    while i < n
        invariant
            n == store.tokens.len(),
            0 <= i <= n,
            old_view == old(store)@,
            old_view.wf(),
            store@ == old_view,
            token@ == subscription_token@,
            forall|k: int|
                0 <= k < i ==> (#[trigger] old_view.tokens[k]).token != subscription_token@,
        decreases n - i,
    {
        if store.tokens[i].token == token {
            proof {
                assert(old(store)@.tokens[i as int].token == subscription_token@);
            }
            return Err(());
        }
        i += 1;
    }
    store.tokens.push(SubscriptionToken { token, subscriber_id });
    proof {
        assert(store@.tokens =~= old_view.tokens.push(
            TokenView { token: subscription_token@, subscriber_id: subscriber_id },
        ));
        assert(store@.idempotency =~= old_view.idempotency);
        assert(store@.issues =~= old_view.issues);
        assert(store@.queue =~= old_view.queue);
        assert(store@.subscriptions =~= old_view.subscriptions);
        StoreView::lemma_queue_wf_transfer(old_view, store@);
    }
    Ok(())
}

/// The outcome of a subscribe whose form was rejected: the request is
/// refused with the validator's message and the store is left wholly
/// unchanged — nothing was inserted, sent, or deleted.
pub open spec fn subscribe_rejects_form(
    s0: StoreView,
    s1: StoreView,
    t0: TransportView,
    t1: TransportView,
    r: Result<HttpResponse, SubscribeError>,
    email: Seq<char>,
    name: Seq<char>,
) -> bool {
    &&& (r matches Err(SubscribeError::ValidationError(m)) ==> {
        &&& (!name_ok(name) ==> m@ == name + " is not a valid subscriber name."@)
        &&& (name_ok(name) && !email_ok(email) ==> m@ == email
            + " is not a valid subscriber email."@)
    })
    &&& (r matches Err(SubscribeError::ValidationError(_)))
    &&& s1 == s0
    &&& t1 == t0
}

/// The outcome of a subscribe whose form validated, for the token that was
/// drawn: the one pending row and its token are appended to the existing
/// roster together, or the store is left exactly as it was on the first
/// failure — the roster's unique email constraint, a duplicate token
/// (found before any transport call), or a rejected send. Pre-existing
/// rows are never deleted or modified.
pub open spec fn subscribe_applies(
    s0: StoreView,
    s1: StoreView,
    t0: TransportView,
    t1: TransportView,
    r: Result<HttpResponse, SubscribeError>,
    email: Seq<char>,
    name: Seq<char>,
    base_url: Seq<char>,
    token: Seq<char>,
) -> bool {
    &&& s1.idempotency == s0.idempotency
    &&& s1.issues == s0.issues
    &&& s1.queue == s0.queue
    &&& s1.next_issue_id == s0.next_issue_id
    &&& t1.failing == t0.failing
    &&& (email_taken(s0.subscriptions, email) ==> {
        &&& (r matches Err(SubscribeError::UnexpectedError(m)) && m@
            == "Failed to insert new subscriber in the database"@)
        &&& s1 == s0
        &&& t1 == t0
    })
    &&& (!email_taken(s0.subscriptions, email) ==> {
        &&& (token_in(s0.tokens, token) ==> {
            &&& (r matches Err(SubscribeError::UnexpectedError(m)) && m@
                == "Failed to store the confirmation token for a new subscriber"@)
            &&& s1 == s0
            &&& t1 == t0
        })
        &&& (!token_in(s0.tokens, token) ==> {
            &&& t1.calls == t0.calls.push(confirmation_request(email, base_url, token))
            &&& (fails_in(t0.failing, email) ==> {
                &&& (r matches Err(SubscribeError::UnexpectedError(m)) && m@
                    == "Failed to send a confirmation email"@)
                &&& s1 == s0
            })
            &&& (!fails_in(t0.failing, email) ==> {
                &&& (r matches Ok(resp) && resp@ == empty_response_view(200))
                &&& s1.subscriptions == s0.subscriptions.push(
                    SubscriptionView {
                        id: s0.next_subscriber_id,
                        email: email,
                        name: name,
                        confirmed: false,
                    },
                )
                &&& s1.tokens == s0.tokens.push(
                    TokenView { token: token, subscriber_id: s0.next_subscriber_id },
                )
                &&& s1.next_subscriber_id == s0.next_subscriber_id + 1
            })
        })
    })
}

/// The subscribe flow with the confirmation token passed in, so that the
/// contract is exact in it. [`subscribe`] draws the token and calls this.
pub fn subscribe_with_token(
    store: &mut Store,
    transport: &mut Transport,
    form: FormData,
    base_url: &str,
    token: String,
) -> (r: Result<HttpResponse, SubscribeError>)
    requires
        old(store)@.wf(),
        !email_taken(old(store)@.subscriptions, form.email@) ==> old(
            store,
        )@.next_subscriber_id < u64::MAX,
    ensures
        final(store)@.wf(),
        !(name_ok(form.name@) && email_ok(form.email@)) ==> subscribe_rejects_form(
            old(store)@,
            final(store)@,
            old(transport)@,
            final(transport)@,
            r,
            form.email@,
            form.name@,
        ),
        name_ok(form.name@) && email_ok(form.email@) ==> subscribe_applies(
            old(store)@,
            final(store)@,
            old(transport)@,
            final(transport)@,
            r,
            form.email@,
            form.name@,
            base_url@,
            token@,
        ),
{
    let ghost s0 = store@;
    let ghost email_v = form.email@;
    let ghost name_v = form.name@;
    let ghost token_v = token@;
    let new_subscriber = match NewSubscriber::try_from(form) {
        Ok(ns) => ns,
        Err(m) => {
            return Err(SubscribeError::ValidationError(m));
        },
    };
    let id = match insert_subscriber(store, &new_subscriber) {
        Ok(id) => id,
        Err(_) => {
            // The roster's unique email constraint rejected the insert;
            // nothing was written.
            return Err(
                SubscribeError::UnexpectedError(
                    "Failed to insert new subscriber in the database".to_owned(),
                ),
            );
        },
    };
    let ghost mid1 = store@;
    match store_token(store, id, token.as_str()) {
        Ok(_) => {},
        Err(_) => {
            // Roll the transaction back: the pending row disappears and
            // the id generator stands where it was.
            store.subscriptions.pop();
            store.next_subscriber_id = id;
            proof {
                lemma_rollback_pop(s0.subscriptions, mid1.subscriptions, store@.subscriptions);
                assert(store@ =~= s0);
            }
            return Err(
                SubscribeError::UnexpectedError(
                    "Failed to store the confirmation token for a new subscriber".to_owned(),
                ),
            );
        },
    }
    let ghost mid2 = store@;
    let ok = send_confirmation_email(transport, &new_subscriber, base_url, token.as_str());
    if !ok {
        // Roll the transaction back: neither the pending row nor its token
        // survives, and the id generator stands where it was.
        store.subscriptions.pop();
        store.tokens.pop();
        store.next_subscriber_id = id;
        proof {
            lemma_rollback_pop(s0.subscriptions, mid2.subscriptions, store@.subscriptions);
            lemma_rollback_pop(s0.tokens, mid2.tokens, store@.tokens);
            assert(store@ =~= s0);
        }
        return Err(SubscribeError::UnexpectedError("Failed to send a confirmation email".to_owned()));
    }
    Ok(empty_response(200))
}

/// Popping the one appended element restores the sequence it was appended
/// to.
proof fn lemma_rollback_pop<T>(before: Seq<T>, grown: Seq<T>, after: Seq<T>)
    requires
        exists|x: T| grown == before.push(x),
        after.len() == grown.len() - 1,
        forall|k: int| 0 <= k < after.len() ==> #[trigger] after[k] == grown[k],
    ensures
        after == before,
{
    let x = choose|x: T| grown == before.push(x);
    assert forall|k: int| 0 <= k < after.len() implies #[trigger] after[k] == before[k] by {
        assert(grown[k] == before.push(x)[k]);
    }
    assert(after =~= before);
}

/// The subscribe flow: validates the form, records the pending subscriber
/// with a fresh 25-character confirmation token, and hands the
/// confirmation email to the transport; the row and token stand only if
/// every step succeeded, and the rest of the roster is never touched.
pub fn subscribe(store: &mut Store, transport: &mut Transport, form: FormData, base_url: &str) -> (r:
    Result<HttpResponse, SubscribeError>)
    requires
        old(store)@.wf(),
        !email_taken(old(store)@.subscriptions, form.email@) ==> old(
            store,
        )@.next_subscriber_id < u64::MAX,
    ensures
        final(store)@.wf(),
        !(name_ok(form.name@) && email_ok(form.email@)) ==> subscribe_rejects_form(
            old(store)@,
            final(store)@,
            old(transport)@,
            final(transport)@,
            r,
            form.email@,
            form.name@,
        ),
        name_ok(form.name@) && email_ok(form.email@) ==> exists|tk: Seq<char>|
            {
                &&& tk.len() == 25
                &&& (forall|i: int| 0 <= i < tk.len() ==> token_char(#[trigger] tk[i]))
                &&& #[trigger] subscribe_applies(
                    old(store)@,
                    final(store)@,
                    old(transport)@,
                    final(transport)@,
                    r,
                    form.email@,
                    form.name@,
                    base_url@,
                    tk,
                )
            },
{
    let token = generate_subscription_token();
    let ghost tk = token@;
    let ghost email_v = form.email@;
    let ghost name_v = form.name@;
    let r = subscribe_with_token(store, transport, form, base_url, token);
    proof {
        if name_ok(name_v) && email_ok(email_v) {
            assert(subscribe_applies(old(store)@, store@, old(transport)@, transport@, r, email_v,
                name_v, base_url@, tk));
        }
    }
    r
}

} // verus!

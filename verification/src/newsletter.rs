//! The earlier publish endpoint: direct fan-out without the delivery queue.
//!
//! This variant reads the confirmed subscribers and sends the issue to each
//! of them inline, one transport call after another. A subscriber whose
//! stored address no longer validates is skipped; the first transport
//! failure aborts the whole request. The caller must present `Basic`
//! credentials: a rejected header ends the request with the 401 challenge
//! before any subscriber is read or any send attempted.

use vstd::prelude::*;

use base64::Engine;

use crate::domain::{email_ok, SubscriberEmail};
use crate::response::{empty_response, empty_response_view, Header, HttpResponse, HttpResponseView};
use crate::store::{confirmed_emails, Store, SubscriptionView};
use crate::transport::{fails_in, SendRequest, SendRequestView, Transport};

verus! {

/// The JSON body of a publish request.
pub struct BodyData {
    pub title: String,
    pub content: Content,
}

/// The issue content in both renderings.
pub struct Content {
    pub html: String,
    pub text: String,
}

/// A subscriber whose stored address still validates.
pub struct ConfirmedSubscriber {
    pub email: SubscriberEmail,
}

impl View for ConfirmedSubscriber {
    type V = Seq<char>;

    open spec fn view(&self) -> Seq<char> {
        self.email@
    }
}

/// Why a direct publish failed.
#[derive(Debug)]
pub enum PublishError {
    /// The caller's credentials were rejected.
    AuthError(String),
    /// Anything else; the message names the cause.
    UnexpectedError(String),
}

/// The challenge response for a rejected caller.
pub open spec fn auth_challenge_view() -> HttpResponseView {
    HttpResponseView {
        status: 401,
        headers: seq![
            crate::response::HeaderView {
                name: "WWW-Authenticate"@,
                value: "Basic realm=\"publish\""@,
            },
        ],
        body: Seq::empty(),
    }
}

impl PublishError {
    /// The HTTP response for this error: an internal error is opaque, a
    /// rejected caller receives the authentication challenge.
    pub fn error_response(&self) -> (r: HttpResponse)
        ensures
            self matches PublishError::UnexpectedError(_) ==> r@ == empty_response_view(500),
            self matches PublishError::AuthError(_) ==> r@ == auth_challenge_view(),
    {
        match self {
            PublishError::UnexpectedError(_) => empty_response(500),
            PublishError::AuthError(_) => {
                let mut headers: Vec<Header> = Vec::new();
                headers.push(
                    Header {
                        name: "WWW-Authenticate".to_owned(),
                        value: "Basic realm=\"publish\"".to_owned(),
                    },
                );
                let r = HttpResponse { status: 401, headers, body: Vec::new() };
                proof {
                    assert(r@.headers =~= auth_challenge_view().headers);
                    assert(r@.body =~= auth_challenge_view().body);
                }
                r
            },
        }
    }
}

/// The caller's credentials as supplied in the request.
#[derive(Debug)]
pub struct Credentials {
    pub username: String,
    pub password: String,
}

/// Mathematical value of [`Credentials`].
#[verifier::ext_equal]
pub struct CredentialsView {
    pub username: Seq<char>,
    pub password: Seq<char>,
}

impl View for Credentials {
    type V = CredentialsView;

    open spec fn view(&self) -> CredentialsView {
        CredentialsView { username: self.username@, password: self.password@ }
    }
}

/// What base64's standard alphabet decodes `s` to, if `s` is valid
/// base64; which inputs are valid and what they decode to is the
/// engine's, and a function of the text alone.
pub uninterp spec fn b64_decode(s: Seq<char>) -> Option<Seq<u8>>;

/// Relies on base64's `STANDARD` engine: decoding is deterministic in the
/// input text.
#[verifier::external_body]
fn base64_decode(s: &str) -> (r: Option<Vec<u8>>)
    ensures
        r is Some <==> b64_decode(s@) is Some,
        r matches Some(v) ==> Some(v@) == b64_decode(s@),
{
    match base64::engine::general_purpose::STANDARD.decode(s) {
        Ok(v) => Some(v),
        Err(_) => None,
    }
}

/// What `b` spells as text, if `b` is valid UTF-8; which byte sequences
/// are valid and what characters they encode is a function of the bytes
/// alone.
pub uninterp spec fn utf8_decode(b: Seq<u8>) -> Option<Seq<char>>;

/// Relies on `String::from_utf8` (std): accepts exactly the valid UTF-8
/// byte sequences and decodes them.
#[verifier::external_body]
fn string_from_utf8(b: Vec<u8>) -> (r: Option<String>)
    ensures
        r is Some <==> utf8_decode(b@) is Some,
        r matches Some(s) ==> Some(s@) == utf8_decode(b@),
{
    String::from_utf8(b).ok()
}

/// The position of the first colon in `s`, if there is one.
pub open spec fn first_colon(s: Seq<char>) -> Option<int>
    decreases s.len(),
{
    if s.len() == 0 {
        None
    } else if s[0] == ':' {
        Some(0int)
    } else {
        match first_colon(s.drop_first()) {
            Some(i) => Some(i + 1),
            None => None,
        }
    }
}

/// A scan that found the first colon at `i` (or none at all) computed
/// [`first_colon`].
proof fn lemma_first_colon_at(s: Seq<char>, i: int)
    requires
        0 <= i <= s.len(),
        forall|k: int| 0 <= k < i ==> s[k] != ':',
        i < s.len() ==> s[i] == ':',
    ensures
        i < s.len() ==> first_colon(s) == Some(i),
        i == s.len() ==> first_colon(s) is None,
    decreases s.len(),
{
    if s.len() > 0 && i > 0 {
        let rest = s.drop_first();
        assert forall|k: int| 0 <= k < i - 1 implies rest[k] != ':' by {
            assert(s[k + 1] != ':');
        }
        lemma_first_colon_at(rest, i - 1);
    }
}

/// The credential text `d` split at its first colon, as
/// [`basic_authentication`] returns it.
pub open spec fn credentials_of(d: Seq<char>) -> CredentialsView
    recommends
        first_colon(d) is Some,
{
    let i = first_colon(d)->Some_0;
    CredentialsView { username: d.subrange(0, i), password: d.subrange(i + 1, d.len() as int) }
}

/// What [`basic_authentication`] gives back for a header value: the split
/// credentials of a well-formed value, or the message naming its first
/// defect.
pub open spec fn basic_auth_outcome(
    authorization: Option<&str>,
    r: Result<Credentials, String>,
) -> bool {
    &&& (authorization is None ==> (r matches Err(m) && m@
        == "The `Authorization` header was missing"@))
    &&& (authorization matches Some(v) ==> {
        let scheme_ok = v@.len() >= 6 && v@.subrange(0, 6) == "Basic "@;
        let encoded = v@.subrange(6, v@.len() as int);
        &&& (!scheme_ok ==> (r matches Err(m) && m@
            == "The authorization scheme was not `Basic`"@))
        &&& (scheme_ok ==> {
            let decoded = b64_decode(encoded);
            &&& (decoded is None ==> (r matches Err(m) && m@
                == "Failed to base64-decode `Basic` credentials"@))
            &&& (decoded matches Some(bytes) ==> {
                let text = utf8_decode(bytes);
                &&& (text is None ==> (r matches Err(m) && m@
                    == "The decoded credential string is not valid UTF8"@))
                &&& (text matches Some(d) ==> {
                    &&& (first_colon(d) is None ==> (r matches Err(m) && m@
                        == "User and password must be provided in `Basic` auth"@))
                    &&& (first_colon(d) is Some ==> (r matches Ok(c) && c@
                        == credentials_of(d)))
                })
            })
        })
    })
}

/// The header value carries acceptable `Basic` credentials: the scheme
/// word, then base64 of valid UTF-8 holding a colon.
pub open spec fn auth_accepts(v: Seq<char>) -> bool {
    &&& v.len() >= 6
    &&& v.subrange(0, 6) == "Basic "@
    &&& (b64_decode(v.subrange(6, v.len() as int)) matches Some(bytes) && (utf8_decode(bytes)
        matches Some(d) && first_colon(d) is Some))
}

/// Extracts `Basic` credentials from the request's `Authorization` header
/// value (`None` when the request carried no such header).
///
/// The value must be the word `Basic `, then base64 of valid UTF-8 of the
/// form `user:password` — split at the first colon. Each defect is
/// reported with its own message.
pub fn basic_authentication(authorization: Option<&str>) -> (r: Result<Credentials, String>)
    ensures
        basic_auth_outcome(authorization, r),
        r is Ok <==> (authorization matches Some(v) && auth_accepts(v@)),
{
    let header_value = match authorization {
        Some(v) => v,
        None => {
            return Err("The `Authorization` header was missing".to_owned());
        },
    };
    let n = header_value.unicode_len();
    proof {
        reveal_strlit("Basic ");
    }
    let scheme_ok = n >= 6 && header_value.get_char(0) == 'B' && header_value.get_char(1) == 'a'
        && header_value.get_char(2) == 's' && header_value.get_char(3) == 'i'
        && header_value.get_char(4) == 'c' && header_value.get_char(5) == ' ';
    if !scheme_ok {
        proof {
            if header_value@.len() >= 6 && header_value@.subrange(0, 6) == "Basic "@ {
                assert(header_value@.subrange(0, 6)[0] == 'B');
                assert(header_value@.subrange(0, 6)[1] == 'a');
                assert(header_value@.subrange(0, 6)[2] == 's');
                assert(header_value@.subrange(0, 6)[3] == 'i');
                assert(header_value@.subrange(0, 6)[4] == 'c');
                assert(header_value@.subrange(0, 6)[5] == ' ');
            }
        }
        return Err("The authorization scheme was not `Basic`".to_owned());
    }
    proof {
        assert(header_value@.subrange(0, 6) =~= "Basic "@);
    }
    let base64encoded_segment = header_value.substring_char(6, n);
    let decoded_bytes = match base64_decode(base64encoded_segment) {
        Some(bytes) => bytes,
        None => {
            return Err("Failed to base64-decode `Basic` credentials".to_owned());
        },
    };
    let decoded_credentials = match string_from_utf8(decoded_bytes) {
        Some(text) => text,
        None => {
            return Err("The decoded credential string is not valid UTF8".to_owned());
        },
    };
    let d = decoded_credentials.as_str();
    match find_colon(d) {
        Some(i) => {
            let m = d.unicode_len();
            let username = d.substring_char(0, i).to_owned();
            let password = d.substring_char(i + 1, m).to_owned();
            Ok(Credentials { username, password })
        },
        None => Err("User and password must be provided in `Basic` auth".to_owned()),
    }
}

/// The position of the first colon in `d`, as [`first_colon`] gives it.
fn find_colon(d: &str) -> (r: Option<usize>)
    ensures
        r is None <==> first_colon(d@) is None,
        r matches Some(i) ==> i < d@.len() && first_colon(d@) == Some(i as int),
{
    let m = d.unicode_len();
    let mut i: usize = 0;
    while i < m
        invariant
            m == d@.len(),
            0 <= i <= m,
            forall|k: int| 0 <= k < i ==> d@[k] != ':',
        decreases m - i,
    {
        if d.get_char(i) == ':' {
            proof {
                lemma_first_colon_at(d@, i as int);
            }
            return Some(i);
        }
        i += 1;
    }
    proof {
        lemma_first_colon_at(d@, m as int);
    }
    None
}

/// One roster entry as the endpoint sees it: the validated address, or the
/// validator's message for one that no longer parses.
pub open spec fn subscriber_entry_ok(entry: Result<ConfirmedSubscriber, String>, e: Seq<char>) -> bool {
    &&& entry is Ok <==> email_ok(e)
    &&& (entry matches Ok(c) ==> c@ == e)
    &&& (entry matches Err(m) ==> m@ == e + " is not a valid subscriber email."@)
}

/// Reads the confirmed subscribers and re-validates each stored address.
pub fn get_confirmed_subscribers(store: &Store) -> (r: Vec<Result<ConfirmedSubscriber, String>>)
    requires
        store@.wf(),
    ensures
        r@.len() == confirmed_emails(store@.subscriptions).len(),
        forall|k: int|
            0 <= k < r@.len() ==> subscriber_entry_ok(
                #[trigger] r@[k],
                confirmed_emails(store@.subscriptions)[k],
            ),
{
    let mut out: Vec<Result<ConfirmedSubscriber, String>> = Vec::new();
    let n = store.subscriptions.len();
    let mut i: usize = 0;
    while i < n
        invariant
            n == store.subscriptions.len(),
            0 <= i <= n,
            store@.wf(),
            out@.len() == confirmed_emails(store@.subscriptions.subrange(0, i as int)).len(),
            forall|k: int|
                0 <= k < out@.len() ==> subscriber_entry_ok(
                    #[trigger] out@[k],
                    confirmed_emails(store@.subscriptions.subrange(0, i as int))[k],
                ),
        decreases n - i,
    {
        let ghost prev = store@.subscriptions.subrange(0, i as int);
        let sub = &store.subscriptions[i];
        if sub.confirmed {
            let entry = match SubscriberEmail::parse(sub.email.clone()) {
                Ok(e) => Ok(ConfirmedSubscriber { email: e }),
                Err(m) => Err(m),
            };
            proof {
                assert(subscriber_entry_ok(entry, store@.subscriptions[i as int].email));
            }
            out.push(entry);
        }
        i += 1;
        proof {
            let prefix = store@.subscriptions.subrange(0, i as int);
            assert(prefix.drop_last() =~= prev);
            assert(prefix.last() == store@.subscriptions[i as int - 1]);
            let ce = confirmed_emails(prefix);
            let cp = confirmed_emails(prev);
            if store@.subscriptions[i as int - 1].confirmed {
                assert(ce == cp.push(store@.subscriptions[i as int - 1].email));
            } else {
                assert(ce == cp);
            }
            assert forall|k: int| 0 <= k < out@.len() implies subscriber_entry_ok(
                #[trigger] out@[k],
                ce[k],
            ) by {
                if k < cp.len() {
                    assert(ce[k] == cp[k]);
                }
            }
        }
    }
    proof {
        assert(store@.subscriptions.subrange(0, n as int) =~= store@.subscriptions);
    }
    out
}

/// The transport invocations a direct publish performs: one per confirmed
/// subscriber with a valid address, in roster order, cut short by the
/// first send the transport rejects (that attempt is still recorded).
pub open spec fn direct_calls(
    ce: Seq<Seq<char>>,
    failing: Seq<Seq<char>>,
    title: Seq<char>,
    html: Seq<char>,
    text: Seq<char>,
) -> Seq<SendRequestView>
    decreases ce.len(),
{
    if ce.len() == 0 {
        Seq::empty()
    } else if !email_ok(ce[0]) {
        direct_calls(ce.drop_first(), failing, title, html, text)
    } else if fails_in(failing, ce[0]) {
        seq![direct_request(ce[0], title, html, text)]
    } else {
        seq![direct_request(ce[0], title, html, text)] + direct_calls(
            ce.drop_first(),
            failing,
            title,
            html,
            text,
        )
    }
}

/// The invocation for one recipient.
pub open spec fn direct_request(
    recipient: Seq<char>,
    title: Seq<char>,
    html: Seq<char>,
    text: Seq<char>,
) -> SendRequestView {
    SendRequestView { recipient: recipient, title: title, html_content: html, text_content: text }
}

/// The first valid recipient whose send the transport rejects, if any.
pub open spec fn first_failed(ce: Seq<Seq<char>>, failing: Seq<Seq<char>>) -> Option<Seq<char>>
    decreases ce.len(),
{
    if ce.len() == 0 {
        None
    } else if !email_ok(ce[0]) {
        first_failed(ce.drop_first(), failing)
    } else if fails_in(failing, ce[0]) {
        Some(ce[0])
    } else {
        first_failed(ce.drop_first(), failing)
    }
}

/// Publishes an issue by sending it directly to every confirmed
/// subscriber.
///
/// Invalid stored addresses are skipped; valid ones are attempted in
/// roster order. The first rejected send aborts the request with an
/// unexpected error naming the recipient; otherwise the request succeeds
/// with an empty 200 response.
pub fn publish_newsletter(store: &Store, transport: &mut Transport, body: &BodyData) -> (r: Result<
    HttpResponse,
    PublishError,
>)
    requires
        store@.wf(),
    ensures
        final(transport)@.failing == old(transport)@.failing,
        final(transport)@.calls == old(transport)@.calls + direct_calls(
            confirmed_emails(store@.subscriptions),
            old(transport)@.failing,
            body.title@,
            body.content.html@,
            body.content.text@,
        ),
        first_failed(confirmed_emails(store@.subscriptions), old(transport)@.failing) is None
            ==> (r matches Ok(resp) && resp@ == empty_response_view(200)),
        first_failed(confirmed_emails(store@.subscriptions), old(transport)@.failing) matches Some(
            e,
        ) ==> (r matches Err(PublishError::UnexpectedError(m)) && m@
            == "Failed to send newsletter issue to "@ + e),
{
    let ghost ce = confirmed_emails(store@.subscriptions);
    let ghost failing = old(transport)@.failing;
    let ghost title_v = body.title@;
    let ghost html_v = body.content.html@;
    let ghost text_v = body.content.text@;
    let subscribers = get_confirmed_subscribers(store);
    let n = subscribers.len();
    let mut i: usize = 0;
    proof {
        assert(ce.skip(0) =~= ce);
    }
    while i < n
        invariant
            n == subscribers.len(),
            0 <= i <= n,
            ce == confirmed_emails(store@.subscriptions),
            failing == old(transport)@.failing,
            title_v == body.title@,
            html_v == body.content.html@,
            text_v == body.content.text@,
            n == ce.len(),
            forall|k: int|
                0 <= k < n ==> subscriber_entry_ok(#[trigger] subscribers@[k], ce[k]),
            transport@.failing == failing,
            old(transport)@.calls + direct_calls(ce, failing, title_v, html_v, text_v)
                == transport@.calls + direct_calls(
                ce.skip(i as int),
                failing,
                title_v,
                html_v,
                text_v,
            ),
            first_failed(ce, failing) == first_failed(ce.skip(i as int), failing),
        decreases n - i,
    {
        let ghost suffix = ce.skip(i as int);
        proof {
            assert(suffix.len() == n - i);
            assert(suffix[0] == ce[i as int]);
            assert(suffix.drop_first() =~= ce.skip(i as int + 1));
        }
        match &subscribers[i] {
            Ok(sub) => {
                let request = SendRequest {
                    recipient: sub.email.as_ref().to_owned(),
                    title: body.title.clone(),
                    html_content: body.content.html.clone(),
                    text_content: body.content.text.clone(),
                };
                proof {
                    assert(request@ == direct_request(ce[i as int], title_v, html_v, text_v));
                }
                let ok = transport.send(request);
                if !ok {
                    let message = "Failed to send newsletter issue to ".to_owned().concat(
                        sub.email.as_ref(),
                    );
                    proof {
                        assert(first_failed(suffix, failing) == Some(ce[i as int]));
                        assert(old(transport)@.calls + direct_calls(
                            ce,
                            failing,
                            title_v,
                            html_v,
                            text_v,
                        ) =~= transport@.calls);
                        assert(transport@.calls + Seq::<SendRequestView>::empty()
                            =~= transport@.calls);
                    }
                    return Err(PublishError::UnexpectedError(message));
                }
                proof {
                    assert(direct_calls(suffix, failing, title_v, html_v, text_v) == seq![
                        direct_request(ce[i as int], title_v, html_v, text_v),
                    ] + direct_calls(ce.skip(i as int + 1), failing, title_v, html_v, text_v));
                    assert(old(transport)@.calls + direct_calls(ce, failing, title_v, html_v, text_v)
                        =~= transport@.calls + direct_calls(
                        ce.skip(i as int + 1),
                        failing,
                        title_v,
                        html_v,
                        text_v,
                    ));
                }
            },
            Err(_m) => {
                proof {
                    assert(!email_ok(ce[i as int]));
                    assert(direct_calls(suffix, failing, title_v, html_v, text_v) == direct_calls(
                        ce.skip(i as int + 1),
                        failing,
                        title_v,
                        html_v,
                        text_v,
                    ));
                }
            },
        }
        i += 1;
    }
    proof {
        assert(ce.skip(n as int).len() == 0);
        assert(transport@.calls + Seq::<SendRequestView>::empty() =~= transport@.calls);
    }
    Ok(empty_response(200))
}

/// The publish endpoint with its access control: the caller must present
/// acceptable `Basic` credentials before any subscriber is read or any
/// send attempted.
///
/// A missing or rejected `Authorization` header value yields
/// [`PublishError::AuthError`] — rendered by
/// [`PublishError::error_response`] as the 401 challenge — with the
/// transport untouched: no invocation is made or recorded. With accepted
/// credentials the request proceeds exactly as [`publish_newsletter`].
pub fn publish_newsletter_request(
    store: &Store,
    transport: &mut Transport,
    body: &BodyData,
    authorization: Option<&str>,
) -> (r: Result<HttpResponse, PublishError>)
    requires
        store@.wf(),
    ensures
        final(transport)@.failing == old(transport)@.failing,
        !(authorization matches Some(v) && auth_accepts(v@)) ==> {
            &&& (r matches Err(PublishError::AuthError(m)) && basic_auth_outcome(
                authorization,
                Err(m),
            ))
            &&& final(transport)@ == old(transport)@
        },
        (authorization matches Some(v) && auth_accepts(v@)) ==> {
            &&& final(transport)@.calls == old(transport)@.calls + direct_calls(
                confirmed_emails(store@.subscriptions),
                old(transport)@.failing,
                body.title@,
                body.content.html@,
                body.content.text@,
            )
            &&& (first_failed(confirmed_emails(store@.subscriptions), old(transport)@.failing)
                is None ==> (r matches Ok(resp) && resp@ == empty_response_view(200)))
            &&& (first_failed(confirmed_emails(store@.subscriptions), old(transport)@.failing)
                matches Some(e) ==> (r matches Err(PublishError::UnexpectedError(m)) && m@
                == "Failed to send newsletter issue to "@ + e))
        },
{
    let _credentials = match basic_authentication(authorization) {
        Ok(c) => c,
        Err(m) => {
            return Err(PublishError::AuthError(m));
        },
    };
    publish_newsletter(store, transport, body)
}

} // verus!

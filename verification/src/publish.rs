//! The publish-issue command.
//!
//! Validates the client-supplied idempotency key, claims it, and — when the
//! claim is acquired — performs the whole business operation inside the unit
//! of work: insert the newsletter issue, fan out one delivery task per
//! currently-confirmed subscriber, and save the response. A retry with the
//! same key replays the saved response verbatim and re-executes nothing.

use vstd::prelude::*;

use crate::idempotency::{
    claim, resolved_record, save, unresolved_record, valid_key, ClaimOutcome, IdempotencyKey,
    UnitOfWork,
};
use crate::response::{see_other, see_other_view, HttpResponse, HttpResponseView};
use crate::store::{
    confirmed_emails, lemma_confirmed_emails, rec_match, DeliveryTask, IssueView, NewsletterIssue,
    Store, StoreView, TaskView,
};

verus! {

/// The form submitted to publish a newsletter issue.
pub struct FormData {
    pub title: String,
    pub text_content: String,
    pub html_content: String,
    pub idempotency_key: String,
}

/// Why a publish command was rejected.
#[derive(Debug)]
pub enum PublishIssueError {
    /// The idempotency key is syntactically malformed; the message names
    /// the defect. Local and non-retryable.
    Validation(String),
    /// Another execution for the same `(actor, key)` pair is still in
    /// flight (or a crashed one was abandoned); the client may retry.
    Conflict,
}

/// The issue row created by a publish executed at `now`.
pub open spec fn published_issue(
    issue_id: u64,
    title: Seq<char>,
    text_content: Seq<char>,
    html_content: Seq<char>,
    now: u64,
) -> IssueView {
    IssueView {
        issue_id: issue_id,
        title: title,
        text_content: text_content,
        html_content: html_content,
        published_at: now,
    }
}

/// One unclaimed delivery task per recipient, in roster order.
pub open spec fn fanout_tasks(issue_id: u64, emails: Seq<Seq<char>>) -> Seq<TaskView>
    decreases emails.len(),
{
    if emails.len() == 0 {
        Seq::empty()
    } else {
        fanout_tasks(issue_id, emails.drop_last()).push(
            TaskView { issue_id: issue_id, recipient: emails.last(), claimed: false },
        )
    }
}

/// The fan-out has one task per email, in order, all unclaimed.
pub proof fn lemma_fanout_index(issue_id: u64, emails: Seq<Seq<char>>)
    ensures
        fanout_tasks(issue_id, emails).len() == emails.len(),
        forall|k: int|
            0 <= k < emails.len() ==> #[trigger] fanout_tasks(issue_id, emails)[k] == (TaskView {
                issue_id: issue_id,
                recipient: emails[k],
                claimed: false,
            }),
    decreases emails.len(),
{
    if emails.len() > 0 {
        lemma_fanout_index(issue_id, emails.drop_last());
        let ft = fanout_tasks(issue_id, emails);
        let fp = fanout_tasks(issue_id, emails.drop_last());
        assert forall|k: int| 0 <= k < emails.len() implies #[trigger] ft[k] == (TaskView {
            issue_id: issue_id,
            recipient: emails[k],
            claimed: false,
        }) by {
            if k < emails.len() - 1 {
                assert(ft[k] == fp[k]);
                assert(emails.drop_last()[k] == emails[k]);
            } else {
                assert(ft[k] == TaskView { issue_id: issue_id, recipient: emails.last(), claimed: false });
            }
        }
    }
}

/// The response a successful publish stores and returns: a redirect back to
/// the newsletter form.
pub open spec fn publish_response() -> HttpResponseView {
    see_other_view("/admin/newsletters"@)
}

/// The store transition of a publish that executed the business operation
/// (a fresh key): one resolved idempotency row, one issue row, one delivery
/// task per currently-confirmed subscriber, all visible atomically.
pub open spec fn publish_executes(
    s0: StoreView,
    s1: StoreView,
    actor_id: u64,
    title: Seq<char>,
    text_content: Seq<char>,
    html_content: Seq<char>,
    key: Seq<char>,
    now: u64,
) -> bool {
    &&& s1.idempotency == s0.idempotency.push(resolved_record(actor_id, key, publish_response()))
    &&& s1.issues == s0.issues.push(
        published_issue(s0.next_issue_id, title, text_content, html_content, now),
    )
    &&& s1.queue == s0.queue + fanout_tasks(
        s0.next_issue_id,
        confirmed_emails(s0.subscriptions),
    )
    &&& s1.subscriptions == s0.subscriptions
    &&& s1.tokens == s0.tokens
    &&& s1.next_issue_id == s0.next_issue_id + 1
    &&& s1.next_subscriber_id == s0.next_subscriber_id
}

/// Retrying a submission replays, it never re-executes: after a publish
/// executed for `(actor, key)`, the store holds the resolved record whose
/// response a retry returns verbatim (by the contract of
/// [`publish_newsletter`], which also leaves the store untouched in that
/// case), and exactly the one issue row the execution created — however
/// often the request is resubmitted.
pub proof fn lemma_duplicate_submission_replays(
    s0: StoreView,
    s1: StoreView,
    actor_id: u64,
    title: Seq<char>,
    text_content: Seq<char>,
    html_content: Seq<char>,
    key: Seq<char>,
    now: u64,
)
    requires
        s0.wf(),
        !s0.has_record(actor_id, key),
        publish_executes(s0, s1, actor_id, title, text_content, html_content, key, now),
    ensures
        s1.has_record(actor_id, key),
        s1.record(actor_id, key) == resolved_record(actor_id, key, publish_response()),
        s1.issues == s0.issues.push(
            published_issue(s0.next_issue_id, title, text_content, html_content, now),
        ),
{
    let n = s0.idempotency.len() as int;
    assert(rec_match(s1.idempotency[n], actor_id, key));
    lemma_executed_records_unique(s0, s1, actor_id, key);
    s1.lemma_record_index(actor_id, key, n);
}

/// Two actors are fully independent even on the identical key string: a
/// publish executed by one actor neither creates nor changes the other
/// actor's record for that key.
pub proof fn lemma_actors_independent(
    s0: StoreView,
    s1: StoreView,
    actor_id: u64,
    other_actor: u64,
    title: Seq<char>,
    text_content: Seq<char>,
    html_content: Seq<char>,
    key: Seq<char>,
    now: u64,
)
    requires
        other_actor != actor_id,
        s0.wf(),
        !s0.has_record(actor_id, key),
        publish_executes(s0, s1, actor_id, title, text_content, html_content, key, now),
    ensures
        s1.has_record(other_actor, key) == s0.has_record(other_actor, key),
        s0.has_record(other_actor, key) ==> s1.record(other_actor, key) == s0.record(
            other_actor,
            key,
        ),
{
    let n = s0.idempotency.len() as int;
    lemma_executed_records_unique(s0, s1, actor_id, key);
    if s0.has_record(other_actor, key) {
        let w = s0.record_index(other_actor, key);
        assert(rec_match(s0.idempotency[w], other_actor, key));
        assert(rec_match(s1.idempotency[w], other_actor, key));
        assert(s1.has_record(other_actor, key));
        s1.lemma_record_index(other_actor, key, w);
        s0.lemma_record_index(other_actor, key, w);
    } else {
        if s1.has_record(other_actor, key) {
            let w = s1.record_index(other_actor, key);
            assert(rec_match(s1.idempotency[w], other_actor, key));
            if w < n {
                assert(rec_match(s0.idempotency[w], other_actor, key));
                assert(s0.has_record(other_actor, key));
            } else {
                assert(s1.idempotency[w].actor_id == actor_id);
            }
        }
    }
}

/// After an executed publish the idempotency rows are still unique: the
/// appended row's pair was fresh.
proof fn lemma_executed_records_unique(s0: StoreView, s1: StoreView, actor_id: u64, key: Seq<char>)
    requires
        s0.wf(),
        !s0.has_record(actor_id, key),
        s1.idempotency == s0.idempotency.push(
            resolved_record(actor_id, key, publish_response()),
        ),
    ensures
        s1.records_unique(),
{
    let n = s0.idempotency.len() as int;
    assert forall|a: int, b: int| 0 <= a < b < s1.idempotency.len() implies !rec_match(
        #[trigger] s1.idempotency[b],
        (#[trigger] s1.idempotency[a]).actor_id,
        s1.idempotency[a].idempotency_key,
    ) by {
        if b == n {
            assert(s1.idempotency[a] == s0.idempotency[a]);
            if rec_match(s1.idempotency[b], s1.idempotency[a].actor_id,
                s1.idempotency[a].idempotency_key) {
                assert(rec_match(s0.idempotency[a], actor_id, key));
                assert(s0.has_record(actor_id, key));
            }
        } else {
            assert(s1.idempotency[a] == s0.idempotency[a]);
            assert(s1.idempotency[b] == s0.idempotency[b]);
            assert(!rec_match(s0.idempotency[b], s0.idempotency[a].actor_id,
                s0.idempotency[a].idempotency_key));
        }
    }
}

/// Allocates the issue id and records the issue row in the unit of work.
pub fn insert_newsletter_issue(
    store: &mut Store,
    uow: &mut UnitOfWork,
    title: String,
    text_content: String,
    html_content: String,
    now: u64,
) -> (r: u64)
    requires
        old(store)@.wf(),
        old(store)@.next_issue_id < u64::MAX,
        old(uow)@.pending_issue is None,
        old(uow)@.pending_tasks.len() == 0,
    ensures
        final(store)@.wf(),
        r == old(store)@.next_issue_id,
        final(store)@.idempotency == old(store)@.idempotency,
        final(store)@.issues == old(store)@.issues,
        final(store)@.queue == old(store)@.queue,
        final(store)@.subscriptions == old(store)@.subscriptions,
        final(store)@.tokens == old(store)@.tokens,
        final(store)@.next_issue_id == old(store)@.next_issue_id + 1,
        final(store)@.next_subscriber_id == old(store)@.next_subscriber_id,
        final(uow)@.actor_id == old(uow)@.actor_id,
        final(uow)@.idempotency_key == old(uow)@.idempotency_key,
        final(uow)@.pending_issue == Some(
            published_issue(r, title@, text_content@, html_content@, now),
        ),
        final(uow)@.pending_tasks == old(uow)@.pending_tasks,
{
    let ghost old_view = store@;
    let issue_id = store.next_issue_id;
    store.next_issue_id = issue_id + 1;
    uow.pending_issue = Some(
        NewsletterIssue { issue_id, title, text_content, html_content, published_at: now },
    );
    proof {
        assert(store@.idempotency =~= old_view.idempotency);
        assert(store@.issues =~= old_view.issues);
        assert(store@.queue =~= old_view.queue);
        assert(store@.subscriptions =~= old_view.subscriptions);
        assert(store@.tokens =~= old_view.tokens);
        StoreView::lemma_queue_wf_transfer(old_view, store@);
    }
    issue_id
}

/// Fans the pending issue out to every currently-confirmed subscriber: one
/// delivery task per confirmed email, in roster order, recorded in the unit
/// of work.
pub fn enqueue_delivery_tasks(store: &Store, uow: &mut UnitOfWork)
    requires
        store@.wf(),
        old(uow)@.pending_issue is Some,
        old(uow)@.pending_tasks.len() == 0,
    ensures
        final(uow)@.actor_id == old(uow)@.actor_id,
        final(uow)@.idempotency_key == old(uow)@.idempotency_key,
        final(uow)@.pending_issue == old(uow)@.pending_issue,
        final(uow)@.pending_tasks == fanout_tasks(
            old(uow)@.pending_issue->Some_0.issue_id,
            confirmed_emails(store@.subscriptions),
        ),
{
    let issue_id = match &uow.pending_issue {
        Some(pi) => pi.issue_id,
        None => unreached(),
    };
    let n = store.subscriptions.len();
    let mut i: usize = 0;
    while i < n
        invariant
            n == store.subscriptions.len(),
            0 <= i <= n,
            issue_id == old(uow)@.pending_issue->Some_0.issue_id,
            uow@.actor_id == old(uow)@.actor_id,
            uow@.idempotency_key == old(uow)@.idempotency_key,
            uow@.pending_issue == old(uow)@.pending_issue,
            uow@.pending_tasks == fanout_tasks(
                issue_id,
                confirmed_emails(store@.subscriptions.subrange(0, i as int)),
            ),
        decreases n - i,
    {
        let ghost uow0 = uow@;
        let sub = &store.subscriptions[i];
        if sub.confirmed {
            let recipient = sub.email.clone();
            let ghost tv = TaskView { issue_id: issue_id, recipient: recipient@, claimed: false };
            uow.pending_tasks.push(DeliveryTask { issue_id, recipient, claimed: false });
            proof {
                assert(uow@.pending_tasks =~= uow0.pending_tasks.push(tv));
            }
        }
        i += 1;
        proof {
            let prefix = store@.subscriptions.subrange(0, i as int);
            let prev = store@.subscriptions.subrange(0, i as int - 1);
            assert(prefix.len() == i as int);
            assert(prefix.drop_last() =~= prev);
            assert(prefix.last() == store@.subscriptions[i as int - 1]);
            let ce_prev = confirmed_emails(prev);
            let ce = confirmed_emails(prefix);
            if store@.subscriptions[i as int - 1].confirmed {
                assert(ce == ce_prev.push(store@.subscriptions[i as int - 1].email));
                assert(ce.drop_last() =~= ce_prev);
                assert(fanout_tasks(issue_id, ce) == fanout_tasks(issue_id, ce_prev).push(
                    TaskView {
                        issue_id: issue_id,
                        recipient: store@.subscriptions[i as int - 1].email,
                        claimed: false,
                    },
                ));
            } else {
                assert(ce == ce_prev);
            }
            assert(uow@.pending_tasks == fanout_tasks(issue_id, ce));
        }
    }
    proof {
        assert(store@.subscriptions.subrange(0, n as int) =~= store@.subscriptions);
    }
}

/// Publishes a newsletter issue idempotently.
///
/// Exactly one of four things happens, decided by the key's syntax and the
/// idempotency table:
/// - a malformed key is rejected with [`PublishIssueError::Validation`] and
///   the store is untouched;
/// - a key already resolved for this actor replays the stored response
///   byte for byte, with no new issue, no new delivery tasks, no side
///   effect at all;
/// - a key claimed but unresolved surfaces
///   [`PublishIssueError::Conflict`] and the store is untouched;
/// - a fresh key executes the operation: one new issue row, one delivery
///   task per currently-confirmed subscriber, and the resolved record, all
///   committed atomically, with the redirect response returned and stored.
pub fn publish_newsletter(store: &mut Store, actor_id: u64, form: FormData, now: u64) -> (r:
    Result<HttpResponse, PublishIssueError>)
    requires
        old(store)@.wf(),
        valid_key(form.idempotency_key@) && !old(store)@.has_record(
            actor_id,
            form.idempotency_key@,
        ) ==> old(store)@.next_issue_id < u64::MAX,
    ensures
        final(store)@.wf(),
        !valid_key(form.idempotency_key@) ==> {
            &&& r matches Err(PublishIssueError::Validation(_))
            &&& final(store)@ == old(store)@
        },
        valid_key(form.idempotency_key@) && old(store)@.has_record(
            actor_id,
            form.idempotency_key@,
        ) ==> {
            &&& final(store)@ == old(store)@
            &&& (old(store)@.record(actor_id, form.idempotency_key@).response matches Some(resp)
                ==> r matches Ok(saved) && saved@ == resp)
            &&& (old(store)@.record(actor_id, form.idempotency_key@).response is None ==> r
                matches Err(PublishIssueError::Conflict))
        },
        valid_key(form.idempotency_key@) && !old(store)@.has_record(
            actor_id,
            form.idempotency_key@,
        ) ==> {
            &&& r matches Ok(resp) && resp@ == publish_response()
            &&& publish_executes(
                old(store)@,
                final(store)@,
                actor_id,
                form.title@,
                form.text_content@,
                form.html_content@,
                form.idempotency_key@,
                now,
            )
        },
{
    let FormData { title, text_content, html_content, idempotency_key } = form;
    let ghost title_v = title@;
    let ghost text_v = text_content@;
    let ghost html_v = html_content@;
    let key = match IdempotencyKey::try_from(idempotency_key) {
        Ok(k) => k,
        Err(m) => {
            return Err(PublishIssueError::Validation(m));
        },
    };
    let mut uow = match claim(store, actor_id, &key) {
        Err(_) => {
            return Err(PublishIssueError::Conflict);
        },
        Ok(ClaimOutcome::AlreadyResolved(saved)) => {
            return Ok(saved);
        },
        Ok(ClaimOutcome::Acquired(uow)) => uow,
    };
    let issue_id = insert_newsletter_issue(store, &mut uow, title, text_content, html_content, now);
    enqueue_delivery_tasks(store, &mut uow);
    proof {
        // The placeholder row sits at the end of the table and is the
        // record for this (actor, key) pair.
        let ol: int = old(store)@.idempotency.len() as int;
        assert(store@.idempotency[ol] == unresolved_record(actor_id, key@));
        store@.lemma_record_index(actor_id, key@, ol);
        // The unit of work can be committed: the issue id is fresh and the
        // fan-out recipients are pairwise distinct.
        if store@.has_issue(issue_id) {
            let w = store@.issue_index(issue_id);
            assert(old(store)@.issues[w].issue_id < old(store)@.next_issue_id);
            assert(false);
        }
        lemma_confirmed_emails(old(store)@.subscriptions);
        let ce = confirmed_emails(old(store)@.subscriptions);
        lemma_fanout_index(issue_id, ce);
        assert forall|a: int, b: int|
            0 <= a < b < uow@.pending_tasks.len() implies (#[trigger] uow@.pending_tasks[a]).recipient
            != (#[trigger] uow@.pending_tasks[b]).recipient by {
            assert(uow@.pending_tasks[a].recipient == ce[a]);
            assert(uow@.pending_tasks[b].recipient == ce[b]);
        }
        assert(uow@.valid_for(store@));
    }
    let response = see_other("/admin/newsletters");
    let ghost pre_save = store@;
    let response = save(store, uow, response);
    proof {
        let ol: int = old(store)@.idempotency.len() as int;
        assert(pre_save.record_index(actor_id, key@) == ol);
        assert(store@.idempotency =~= old(store)@.idempotency.push(
            resolved_record(actor_id, key@, publish_response()),
        ));
        assert(store@.issues =~= old(store)@.issues.push(
            published_issue(old(store)@.next_issue_id, title_v, text_v, html_v, now),
        ));
        assert(store@.queue =~= old(store)@.queue + fanout_tasks(
            old(store)@.next_issue_id,
            confirmed_emails(old(store)@.subscriptions),
        ));
    }
    Ok(response)
}

} // verus!

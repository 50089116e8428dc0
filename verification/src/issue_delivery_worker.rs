//! The delivery worker: drains the issue delivery queue.
//!
//! A worker iteration claims one queue row under a skip-locked row lock
//! (concurrent claimants pass over locked rows instead of waiting), looks
//! up the issue content, attempts the delivery, and deletes the row whether
//! the send succeeded or failed — failures are logged and never retried, so
//! a poison recipient cannot wedge the queue. A recipient whose stored
//! address no longer validates is skipped without a transport call, and the
//! row is removed all the same.
//!
//! The step functions ([`dequeue_task`], [`get_issue`], [`delete_task`],
//! [`release_task`]) let a driver that owns a real transport run the same
//! cycle and perform the send itself; [`try_execute_task`] and
//! [`dispatch_all_pending`] run the cycle against the transport model.

use vstd::prelude::*;

use crate::domain::{email_ok, SubscriberEmail};
use crate::store::{
    has_issue_in, task_match, DeliveryTask, IssueView, NewsletterIssue, Store, StoreView, TaskView,
};
use crate::transport::{fails_in, SendRequest, SendRequestView, Transport};

verus! {

/// The index of the first row not locked by any claimant, in queue order.
pub open spec fn first_unclaimed(q: Seq<TaskView>) -> Option<int>
    decreases q.len(),
{
    if q.len() == 0 {
        None
    } else if !q[0].claimed {
        Some(0int)
    } else {
        match first_unclaimed(q.drop_first()) {
            Some(i) => Some(i + 1),
            None => None,
        }
    }
}

/// What [`first_unclaimed`] returns: the first unclaimed row if any row is
/// unclaimed, nothing if every row is claimed.
pub proof fn lemma_first_unclaimed(q: Seq<TaskView>)
    ensures
        first_unclaimed(q) is None ==> forall|k: int| 0 <= k < q.len() ==> (#[trigger] q[k]).claimed,
        first_unclaimed(q) matches Some(i) ==> 0 <= i < q.len() && !q[i].claimed && forall|k: int|
            0 <= k < i ==> (#[trigger] q[k]).claimed,
    decreases q.len(),
{
    if q.len() > 0 && q[0].claimed {
        let rest = q.drop_first();
        lemma_first_unclaimed(rest);
        match first_unclaimed(rest) {
            Some(i) => {
                assert forall|k: int| 0 <= k < i + 1 implies (#[trigger] q[k]).claimed by {
                    if k > 0 {
                        assert(rest[k - 1].claimed);
                    }
                }
                assert(!rest[i].claimed);
            },
            None => {
                assert forall|k: int| 0 <= k < q.len() implies (#[trigger] q[k]).claimed by {
                    if k > 0 {
                        assert(rest[k - 1].claimed);
                    }
                }
            },
        }
    }
}

/// A scan that found the first unclaimed row at `i` (or none at all)
/// computed [`first_unclaimed`].
pub proof fn lemma_first_unclaimed_at(q: Seq<TaskView>, i: int)
    requires
        0 <= i <= q.len(),
        forall|k: int| 0 <= k < i ==> (#[trigger] q[k]).claimed,
        i < q.len() ==> !q[i].claimed,
    ensures
        i < q.len() ==> first_unclaimed(q) == Some(i),
        i == q.len() ==> first_unclaimed(q) is None,
    decreases q.len(),
{
    if q.len() > 0 && i > 0 {
        let rest = q.drop_first();
        assert(q[0].claimed);
        assert forall|k: int| 0 <= k < i - 1 implies (#[trigger] rest[k]).claimed by {
            assert(q[k + 1].claimed);
        }
        lemma_first_unclaimed_at(rest, i - 1);
    }
}

/// Row `t` with its lock taken.
pub open spec fn claimed_task(t: TaskView) -> TaskView {
    TaskView { issue_id: t.issue_id, recipient: t.recipient, claimed: true }
}

/// Row `t` with its lock released.
pub open spec fn unclaimed_task(t: TaskView) -> TaskView {
    TaskView { issue_id: t.issue_id, recipient: t.recipient, claimed: false }
}

/// A claim on one queue row, held by the open transaction of one worker
/// iteration. While it exists, no other claimant can take the same row.
pub struct TaskClaim {
    pub issue_id: u64,
    pub recipient: String,
}

/// Mathematical value of a [`TaskClaim`].
#[verifier::ext_equal]
pub struct ClaimView {
    pub issue_id: u64,
    pub recipient: Seq<char>,
}

impl View for TaskClaim {
    type V = ClaimView;

    open spec fn view(&self) -> ClaimView {
        ClaimView { issue_id: self.issue_id, recipient: self.recipient@ }
    }
}

impl Clone for TaskClaim {
    fn clone(&self) -> (r: Self)
        ensures
            r@ == self@,
    {
        TaskClaim { issue_id: self.issue_id, recipient: self.recipient.clone() }
    }
}

/// The claim on row `t`.
pub open spec fn claim_of(t: TaskView) -> ClaimView {
    ClaimView { issue_id: t.issue_id, recipient: t.recipient }
}

/// Claims the first available delivery-queue row.
///
/// Rows locked by other claimants are skipped, not waited for, so several
/// workers drain the queue in parallel and no row is processed twice
/// concurrently. Returns nothing when every row is locked or the queue is
/// empty.
pub fn dequeue_task(store: &mut Store) -> (r: Option<TaskClaim>)
    requires
        old(store)@.wf(),
    ensures
        final(store)@.wf(),
        first_unclaimed(old(store)@.queue) is None ==> r is None && final(store)@ == old(store)@,
        first_unclaimed(old(store)@.queue) matches Some(i) ==> {
            &&& r matches Some(c) && c@ == claim_of(old(store)@.queue[i])
            &&& final(store)@.queue == old(store)@.queue.update(
                i,
                claimed_task(old(store)@.queue[i]),
            )
            &&& final(store)@.idempotency == old(store)@.idempotency
            &&& final(store)@.issues == old(store)@.issues
            &&& final(store)@.subscriptions == old(store)@.subscriptions
            &&& final(store)@.tokens == old(store)@.tokens
            &&& final(store)@.next_issue_id == old(store)@.next_issue_id
            &&& final(store)@.next_subscriber_id == old(store)@.next_subscriber_id
        },
{
    let ghost old_view = store@;
    let n = store.queue.len();
    let mut i: usize = 0;
    while i < n
        invariant
            n == store.queue.len(),
            0 <= i <= n,
            old_view == old(store)@,
            old_view.wf(),
            store@ == old_view,
            forall|k: int| 0 <= k < i ==> (#[trigger] old_view.queue[k]).claimed,
        decreases n - i,
    {
        if !store.queue[i].claimed {
            proof {
                lemma_first_unclaimed_at(old_view.queue, i as int);
            }
            let row = &store.queue[i];
            let claim = TaskClaim { issue_id: row.issue_id, recipient: row.recipient.clone() };
            let updated = DeliveryTask {
                issue_id: row.issue_id,
                recipient: row.recipient.clone(),
                claimed: true,
            };
            store.queue.set(i, updated);
            proof {
                assert(store@.queue =~= old_view.queue.update(
                    i as int,
                    claimed_task(old_view.queue[i as int]),
                ));
                assert(store@.idempotency =~= old_view.idempotency);
                assert(store@.issues =~= old_view.issues);
                assert(store@.subscriptions =~= old_view.subscriptions);
                assert(store@.tokens =~= old_view.tokens);
                StoreView::lemma_queue_wf_pointwise(old_view, store@);
            }
            return Some(claim);
        }
        i += 1;
    }
    proof {
        lemma_first_unclaimed_at(old_view.queue, n as int);
    }
    None
}

/// Looks up the content of the issue a claimed task belongs to.
pub fn get_issue(store: &Store, issue_id: u64) -> (r: Option<NewsletterIssue>)
    requires
        store@.wf(),
    ensures
        r is Some <==> store@.has_issue(issue_id),
        r matches Some(iss) ==> iss@ == store@.issue(issue_id),
{
    let n = store.issues.len();
    let mut i: usize = 0;
    while i < n
        invariant
            n == store.issues.len(),
            store@.wf(),
            0 <= i <= n,
            forall|k: int| 0 <= k < i ==> (#[trigger] store@.issues[k]).issue_id != issue_id,
        decreases n - i,
    {
        if store.issues[i].issue_id == issue_id {
            proof {
                store@.lemma_issue_index(issue_id, i as int);
            }
            return Some(store.issues[i].clone());
        }
        i += 1;
    }
    proof {
        if store@.has_issue(issue_id) {
            let w = choose|w: int|
                0 <= w < store@.issues.len() && (#[trigger] store@.issues[w]).issue_id == issue_id;
            assert(store@.issues[w].issue_id != issue_id);
        }
    }
    None
}

/// Deletes the claimed row and commits: the delivery is over, whether the
/// send succeeded, failed, or was skipped. Absence of the row is the only
/// record of completion.
pub fn delete_task(store: &mut Store, claim: TaskClaim)
    requires
        old(store)@.wf(),
        old(store)@.has_task(claim@.issue_id, claim@.recipient),
    ensures
        final(store)@.wf(),
        final(store)@.queue == old(store)@.queue.remove(
            old(store)@.task_index(claim@.issue_id, claim@.recipient),
        ),
        final(store)@.idempotency == old(store)@.idempotency,
        final(store)@.issues == old(store)@.issues,
        final(store)@.subscriptions == old(store)@.subscriptions,
        final(store)@.tokens == old(store)@.tokens,
        final(store)@.next_issue_id == old(store)@.next_issue_id,
        final(store)@.next_subscriber_id == old(store)@.next_subscriber_id,
{
    let ghost old_view = store@;
    let idx = find_task(store, &claim);
    proof {
        old_view.lemma_task_index(claim@.issue_id, claim@.recipient, idx as int);
    }
    store.queue.remove(idx);
    proof {
        let ti = old_view.task_index(claim@.issue_id, claim@.recipient);
        assert(store@.queue =~= old_view.queue.remove(ti));
        assert(store@.idempotency =~= old_view.idempotency);
        assert(store@.issues =~= old_view.issues);
        assert(store@.subscriptions =~= old_view.subscriptions);
        assert(store@.tokens =~= old_view.tokens);
        lemma_queue_remove_wf(old_view, store@, ti);
    }
}

/// Releases a claimed row without deleting it, as the abort of the
/// claiming transaction does (a crashed worker has the same effect): the
/// row becomes claimable again by a future iteration.
pub fn release_task(store: &mut Store, claim: TaskClaim)
    requires
        old(store)@.wf(),
        old(store)@.has_task(claim@.issue_id, claim@.recipient),
    ensures
        final(store)@.wf(),
        final(store)@.queue == old(store)@.queue.update(
            old(store)@.task_index(claim@.issue_id, claim@.recipient),
            unclaimed_task(
                old(store)@.queue[old(store)@.task_index(claim@.issue_id, claim@.recipient)],
            ),
        ),
        final(store)@.idempotency == old(store)@.idempotency,
        final(store)@.issues == old(store)@.issues,
        final(store)@.subscriptions == old(store)@.subscriptions,
        final(store)@.tokens == old(store)@.tokens,
        final(store)@.next_issue_id == old(store)@.next_issue_id,
        final(store)@.next_subscriber_id == old(store)@.next_subscriber_id,
{
    let ghost old_view = store@;
    let idx = find_task(store, &claim);
    proof {
        old_view.lemma_task_index(claim@.issue_id, claim@.recipient, idx as int);
    }
    let row = &store.queue[idx];
    let updated = DeliveryTask {
        issue_id: row.issue_id,
        recipient: row.recipient.clone(),
        claimed: false,
    };
    store.queue.set(idx, updated);
    proof {
        let ti = old_view.task_index(claim@.issue_id, claim@.recipient);
        assert(store@.queue =~= old_view.queue.update(ti, unclaimed_task(old_view.queue[ti])));
        assert(store@.idempotency =~= old_view.idempotency);
        assert(store@.issues =~= old_view.issues);
        assert(store@.subscriptions =~= old_view.subscriptions);
        assert(store@.tokens =~= old_view.tokens);
        StoreView::lemma_queue_wf_pointwise(old_view, store@);
    }
}

/// The index of the queue row the claim holds.
fn find_task(store: &Store, claim: &TaskClaim) -> (idx: usize)
    requires
        store@.wf(),
        store@.has_task(claim@.issue_id, claim@.recipient),
    ensures
        idx < store@.queue.len(),
        task_match(store@.queue[idx as int], claim@.issue_id, claim@.recipient),
{
    let n = store.queue.len();
    let mut i: usize = 0;
    while i < n
        invariant
            n == store.queue.len(),
            0 <= i <= n,
            store@.has_task(claim@.issue_id, claim@.recipient),
            forall|k: int|
                0 <= k < i ==> !task_match(#[trigger] store@.queue[k], claim@.issue_id,
                claim@.recipient),
        decreases n - i,
    {
        let row = &store.queue[i];
        if row.issue_id == claim.issue_id && row.recipient == claim.recipient {
            return i;
        }
        i += 1;
    }
    proof {
        let w = choose|w: int|
            0 <= w < store@.queue.len() && task_match(
                #[trigger] store@.queue[w],
                claim@.issue_id,
                claim@.recipient,
            );
        assert(!task_match(store@.queue[w], claim@.issue_id, claim@.recipient));
    }
    unreached()
}

/// What one worker iteration did: completed (and removed) one task, or
/// found nothing claimable.
#[derive(Debug, PartialEq, Eq, Structural)]
pub enum ExecutionOutcome {
    TaskCompleted,
    EmptyQueue,
}

/// The worker's structured log: per-operation context instead of ambient
/// state, so concurrent workers cannot cross-talk.
pub struct WorkerLog {
    pub invalid_skipped: Vec<TaskClaim>,
    pub delivery_failures: Vec<TaskClaim>,
}

/// Mathematical value of a [`WorkerLog`].
#[verifier::ext_equal]
pub struct WorkerLogView {
    pub invalid_skipped: Seq<ClaimView>,
    pub delivery_failures: Seq<ClaimView>,
}

impl View for WorkerLog {
    type V = WorkerLogView;

    open spec fn view(&self) -> WorkerLogView {
        WorkerLogView {
            invalid_skipped: self.invalid_skipped@.map_values(|c: TaskClaim| c@),
            delivery_failures: self.delivery_failures@.map_values(|c: TaskClaim| c@),
        }
    }
}

impl WorkerLog {
    /// An empty log.
    pub fn new() -> (r: WorkerLog)
        ensures
            r@.invalid_skipped == Seq::<ClaimView>::empty(),
            r@.delivery_failures == Seq::<ClaimView>::empty(),
    {
        let r = WorkerLog { invalid_skipped: Vec::new(), delivery_failures: Vec::new() };
        proof {
            assert(r@.invalid_skipped =~= Seq::<ClaimView>::empty());
            assert(r@.delivery_failures =~= Seq::<ClaimView>::empty());
        }
        r
    }
}

/// The delivery invocation for task `t`, with the content of its issue.
pub open spec fn send_view(issues: Seq<IssueView>, t: TaskView) -> SendRequestView {
    let iss = issues[crate::store::issue_pos(issues, t.issue_id)];
    SendRequestView {
        recipient: t.recipient,
        title: iss.title,
        html_content: iss.html_content,
        text_content: iss.text_content,
    }
}

/// Runs one worker iteration against the transport model.
///
/// Claims the first available row; with a valid stored address the issue
/// content goes to the transport (a transient failure is logged, nothing
/// more), with an invalid one the transport is not called and the skip is
/// logged; either way the row is deleted and the iteration ends. With no
/// claimable row the queue is reported empty and nothing changes.
pub fn try_execute_task(store: &mut Store, transport: &mut Transport, log: &mut WorkerLog) -> (r:
    ExecutionOutcome)
    requires
        old(store)@.wf(),
    ensures
        final(store)@.wf(),
        final(store)@.idempotency == old(store)@.idempotency,
        final(store)@.issues == old(store)@.issues,
        final(store)@.subscriptions == old(store)@.subscriptions,
        final(store)@.tokens == old(store)@.tokens,
        final(store)@.next_issue_id == old(store)@.next_issue_id,
        final(store)@.next_subscriber_id == old(store)@.next_subscriber_id,
        final(transport)@.failing == old(transport)@.failing,
        first_unclaimed(old(store)@.queue) is None ==> {
            &&& r is EmptyQueue
            &&& final(store)@ == old(store)@
            &&& final(transport)@ == old(transport)@
            &&& final(log)@ == old(log)@
        },
        first_unclaimed(old(store)@.queue) matches Some(i) ==> ({
            let t = old(store)@.queue[i];
            &&& r is TaskCompleted
            &&& final(store)@.queue == old(store)@.queue.remove(i)
            &&& (email_ok(t.recipient) ==> {
                &&& final(transport)@.calls == old(transport)@.calls.push(
                    send_view(old(store)@.issues, t),
                )
                &&& final(log)@.invalid_skipped == old(log)@.invalid_skipped
                &&& (fails_in(old(transport)@.failing, t.recipient)
                    ==> final(log)@.delivery_failures == old(log)@.delivery_failures.push(
                    claim_of(t),
                ))
                &&& (!fails_in(old(transport)@.failing, t.recipient)
                    ==> final(log)@.delivery_failures == old(log)@.delivery_failures)
            })
            &&& (!email_ok(t.recipient) ==> {
                &&& final(transport)@ == old(transport)@
                &&& final(log)@.invalid_skipped == old(log)@.invalid_skipped.push(claim_of(t))
                &&& final(log)@.delivery_failures == old(log)@.delivery_failures
            })
        }),
{
    proof {
        lemma_first_unclaimed(old(store)@.queue);
    }
    let claim = match dequeue_task(store) {
        None => {
            return ExecutionOutcome::EmptyQueue;
        },
        Some(c) => c,
    };
    let ghost i = first_unclaimed(old(store)@.queue)->Some_0;
    let ghost t = old(store)@.queue[i];
    proof {
        assert(store@.queue[i] == claimed_task(t));
        assert(claim@ == claim_of(t));
    }
    match SubscriberEmail::parse(claim.recipient.clone()) {
        Ok(_email) => {
            let issue = match get_issue(store, claim.issue_id) {
                Some(iss) => iss,
                None => {
                    proof {
                        assert(store@.has_issue(store@.queue[i].issue_id));
                    }
                    unreached()
                },
            };
            let ghost issue_v = issue@;
            proof {
                assert(issue_v == send_view_issue(old(store)@.issues, t));
            }
            let request = SendRequest {
                recipient: claim.recipient.clone(),
                title: issue.title,
                html_content: issue.html_content,
                text_content: issue.text_content,
            };
            proof {
                assert(request@ == send_view(old(store)@.issues, t));
            }
            let ok = transport.send(request);
            if !ok {
                let entry = claim.clone();
                let ghost log0 = log@;
                log.delivery_failures.push(entry);
                proof {
                    assert(log@.delivery_failures =~= log0.delivery_failures.push(claim_of(t)));
                    assert(log@.invalid_skipped =~= log0.invalid_skipped);
                }
            }
        },
        Err(_e) => {
            let entry = claim.clone();
            let ghost log0 = log@;
            log.invalid_skipped.push(entry);
            proof {
                assert(log@.invalid_skipped =~= log0.invalid_skipped.push(claim_of(t)));
                assert(log@.delivery_failures =~= log0.delivery_failures);
            }
        },
    }
    let ghost mid = store@;
    proof {
        assert(task_match(mid.queue[i], claim@.issue_id, claim@.recipient));
        mid.lemma_task_index(claim@.issue_id, claim@.recipient, i);
    }
    delete_task(store, claim);
    proof {
        assert(store@.queue == mid.queue.remove(i));
        assert(store@.queue =~= old(store)@.queue.remove(i));
    }
    ExecutionOutcome::TaskCompleted
}

/// The issue content [`send_view`] picks for task `t`.
pub open spec fn send_view_issue(issues: Seq<IssueView>, t: TaskView) -> IssueView {
    issues[crate::store::issue_pos(issues, t.issue_id)]
}

/// The rows left after draining the queue to empty: exactly the rows other
/// claimants hold locked, in order.
pub open spec fn drained_queue(q: Seq<TaskView>) -> Seq<TaskView>
    decreases q.len(),
{
    if q.len() == 0 {
        Seq::empty()
    } else if q[0].claimed {
        seq![q[0]] + drained_queue(q.drop_first())
    } else {
        drained_queue(q.drop_first())
    }
}

/// How many rows a drain completes: the unclaimed rows.
pub open spec fn drain_count(q: Seq<TaskView>) -> nat
    decreases q.len(),
{
    if q.len() == 0 {
        0
    } else if q[0].claimed {
        drain_count(q.drop_first())
    } else {
        1 + drain_count(q.drop_first())
    }
}

/// The transport invocations a drain performs, in order: one per unclaimed
/// row whose stored address is valid.
pub open spec fn drain_calls(q: Seq<TaskView>, issues: Seq<IssueView>) -> Seq<SendRequestView>
    decreases q.len(),
{
    if q.len() == 0 {
        Seq::empty()
    } else if q[0].claimed {
        drain_calls(q.drop_first(), issues)
    } else if email_ok(q[0].recipient) {
        seq![send_view(issues, q[0])] + drain_calls(q.drop_first(), issues)
    } else {
        drain_calls(q.drop_first(), issues)
    }
}

/// The rows a drain skips for a malformed stored address, in order.
pub open spec fn drain_skips(q: Seq<TaskView>) -> Seq<ClaimView>
    decreases q.len(),
{
    if q.len() == 0 {
        Seq::empty()
    } else if q[0].claimed {
        drain_skips(q.drop_first())
    } else if !email_ok(q[0].recipient) {
        seq![claim_of(q[0])] + drain_skips(q.drop_first())
    } else {
        drain_skips(q.drop_first())
    }
}

/// The sends a drain sees fail with a transient error, in order.
pub open spec fn drain_failures(q: Seq<TaskView>, failing: Seq<Seq<char>>) -> Seq<ClaimView>
    decreases q.len(),
{
    if q.len() == 0 {
        Seq::empty()
    } else if q[0].claimed {
        drain_failures(q.drop_first(), failing)
    } else if email_ok(q[0].recipient) && fails_in(failing, q[0].recipient) {
        seq![claim_of(q[0])] + drain_failures(q.drop_first(), failing)
    } else {
        drain_failures(q.drop_first(), failing)
    }
}

/// Completing the first unclaimed row advances the drain by one step.
pub proof fn lemma_drain_step(q: Seq<TaskView>, issues: Seq<IssueView>, failing: Seq<Seq<char>>, i: int)
    requires
        0 <= i < q.len(),
        !q[i].claimed,
        forall|k: int| 0 <= k < i ==> (#[trigger] q[k]).claimed,
    ensures
        drained_queue(q) == drained_queue(q.remove(i)),
        drain_count(q) == 1 + drain_count(q.remove(i)),
        drain_calls(q, issues) == (if email_ok(q[i].recipient) {
            seq![send_view(issues, q[i])]
        } else {
            Seq::empty()
        }) + drain_calls(q.remove(i), issues),
        drain_skips(q) == (if !email_ok(q[i].recipient) {
            seq![claim_of(q[i])]
        } else {
            Seq::empty()
        }) + drain_skips(q.remove(i)),
        drain_failures(q, failing) == (if email_ok(q[i].recipient) && fails_in(
            failing,
            q[i].recipient,
        ) {
            seq![claim_of(q[i])]
        } else {
            Seq::empty()
        }) + drain_failures(q.remove(i), failing),
    decreases i,
{
    if i == 0 {
        assert(q.remove(0) =~= q.drop_first());
        assert(Seq::empty() + drained_queue(q.drop_first()) =~= drained_queue(q.drop_first()));
        assert(Seq::empty() + drain_calls(q.drop_first(), issues) =~= drain_calls(
            q.drop_first(),
            issues,
        ));
        assert(Seq::empty() + drain_skips(q.drop_first()) =~= drain_skips(q.drop_first()));
        assert(Seq::empty() + drain_failures(q.drop_first(), failing) =~= drain_failures(
            q.drop_first(),
            failing,
        ));
        if email_ok(q[0].recipient) {
            assert(drain_calls(q, issues) == seq![send_view(issues, q[0])] + drain_calls(
                q.drop_first(),
                issues,
            ));
        }
    } else {
        let qr = q.drop_first();
        assert(q[0].claimed);
        assert forall|k: int| 0 <= k < i - 1 implies (#[trigger] qr[k]).claimed by {
            assert(q[k + 1].claimed);
        }
        assert(!qr[i - 1].claimed);
        lemma_drain_step(qr, issues, failing, i - 1);
        assert(q.remove(i)[0] == q[0]);
        assert(q.remove(i).drop_first() =~= qr.remove(i - 1));
        assert(drained_queue(q.remove(i)) == seq![q[0]] + drained_queue(qr.remove(i - 1)));
        assert(drained_queue(q) == seq![q[0]] + drained_queue(qr));
        assert(drained_queue(q) == drained_queue(q.remove(i)));
        assert(drain_count(q.remove(i)) == drain_count(qr.remove(i - 1)));
        assert(drain_calls(q.remove(i), issues) == drain_calls(qr.remove(i - 1), issues));
        assert(drain_skips(q.remove(i)) == drain_skips(qr.remove(i - 1)));
        assert(drain_failures(q.remove(i), failing) == drain_failures(qr.remove(i - 1), failing));
        assert(qr[i - 1] == q[i]);
    }
}

/// A queue whose rows are all claimed drains to itself at once: no
/// completion, no transport call, no log entry.
pub proof fn lemma_drain_all_claimed(q: Seq<TaskView>, issues: Seq<IssueView>, failing: Seq<Seq<char>>)
    requires
        forall|k: int| 0 <= k < q.len() ==> (#[trigger] q[k]).claimed,
    ensures
        drained_queue(q) == q,
        drain_count(q) == 0,
        drain_calls(q, issues) == Seq::<SendRequestView>::empty(),
        drain_skips(q) == Seq::<ClaimView>::empty(),
        drain_failures(q, failing) == Seq::<ClaimView>::empty(),
    decreases q.len(),
{
    if q.len() > 0 {
        let qr = q.drop_first();
        assert forall|k: int| 0 <= k < qr.len() implies (#[trigger] qr[k]).claimed by {
            assert(q[k + 1].claimed);
        }
        lemma_drain_all_claimed(qr, issues, failing);
        assert(seq![q[0]] + qr =~= q);
    }
}

/// Draining a queue of unclaimed rows with valid addresses performs
/// exactly one transport invocation per row, in queue order, and leaves
/// the queue empty; with pairwise-distinct rows for one issue this is one
/// invocation per recipient.
pub proof fn lemma_drain_delivers_all(q: Seq<TaskView>, issues: Seq<IssueView>)
    requires
        forall|k: int| 0 <= k < q.len() ==> !(#[trigger] q[k]).claimed,
        forall|k: int| 0 <= k < q.len() ==> email_ok((#[trigger] q[k]).recipient),
    ensures
        drained_queue(q) == Seq::<TaskView>::empty(),
        drain_count(q) == q.len(),
        drain_calls(q, issues).len() == q.len(),
        forall|k: int|
            0 <= k < q.len() ==> (#[trigger] drain_calls(q, issues)[k]) == send_view(issues, q[k]),
    decreases q.len(),
{
    if q.len() > 0 {
        let qr = q.drop_first();
        assert forall|k: int| 0 <= k < qr.len() implies !(#[trigger] qr[k]).claimed && email_ok(
            qr[k].recipient,
        ) by {
            assert(!q[k + 1].claimed && email_ok(q[k + 1].recipient));
        }
        lemma_drain_delivers_all(qr, issues);
        let dc = drain_calls(q, issues);
        assert(dc == seq![send_view(issues, q[0])] + drain_calls(qr, issues));
        assert forall|k: int| 0 <= k < q.len() implies (#[trigger] dc[k]) == send_view(
            issues,
            q[k],
        ) by {
            if k > 0 {
                assert(dc[k] == drain_calls(qr, issues)[k - 1]);
                assert(qr[k - 1] == q[k]);
            }
        }
    }
}

/// No row is claimed twice concurrently: a second claim taken while the
/// first is still held lands on a different `(issue, recipient)` row.
pub proof fn lemma_no_double_claim(s: StoreView, i: int, j: int)
    requires
        s.wf(),
        first_unclaimed(s.queue) == Some(i),
        first_unclaimed(s.queue.update(i, claimed_task(s.queue[i]))) == Some(j),
    ensures
        claim_of(s.queue.update(i, claimed_task(s.queue[i]))[j]) != claim_of(s.queue[i]),
{
    let q1 = s.queue.update(i, claimed_task(s.queue[i]));
    lemma_first_unclaimed(s.queue);
    lemma_first_unclaimed(q1);
    assert(!q1[j].claimed);
    assert(q1[i].claimed);
    assert(j != i);
    assert(q1[j] == s.queue[j]);
    if i < j {
        assert(!task_match(s.queue[j], s.queue[i].issue_id, s.queue[i].recipient));
    } else {
        assert(!task_match(s.queue[i], s.queue[j].issue_id, s.queue[j].recipient));
    }
}

/// A malformed stored address is skipped: its row is completed and removed
/// without any transport invocation, the skip is logged, and the rest of
/// the queue is still drained.
pub proof fn lemma_invalid_recipient_skipped(q: Seq<TaskView>, issues: Seq<IssueView>, i: int)
    requires
        first_unclaimed(q) == Some(i),
        !email_ok(q[i].recipient),
    ensures
        drain_calls(q, issues) == drain_calls(q.remove(i), issues),
        drain_skips(q) == seq![claim_of(q[i])] + drain_skips(q.remove(i)),
        drain_count(q) == 1 + drain_count(q.remove(i)),
{
    lemma_first_unclaimed(q);
    lemma_drain_step(q, issues, Seq::empty(), i);
    assert(Seq::empty() + drain_calls(q.remove(i), issues) =~= drain_calls(q.remove(i), issues));
}

/// Drains the delivery queue until no claimable row is left.
///
/// Repeats [`try_execute_task`] until it reports the queue empty. Every
/// unclaimed row is completed exactly once: the valid recipients each get
/// exactly one transport invocation, the invalid ones are logged and
/// skipped without one, and the only rows left are those other claimants
/// hold locked. Returns how many rows this drain completed.
pub fn dispatch_all_pending(store: &mut Store, transport: &mut Transport, log: &mut WorkerLog) -> (count: usize)
    requires
        old(store)@.wf(),
    ensures
        final(store)@.wf(),
        final(store)@.queue == drained_queue(old(store)@.queue),
        first_unclaimed(final(store)@.queue) is None,
        count == drain_count(old(store)@.queue),
        final(store)@.idempotency == old(store)@.idempotency,
        final(store)@.issues == old(store)@.issues,
        final(store)@.subscriptions == old(store)@.subscriptions,
        final(store)@.tokens == old(store)@.tokens,
        final(store)@.next_issue_id == old(store)@.next_issue_id,
        final(store)@.next_subscriber_id == old(store)@.next_subscriber_id,
        final(transport)@.calls == old(transport)@.calls + drain_calls(
            old(store)@.queue,
            old(store)@.issues,
        ),
        final(transport)@.failing == old(transport)@.failing,
        final(log)@.invalid_skipped == old(log)@.invalid_skipped + drain_skips(old(store)@.queue),
        final(log)@.delivery_failures == old(log)@.delivery_failures + drain_failures(
            old(store)@.queue,
            old(transport)@.failing,
        ),
{
    let mut count: usize = 0;
    let n0 = store.queue.len();
    proof {
        assert(old(store)@.queue.len() == n0);
    }
    loop
        invariant
            store@.wf(),
            old(store)@.wf(),
            store@.idempotency == old(store)@.idempotency,
            store@.issues == old(store)@.issues,
            store@.subscriptions == old(store)@.subscriptions,
            store@.tokens == old(store)@.tokens,
            store@.next_issue_id == old(store)@.next_issue_id,
            store@.next_subscriber_id == old(store)@.next_subscriber_id,
            transport@.failing == old(transport)@.failing,
            old(store)@.queue.len() <= usize::MAX,
            count + store@.queue.len() == old(store)@.queue.len(),
            drained_queue(old(store)@.queue) == drained_queue(store@.queue),
            drain_count(old(store)@.queue) == count + drain_count(store@.queue),
            old(transport)@.calls + drain_calls(old(store)@.queue, old(store)@.issues)
                == transport@.calls + drain_calls(store@.queue, old(store)@.issues),
            old(log)@.invalid_skipped + drain_skips(old(store)@.queue) == log@.invalid_skipped
                + drain_skips(store@.queue),
            old(log)@.delivery_failures + drain_failures(
                old(store)@.queue,
                old(transport)@.failing,
            ) == log@.delivery_failures + drain_failures(store@.queue, old(transport)@.failing),
        ensures
            store@.wf(),
            store@.idempotency == old(store)@.idempotency,
            store@.issues == old(store)@.issues,
            store@.subscriptions == old(store)@.subscriptions,
            store@.tokens == old(store)@.tokens,
            store@.next_issue_id == old(store)@.next_issue_id,
            store@.next_subscriber_id == old(store)@.next_subscriber_id,
            transport@.failing == old(transport)@.failing,
            first_unclaimed(store@.queue) is None,
            drained_queue(old(store)@.queue) == drained_queue(store@.queue),
            drain_count(old(store)@.queue) == count + drain_count(store@.queue),
            old(transport)@.calls + drain_calls(old(store)@.queue, old(store)@.issues)
                == transport@.calls + drain_calls(store@.queue, old(store)@.issues),
            old(log)@.invalid_skipped + drain_skips(old(store)@.queue) == log@.invalid_skipped
                + drain_skips(store@.queue),
            old(log)@.delivery_failures + drain_failures(
                old(store)@.queue,
                old(transport)@.failing,
            ) == log@.delivery_failures + drain_failures(store@.queue, old(transport)@.failing),
        decreases store@.queue.len(),
    {
        let ghost pre = store@;
        let ghost pre_t = transport@;
        let ghost pre_l = log@;
        proof {
            lemma_first_unclaimed(pre.queue);
        }
        match try_execute_task(store, transport, log) {
            ExecutionOutcome::EmptyQueue => {
                break;
            },
            ExecutionOutcome::TaskCompleted => {
                proof {
                    let i = first_unclaimed(pre.queue)->Some_0;
                    let t = pre.queue[i];
                    lemma_drain_step(pre.queue, old(store)@.issues, old(transport)@.failing, i);
                    if email_ok(t.recipient) {
                        assert(pre_t.calls + drain_calls(pre.queue, old(store)@.issues)
                            =~= transport@.calls + drain_calls(store@.queue, old(store)@.issues));
                        if fails_in(old(transport)@.failing, t.recipient) {
                            assert(pre_l.delivery_failures + drain_failures(
                                pre.queue,
                                old(transport)@.failing,
                            ) =~= log@.delivery_failures + drain_failures(
                                store@.queue,
                                old(transport)@.failing,
                            ));
                        } else {
                            assert(Seq::empty() + drain_failures(store@.queue, old(transport)@.failing)
                                =~= drain_failures(store@.queue, old(transport)@.failing));
                        }
                        assert(Seq::empty() + drain_skips(store@.queue) =~= drain_skips(
                            store@.queue,
                        ));
                    } else {
                        assert(Seq::empty() + drain_calls(store@.queue, old(store)@.issues)
                            =~= drain_calls(store@.queue, old(store)@.issues));
                        assert(pre_l.invalid_skipped + drain_skips(pre.queue)
                            =~= log@.invalid_skipped + drain_skips(store@.queue));
                        assert(Seq::empty() + drain_failures(store@.queue, old(transport)@.failing)
                            =~= drain_failures(store@.queue, old(transport)@.failing));
                    }
                }
                count += 1;
            },
        }
    }
    proof {
        lemma_first_unclaimed(store@.queue);
        lemma_drain_all_claimed(store@.queue, old(store)@.issues, old(transport)@.failing);
        assert(transport@.calls + Seq::<SendRequestView>::empty() =~= transport@.calls);
        assert(log@.invalid_skipped + Seq::<ClaimView>::empty() =~= log@.invalid_skipped);
        assert(log@.delivery_failures + Seq::<ClaimView>::empty() =~= log@.delivery_failures);
    }
    count
}

/// Removing a queue row preserves the store invariants.
proof fn lemma_queue_remove_wf(a: StoreView, b: StoreView, ti: int)
    requires
        a.wf(),
        0 <= ti < a.queue.len(),
        b.queue == a.queue.remove(ti),
        b.issues == a.issues,
        b.idempotency == a.idempotency,
        b.subscriptions == a.subscriptions,
        b.tokens == a.tokens,
        b.next_issue_id == a.next_issue_id,
        b.next_subscriber_id == a.next_subscriber_id,
    ensures
        b.wf(),
{
    assert forall|i: int, j: int| 0 <= i < j < b.queue.len() implies !task_match(
        #[trigger] b.queue[j],
        (#[trigger] b.queue[i]).issue_id,
        b.queue[i].recipient,
    ) by {
        let i0: int = if i < ti { i } else { i + 1 };
        let j0: int = if j < ti { j } else { j + 1 };
        assert(b.queue[i] == a.queue[i0]);
        assert(b.queue[j] == a.queue[j0]);
        assert(!task_match(a.queue[j0], a.queue[i0].issue_id, a.queue[i0].recipient));
    }
    assert forall|i: int| 0 <= i < b.queue.len() implies has_issue_in(
        b.issues,
        (#[trigger] b.queue[i]).issue_id,
    ) by {
        let i0: int = if i < ti { i } else { i + 1 };
        assert(b.queue[i] == a.queue[i0]);
        assert(has_issue_in(a.issues, a.queue[i0].issue_id));
    }
}

} // verus!

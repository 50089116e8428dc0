//! The persistent state of the service, modeled as an explicit value.
//!
//! The relational store holds four tables: idempotency records keyed by
//! `(actor_id, idempotency_key)`, immutable newsletter issues, the issue
//! delivery queue, and the subscriber roster with its confirmation tokens.
//! A [`Store`] value stands for one consistent snapshot of that state; every
//! operation of the library says exactly how it moves the snapshot.
//!
//! A delivery-queue row carries a `claimed` flag modeling a row lock held by
//! an open worker transaction: claimed rows are skipped by other claimants
//! and revert to unclaimed if the holding transaction aborts.

use vstd::prelude::*;

use crate::response::{HttpResponse, HttpResponseView};

verus! {

/// One row of the idempotency table. `response` is `None` while the
/// operation that claimed the key is still in flight (or was abandoned by a
/// crash), and holds the saved response once resolved.
pub struct IdempotencyRecord {
    pub actor_id: u64,
    pub idempotency_key: String,
    pub response: Option<HttpResponse>,
}

/// Mathematical value of an [`IdempotencyRecord`].
#[verifier::ext_equal]
pub struct RecordView {
    pub actor_id: u64,
    pub idempotency_key: Seq<char>,
    pub response: Option<HttpResponseView>,
}

impl View for IdempotencyRecord {
    type V = RecordView;

    open spec fn view(&self) -> RecordView {
        RecordView {
            actor_id: self.actor_id,
            idempotency_key: self.idempotency_key@,
            response: match self.response {
                Some(r) => Some(r@),
                None => None,
            },
        }
    }
}

/// One newsletter issue: created once at publish time, immutable afterward,
/// never deleted.
pub struct NewsletterIssue {
    pub issue_id: u64,
    pub title: String,
    pub text_content: String,
    pub html_content: String,
    pub published_at: u64,
}

/// Mathematical value of a [`NewsletterIssue`].
#[verifier::ext_equal]
pub struct IssueView {
    pub issue_id: u64,
    pub title: Seq<char>,
    pub text_content: Seq<char>,
    pub html_content: Seq<char>,
    pub published_at: u64,
}

impl View for NewsletterIssue {
    type V = IssueView;

    open spec fn view(&self) -> IssueView {
        IssueView {
            issue_id: self.issue_id,
            title: self.title@,
            text_content: self.text_content@,
            html_content: self.html_content@,
            published_at: self.published_at,
        }
    }
}

impl Clone for NewsletterIssue {
    fn clone(&self) -> (r: Self)
        ensures
            r@ == self@,
    {
        NewsletterIssue {
            issue_id: self.issue_id,
            title: self.title.clone(),
            text_content: self.text_content.clone(),
            html_content: self.html_content.clone(),
            published_at: self.published_at,
        }
    }
}

/// One row of the issue delivery queue: "this recipient has not yet received
/// this issue". `claimed` models the row lock of an open worker transaction.
pub struct DeliveryTask {
    pub issue_id: u64,
    pub recipient: String,
    pub claimed: bool,
}

/// Mathematical value of a [`DeliveryTask`].
#[verifier::ext_equal]
pub struct TaskView {
    pub issue_id: u64,
    pub recipient: Seq<char>,
    pub claimed: bool,
}

impl View for DeliveryTask {
    type V = TaskView;

    open spec fn view(&self) -> TaskView {
        TaskView { issue_id: self.issue_id, recipient: self.recipient@, claimed: self.claimed }
    }
}

/// One subscriber. Only confirmed subscribers receive newsletter issues.
pub struct Subscription {
    pub id: u64,
    pub email: String,
    pub name: String,
    pub confirmed: bool,
}

/// Mathematical value of a [`Subscription`].
#[verifier::ext_equal]
pub struct SubscriptionView {
    pub id: u64,
    pub email: Seq<char>,
    pub name: Seq<char>,
    pub confirmed: bool,
}

impl View for Subscription {
    type V = SubscriptionView;

    open spec fn view(&self) -> SubscriptionView {
        SubscriptionView {
            id: self.id,
            email: self.email@,
            name: self.name@,
            confirmed: self.confirmed,
        }
    }
}

/// One confirmation token handed out to a pending subscriber.
pub struct SubscriptionToken {
    pub token: String,
    pub subscriber_id: u64,
}

/// Mathematical value of a [`SubscriptionToken`].
#[verifier::ext_equal]
pub struct TokenView {
    pub token: Seq<char>,
    pub subscriber_id: u64,
}

impl View for SubscriptionToken {
    type V = TokenView;

    open spec fn view(&self) -> TokenView {
        TokenView { token: self.token@, subscriber_id: self.subscriber_id }
    }
}

/// The whole persistent state. The `next_*` counters are the id generators;
/// like a database sequence they advance outside any transaction, so an
/// aborted operation may leave a gap in the issued ids.
pub struct Store {
    pub idempotency: Vec<IdempotencyRecord>,
    pub issues: Vec<NewsletterIssue>,
    pub queue: Vec<DeliveryTask>,
    pub subscriptions: Vec<Subscription>,
    pub tokens: Vec<SubscriptionToken>,
    pub next_issue_id: u64,
    pub next_subscriber_id: u64,
}

/// Mathematical value of a [`Store`].
#[verifier::ext_equal]
pub struct StoreView {
    pub idempotency: Seq<RecordView>,
    pub issues: Seq<IssueView>,
    pub queue: Seq<TaskView>,
    pub subscriptions: Seq<SubscriptionView>,
    pub tokens: Seq<TokenView>,
    pub next_issue_id: u64,
    pub next_subscriber_id: u64,
}

impl View for Store {
    type V = StoreView;

    open spec fn view(&self) -> StoreView {
        StoreView {
            idempotency: self.idempotency@.map_values(|r: IdempotencyRecord| r@),
            issues: self.issues@.map_values(|r: NewsletterIssue| r@),
            queue: self.queue@.map_values(|r: DeliveryTask| r@),
            subscriptions: self.subscriptions@.map_values(|r: Subscription| r@),
            tokens: self.tokens@.map_values(|r: SubscriptionToken| r@),
            next_issue_id: self.next_issue_id,
            next_subscriber_id: self.next_subscriber_id,
        }
    }
}

/// Whether record `r` is the row for `(actor_id, key)`.
pub open spec fn rec_match(r: RecordView, actor_id: u64, key: Seq<char>) -> bool {
    r.actor_id == actor_id && r.idempotency_key == key
}

/// Whether task `t` is the row for `(issue_id, recipient)`.
pub open spec fn task_match(t: TaskView, issue_id: u64, recipient: Seq<char>) -> bool {
    t.issue_id == issue_id && t.recipient == recipient
}

/// An issue with id `issue_id` occurs in `issues`.
pub open spec fn has_issue_in(issues: Seq<IssueView>, issue_id: u64) -> bool {
    exists|i: int| 0 <= i < issues.len() && (#[trigger] issues[i]).issue_id == issue_id
}

/// The position of the issue with id `issue_id` in `issues`; meaningful
/// only when [`has_issue_in`] holds.
pub open spec fn issue_pos(issues: Seq<IssueView>, issue_id: u64) -> int {
    choose|i: int| 0 <= i < issues.len() && (#[trigger] issues[i]).issue_id == issue_id
}

impl StoreView {
    /// The idempotency table holds a row for `(actor_id, key)`.
    pub open spec fn has_record(self, actor_id: u64, key: Seq<char>) -> bool {
        exists|i: int|
            0 <= i < self.idempotency.len() && rec_match(#[trigger] self.idempotency[i], actor_id, key)
    }

    /// The index of the row for `(actor_id, key)`; meaningful only when
    /// [`Self::has_record`] holds (by well-formedness it is then unique).
    pub open spec fn record_index(self, actor_id: u64, key: Seq<char>) -> int {
        choose|i: int|
            0 <= i < self.idempotency.len() && rec_match(#[trigger] self.idempotency[i], actor_id, key)
    }

    /// The row for `(actor_id, key)`.
    pub open spec fn record(self, actor_id: u64, key: Seq<char>) -> RecordView {
        self.idempotency[self.record_index(actor_id, key)]
    }

    /// An issue with id `issue_id` exists.
    pub open spec fn has_issue(self, issue_id: u64) -> bool {
        has_issue_in(self.issues, issue_id)
    }

    /// The index of the issue with id `issue_id`; unique by well-formedness.
    pub open spec fn issue_index(self, issue_id: u64) -> int {
        issue_pos(self.issues, issue_id)
    }

    /// The issue with id `issue_id`.
    pub open spec fn issue(self, issue_id: u64) -> IssueView {
        self.issues[issue_pos(self.issues, issue_id)]
    }

    /// The delivery queue holds a row for `(issue_id, recipient)`.
    pub open spec fn has_task(self, issue_id: u64, recipient: Seq<char>) -> bool {
        exists|i: int|
            0 <= i < self.queue.len() && task_match(#[trigger] self.queue[i], issue_id, recipient)
    }

    /// The index of the queue row for `(issue_id, recipient)`; unique by
    /// well-formedness.
    pub open spec fn task_index(self, issue_id: u64, recipient: Seq<char>) -> int {
        choose|i: int|
            0 <= i < self.queue.len() && task_match(#[trigger] self.queue[i], issue_id, recipient)
    }

    /// Uniqueness of the idempotency key per actor: at most one row per
    /// `(actor_id, idempotency_key)` pair.
    pub open spec fn records_unique(self) -> bool {
        forall|i: int, j: int|
            0 <= i < j < self.idempotency.len() ==> !rec_match(
                #[trigger] self.idempotency[j],
                (#[trigger] self.idempotency[i]).actor_id,
                self.idempotency[i].idempotency_key,
            )
    }

    /// Issue ids are unique and below the generator counter.
    pub open spec fn issues_unique(self) -> bool {
        &&& forall|i: int|
            0 <= i < self.issues.len() ==> (#[trigger] self.issues[i]).issue_id
                < self.next_issue_id
        &&& forall|i: int, j: int|
            0 <= i < j < self.issues.len() ==> (#[trigger] self.issues[i]).issue_id != (
            #[trigger] self.issues[j]).issue_id
    }

    /// Queue rows are unique per `(issue_id, recipient)` and every row
    /// refers to an existing issue; the fan-out insert establishes the
    /// reference in the same transaction and issues are never deleted.
    pub open spec fn queue_wf(self) -> bool {
        &&& forall|i: int, j: int|
            0 <= i < j < self.queue.len() ==> !task_match(
                #[trigger] self.queue[j],
                (#[trigger] self.queue[i]).issue_id,
                self.queue[i].recipient,
            )
        &&& forall|i: int|
            0 <= i < self.queue.len() ==> self.has_issue((#[trigger] self.queue[i]).issue_id)
    }

    /// Subscriber emails are unique and ids are below the generator counter.
    pub open spec fn subscriptions_wf(self) -> bool {
        &&& forall|i: int|
            0 <= i < self.subscriptions.len() ==> (#[trigger] self.subscriptions[i]).id
                < self.next_subscriber_id
        &&& forall|i: int, j: int|
            0 <= i < j < self.subscriptions.len() ==> (#[trigger] self.subscriptions[i]).email != (
            #[trigger] self.subscriptions[j]).email
    }

    /// Confirmation tokens are unique.
    pub open spec fn tokens_unique(self) -> bool {
        forall|i: int, j: int|
            0 <= i < j < self.tokens.len() ==> (#[trigger] self.tokens[i]).token != (
            #[trigger] self.tokens[j]).token
    }

    /// Well-formedness of the whole store. Established by [`Store::new`] and
    /// preserved by every operation of the library.
    pub open spec fn wf(self) -> bool {
        &&& self.records_unique()
        &&& self.issues_unique()
        &&& self.queue_wf()
        &&& self.subscriptions_wf()
        &&& self.tokens_unique()
    }

    /// Any index holding the row for `(actor_id, key)` is the
    /// [`Self::record_index`].
    pub proof fn lemma_record_index(self, actor_id: u64, key: Seq<char>, i: int)
        requires
            self.records_unique(),
            0 <= i < self.idempotency.len(),
            rec_match(self.idempotency[i], actor_id, key),
        ensures
            self.has_record(actor_id, key),
            self.record_index(actor_id, key) == i,
    {
        assert(self.has_record(actor_id, key));
        let j = self.record_index(actor_id, key);
        if i < j {
            assert(!rec_match(self.idempotency[j], self.idempotency[i].actor_id,
                    self.idempotency[i].idempotency_key));
        } else if j < i {
            assert(!rec_match(self.idempotency[i], self.idempotency[j].actor_id,
                    self.idempotency[j].idempotency_key));
        }
    }

    /// Any index holding an issue with id `issue_id` is the
    /// [`Self::issue_index`].
    pub proof fn lemma_issue_index(self, issue_id: u64, i: int)
        requires
            self.issues_unique(),
            0 <= i < self.issues.len(),
            self.issues[i].issue_id == issue_id,
        ensures
            self.has_issue(issue_id),
            self.issue_index(issue_id) == i,
    {
        assert(self.has_issue(issue_id));
    }

    /// `queue_wf` carries over to a store with equal queue and issues.
    pub proof fn lemma_queue_wf_transfer(a: StoreView, b: StoreView)
        requires
            a.queue_wf(),
            b.queue == a.queue,
            b.issues == a.issues,
        ensures
            b.queue_wf(),
    {
        assert forall|i: int| 0 <= i < b.queue.len() implies b.has_issue(
            (#[trigger] b.queue[i]).issue_id,
        ) by {
            assert(a.has_issue(a.queue[i].issue_id));
            let w = a.issue_index(a.queue[i].issue_id);
            assert(b.issues[w].issue_id == b.queue[i].issue_id);
        }
    }

    /// `queue_wf` carries over when the rows keep their identity pairwise
    /// and only lock flags change.
    pub proof fn lemma_queue_wf_pointwise(a: StoreView, b: StoreView)
        requires
            a.queue_wf(),
            b.issues == a.issues,
            b.queue.len() == a.queue.len(),
            forall|k: int|
                0 <= k < a.queue.len() ==> (#[trigger] b.queue[k]).issue_id == a.queue[k].issue_id
                    && b.queue[k].recipient == a.queue[k].recipient,
        ensures
            b.queue_wf(),
    {
        assert forall|i: int, j: int| 0 <= i < j < b.queue.len() implies !task_match(
            #[trigger] b.queue[j],
            (#[trigger] b.queue[i]).issue_id,
            b.queue[i].recipient,
        ) by {
            assert(!task_match(a.queue[j], a.queue[i].issue_id, a.queue[i].recipient));
        }
        assert forall|i: int| 0 <= i < b.queue.len() implies b.has_issue(
            (#[trigger] b.queue[i]).issue_id,
        ) by {
            assert(a.has_issue(a.queue[i].issue_id));
        }
    }

    /// Any index holding the queue row for `(issue_id, recipient)` is the
    /// [`Self::task_index`].
    pub proof fn lemma_task_index(self, issue_id: u64, recipient: Seq<char>, i: int)
        requires
            self.queue_wf(),
            0 <= i < self.queue.len(),
            task_match(self.queue[i], issue_id, recipient),
        ensures
            self.has_task(issue_id, recipient),
            self.task_index(issue_id, recipient) == i,
    {
        assert(self.has_task(issue_id, recipient));
        let j = self.task_index(issue_id, recipient);
        if i < j {
            assert(!task_match(self.queue[j], self.queue[i].issue_id, self.queue[i].recipient));
        } else if j < i {
            assert(!task_match(self.queue[i], self.queue[j].issue_id, self.queue[j].recipient));
        }
    }
}

/// The emails of the confirmed subscribers, in roster order.
pub open spec fn confirmed_emails(subs: Seq<SubscriptionView>) -> Seq<Seq<char>>
    decreases subs.len(),
{
    if subs.len() == 0 {
        Seq::empty()
    } else {
        let rest = confirmed_emails(subs.drop_last());
        if subs.last().confirmed {
            rest.push(subs.last().email)
        } else {
            rest
        }
    }
}

/// `e` is the email of a confirmed subscriber on the roster `subs`.
pub open spec fn confirmed_email_of(subs: Seq<SubscriptionView>, e: Seq<char>) -> bool {
    exists|m: int| 0 <= m < subs.len() && (#[trigger] subs[m]).confirmed && subs[m].email == e
}

/// With pairwise-distinct subscriber emails, the confirmed emails are
/// pairwise distinct, and each belongs to a confirmed subscriber.
pub proof fn lemma_confirmed_emails(subs: Seq<SubscriptionView>)
    requires
        forall|i: int, j: int|
            0 <= i < j < subs.len() ==> (#[trigger] subs[i]).email != (#[trigger] subs[j]).email,
    ensures
        confirmed_emails(subs).len() <= subs.len(),
        forall|k: int|
            0 <= k < confirmed_emails(subs).len() ==> confirmed_email_of(
                subs,
                #[trigger] confirmed_emails(subs)[k],
            ),
        forall|k: int, l: int|
            0 <= k < l < confirmed_emails(subs).len() ==> #[trigger] confirmed_emails(subs)[k]
                != #[trigger] confirmed_emails(subs)[l],
    decreases subs.len(),
{
    if subs.len() > 0 {
        let prefix = subs.drop_last();
        lemma_confirmed_emails(prefix);
        let ce = confirmed_emails(subs);
        let cp = confirmed_emails(prefix);
        if subs.last().confirmed {
            assert(ce == cp.push(subs.last().email));
        } else {
            assert(ce == cp);
        }
        assert forall|k: int| #![trigger ce[k]] 0 <= k < ce.len() implies confirmed_email_of(
            subs,
            ce[k],
        ) by {
            if k < cp.len() {
                assert(ce[k] == cp[k]);
                let m = choose|m: int|
                    0 <= m < prefix.len() && (#[trigger] prefix[m]).confirmed && prefix[m].email
                        == cp[k];
                assert(prefix[m] == subs[m]);
                assert(subs[m].confirmed && subs[m].email == ce[k]);
            } else {
                let m = subs.len() - 1;
                assert(subs[m] == subs.last());
                assert(subs[m].confirmed && subs[m].email == ce[k]);
            }
        }
        assert forall|k: int, l: int| #![trigger ce[k], ce[l]] 0 <= k < l < ce.len() implies ce[k]
            != ce[l] by {
            if l < cp.len() {
                assert(cp[k] != cp[l]);
            } else {
                // l names the freshly appended confirmed email; k names a
                // confirmed email of the prefix, whose owner differs from
                // the last subscriber, so the emails differ.
                assert(ce[k] == cp[k]);
                let m = choose|m: int|
                    0 <= m < prefix.len() && (#[trigger] prefix[m]).confirmed && prefix[m].email
                        == cp[k];
                assert(prefix[m] == subs[m]);
                assert(subs[m].email != subs[subs.len() - 1].email);
                assert(ce[l] == subs.last().email);
            }
        }
    }
}

impl Store {
    /// An empty store: no records, no issues, no pending deliveries, no
    /// subscribers.
    pub fn new() -> (r: Store)
        ensures
            r@.idempotency == Seq::<RecordView>::empty(),
            r@.issues == Seq::<IssueView>::empty(),
            r@.queue == Seq::<TaskView>::empty(),
            r@.subscriptions == Seq::<SubscriptionView>::empty(),
            r@.tokens == Seq::<TokenView>::empty(),
            r@.next_issue_id == 0,
            r@.next_subscriber_id == 0,
            r@.wf(),
    {
        let r = Store {
            idempotency: Vec::new(),
            issues: Vec::new(),
            queue: Vec::new(),
            subscriptions: Vec::new(),
            tokens: Vec::new(),
            next_issue_id: 0,
            next_subscriber_id: 0,
        };
        proof {
            assert(r@.idempotency =~= Seq::<RecordView>::empty());
            assert(r@.issues =~= Seq::<IssueView>::empty());
            assert(r@.queue =~= Seq::<TaskView>::empty());
            assert(r@.subscriptions =~= Seq::<SubscriptionView>::empty());
            assert(r@.tokens =~= Seq::<TokenView>::empty());
        }
        r
    }

    /// Adds a subscriber already in the confirmed state, as the confirmation
    /// flow would leave them. Fails (leaving the store unchanged) when the
    /// email is already on the roster.
    pub fn add_confirmed_subscriber(&mut self, email: String, name: String) -> (r: Result<
        u64,
        (),
    >)
        requires
            old(self)@.wf(),
            old(self)@.next_subscriber_id < u64::MAX,
        ensures
            final(self)@.wf(),
            final(self)@.idempotency == old(self)@.idempotency,
            final(self)@.issues == old(self)@.issues,
            final(self)@.queue == old(self)@.queue,
            final(self)@.tokens == old(self)@.tokens,
            final(self)@.next_issue_id == old(self)@.next_issue_id,
            (exists|i: int|
                0 <= i < old(self)@.subscriptions.len() && (#[trigger] old(
                    self,
                )@.subscriptions[i]).email == email@) ==> {
                &&& r is Err
                &&& final(self)@ == old(self)@
            },
            !(exists|i: int|
                0 <= i < old(self)@.subscriptions.len() && (#[trigger] old(
                    self,
                )@.subscriptions[i]).email == email@) ==> {
                &&& r matches Ok(id) && id == old(self)@.next_subscriber_id
                &&& final(self)@.subscriptions == old(self)@.subscriptions.push(
                    SubscriptionView {
                        id: old(self)@.next_subscriber_id,
                        email: email@,
                        name: name@,
                        confirmed: true,
                    },
                )
                &&& final(self)@.next_subscriber_id == old(self)@.next_subscriber_id + 1
            },
    {
        let ghost old_view = self@;
        let mut i: usize = 0;
        let n = self.subscriptions.len();
        while i < n
            invariant
                n == self.subscriptions.len(),
                0 <= i <= n,
                old_view == old(self)@,
                old_view.wf(),
                self@ == old_view,
                forall|k: int| 0 <= k < i ==> (#[trigger] old_view.subscriptions[k]).email != email@,
            decreases n - i,
        {
            if self.subscriptions[i].email == email {
                proof {
                    assert(self@ == old(self)@);
                    assert(old(self)@.subscriptions[i as int].email == email@);
                    assert(self@.wf());
                }
                return Err(());
            }
            i += 1;
        }
        let id = self.next_subscriber_id;
        self.subscriptions.push(
            Subscription { id, email: email, name: name, confirmed: true },
        );
        self.next_subscriber_id = id + 1;
        proof {
            assert(self@.subscriptions =~= old_view.subscriptions.push(
                SubscriptionView { id: id, email: email@, name: name@, confirmed: true },
            ));
            assert(self@.idempotency =~= old_view.idempotency);
            assert(self@.issues =~= old_view.issues);
            assert(self@.queue =~= old_view.queue);
            assert(self@.tokens =~= old_view.tokens);
            StoreView::lemma_queue_wf_transfer(old_view, self@);
        }
        Ok(id)
    }
}

} // verus!

//! Claiming and resolving idempotency keys.
//!
//! One row per `(actor_id, idempotency_key)` pair deduplicates retried
//! requests. [`claim`] atomically inserts a placeholder row and hands the
//! caller an open [`UnitOfWork`]; a retry finds the row and either replays
//! the saved response or reports a conflict while the first execution is
//! still in flight. [`save`] resolves the row and commits the unit of work's
//! pending writes in one atomic step; [`abort`] rolls everything back,
//! including the placeholder, leaving the key claimable again.

use vstd::prelude::*;

use crate::response::{HttpResponse, HttpResponseView};
use crate::store::{
    rec_match, task_match, DeliveryTask, IdempotencyRecord, IssueView, NewsletterIssue, RecordView,
    Store, StoreView, TaskView,
};

verus! {

/// A syntactically acceptable idempotency key: non-empty and under 50
/// characters.
pub open spec fn valid_key(k: Seq<char>) -> bool {
    0 < k.len() < 50
}

/// A client-supplied idempotency key whose syntax has been checked.
pub struct IdempotencyKey(String);

impl View for IdempotencyKey {
    type V = Seq<char>;

    closed spec fn view(&self) -> Seq<char> {
        self.0@
    }
}

impl IdempotencyKey {
    /// Validates the syntax of a client-supplied key.
    pub fn try_from(s: String) -> (r: Result<IdempotencyKey, String>)
        ensures
            r is Ok <==> valid_key(s@),
            r matches Ok(k) ==> k@ == s@,
            r matches Err(m) ==> (s@.len() == 0 ==> m@ == "The idempotency key cannot be empty"@)
                && (s@.len() >= 50 ==> m@
                == "The idempotency key must be shorter than 50 characters"@),
    {
        let n = s.as_str().unicode_len();
        if n == 0 {
            Err("The idempotency key cannot be empty".to_owned())
        } else if n >= 50 {
            Err("The idempotency key must be shorter than 50 characters".to_owned())
        } else {
            Ok(IdempotencyKey(s))
        }
    }

    /// The key string.
    pub fn as_ref(&self) -> (r: &str)
        ensures
            r@ == self@,
    {
        self.0.as_str()
    }
}

/// A concurrent execution for the same `(actor, key)` pair has claimed the
/// key and not resolved it yet (or a crashed attempt abandoned it). The
/// caller may retry later; the library surfaces the conflict rather than
/// blocking.
#[derive(Debug)]
pub struct ConflictError;

/// An open transaction created by a successful [`claim`]. It carries the
/// writes of the business operation; nothing becomes visible in the store
/// until [`save`] commits them together with the resolved response.
pub struct UnitOfWork {
    pub actor_id: u64,
    pub idempotency_key: String,
    pub pending_issue: Option<NewsletterIssue>,
    pub pending_tasks: Vec<DeliveryTask>,
}

/// Mathematical value of a [`UnitOfWork`].
#[verifier::ext_equal]
pub struct UowView {
    pub actor_id: u64,
    pub idempotency_key: Seq<char>,
    pub pending_issue: Option<IssueView>,
    pub pending_tasks: Seq<TaskView>,
}

impl View for UnitOfWork {
    type V = UowView;

    open spec fn view(&self) -> UowView {
        UowView {
            actor_id: self.actor_id,
            idempotency_key: self.idempotency_key@,
            pending_issue: match self.pending_issue {
                Some(i) => Some(i@),
                None => None,
            },
            pending_tasks: self.pending_tasks@.map_values(|t: DeliveryTask| t@),
        }
    }
}

impl UowView {
    /// The unit of work can be committed against store `s` without breaking
    /// its invariants: the pending issue id is fresh and below the
    /// generator, and the pending tasks all belong to the pending issue,
    /// name pairwise-distinct unclaimed recipients.
    pub open spec fn valid_for(self, s: StoreView) -> bool {
        &&& (self.pending_issue matches Some(pi) ==> {
            &&& pi.issue_id < s.next_issue_id
            &&& !s.has_issue(pi.issue_id)
            &&& forall|i: int|
                0 <= i < self.pending_tasks.len() ==> (#[trigger] self.pending_tasks[i]).issue_id
                    == pi.issue_id
        })
        &&& (self.pending_issue is None ==> self.pending_tasks.len() == 0)
        &&& forall|i: int, j: int|
            0 <= i < j < self.pending_tasks.len() ==> (#[trigger] self.pending_tasks[i]).recipient
                != (#[trigger] self.pending_tasks[j]).recipient
        &&& forall|i: int| 0 <= i < self.pending_tasks.len() ==> !(#[trigger] self.pending_tasks[i]).claimed
    }
}

/// The placeholder row [`claim`] inserts.
pub open spec fn unresolved_record(actor_id: u64, key: Seq<char>) -> RecordView {
    RecordView { actor_id: actor_id, idempotency_key: key, response: None }
}

/// The resolved row [`save`] leaves behind.
pub open spec fn resolved_record(actor_id: u64, key: Seq<char>, resp: HttpResponseView) -> RecordView {
    RecordView { actor_id: actor_id, idempotency_key: key, response: Some(resp) }
}

/// The view of a fresh unit of work for `(actor_id, key)`.
pub open spec fn fresh_uow(actor_id: u64, key: Seq<char>) -> UowView {
    UowView {
        actor_id: actor_id,
        idempotency_key: key,
        pending_issue: None,
        pending_tasks: Seq::empty(),
    }
}

/// The issues contributed by a pending issue on commit.
pub open spec fn issue_seq(pi: Option<IssueView>) -> Seq<IssueView> {
    match pi {
        Some(x) => seq![x],
        None => Seq::empty(),
    }
}

/// The store transition of a successful claim: the key had no row, and
/// exactly the placeholder row was added.
pub open spec fn claim_acquires(s0: StoreView, s1: StoreView, actor_id: u64, key: Seq<char>) -> bool {
    &&& !s0.has_record(actor_id, key)
    &&& s1.idempotency == s0.idempotency.push(unresolved_record(actor_id, key))
    &&& s1.issues == s0.issues
    &&& s1.queue == s0.queue
    &&& s1.subscriptions == s0.subscriptions
    &&& s1.tokens == s0.tokens
    &&& s1.next_issue_id == s0.next_issue_id
    &&& s1.next_subscriber_id == s0.next_subscriber_id
}

/// Concurrent submissions have a single winner: after a claim acquires
/// `(actor, key)`, the row exists, and from any store that holds the row no
/// further claim can acquire the same pair — the others observe the saved
/// response or a conflict, never a second acquisition.
pub proof fn lemma_single_claimant(s0: StoreView, s1: StoreView, actor_id: u64, key: Seq<char>)
    requires
        claim_acquires(s0, s1, actor_id, key),
    ensures
        s1.has_record(actor_id, key),
        forall|s2: StoreView| !claim_acquires(s1, s2, actor_id, key),
{
    let n = s0.idempotency.len() as int;
    assert(rec_match(s1.idempotency[n], actor_id, key));
    assert(s1.has_record(actor_id, key));
    assert forall|s2: StoreView| !claim_acquires(s1, s2, actor_id, key) by {
        if claim_acquires(s1, s2, actor_id, key) {
            assert(!s1.has_record(actor_id, key));
        }
    }
}

/// The outcome of [`claim`]: either the key was already resolved and the
/// saved response is replayed verbatim, or the caller acquired the key and
/// owns the open unit of work.
pub enum ClaimOutcome {
    AlreadyResolved(HttpResponse),
    Acquired(UnitOfWork),
}

/// Claims `(actor_id, key)`.
///
/// Atomically inserts a placeholder row when none exists and returns the
/// open unit of work; the caller must eventually [`save`] or [`abort`] it.
/// When a row exists the store is left untouched: a resolved row replays
/// the exact stored response (status, header order and multiplicity, body);
/// an unresolved row surfaces a [`ConflictError`], never a silent success.
pub fn claim(store: &mut Store, actor_id: u64, key: &IdempotencyKey) -> (r: Result<
    ClaimOutcome,
    ConflictError,
>)
    requires
        old(store)@.wf(),
    ensures
        final(store)@.wf(),
        old(store)@.has_record(actor_id, key@) ==> {
            &&& final(store)@ == old(store)@
            &&& (old(store)@.record(actor_id, key@).response matches Some(resp) ==> r matches Ok(
                ClaimOutcome::AlreadyResolved(saved),
            ) && saved@ == resp)
            &&& (old(store)@.record(actor_id, key@).response is None ==> r is Err)
        },
        !old(store)@.has_record(actor_id, key@) ==> {
            &&& r matches Ok(ClaimOutcome::Acquired(uow)) && uow@ == fresh_uow(actor_id, key@)
            &&& claim_acquires(old(store)@, final(store)@, actor_id, key@)
        },
{
    let ghost old_view = store@;
    let mut i: usize = 0;
    let n = store.idempotency.len();
    while i < n
        invariant
            n == store.idempotency.len(),
            0 <= i <= n,
            old_view == old(store)@,
            old_view.wf(),
            store@ == old_view,
            forall|k: int|
                0 <= k < i ==> !rec_match(#[trigger] old_view.idempotency[k], actor_id, key@),
        decreases n - i,
    {
        let rec = &store.idempotency[i];
        if rec.actor_id == actor_id && rec.idempotency_key == key.0 {
            proof {
                assert(rec_match(old_view.idempotency[i as int], actor_id, key@));
                old_view.lemma_record_index(actor_id, key@, i as int);
                assert(store@ == old(store)@);
            }
            match &store.idempotency[i].response {
                Some(resp) => {
                    let saved = resp.clone();
                    return Ok(ClaimOutcome::AlreadyResolved(saved));
                },
                None => {
                    return Err(ConflictError);
                },
            }
        }
        i += 1;
    }
    // No row yet: insert the placeholder and hand out the unit of work.
    let record = IdempotencyRecord {
        actor_id,
        idempotency_key: key.as_ref().to_owned(),
        response: None,
    };
    store.idempotency.push(record);
    let uow = UnitOfWork {
        actor_id,
        idempotency_key: key.as_ref().to_owned(),
        pending_issue: None,
        pending_tasks: Vec::new(),
    };
    proof {
        assert(!old_view.has_record(actor_id, key@));
        assert(store@.idempotency =~= old_view.idempotency.push(unresolved_record(actor_id, key@)));
        assert(store@.issues =~= old_view.issues);
        assert(store@.queue =~= old_view.queue);
        assert(store@.subscriptions =~= old_view.subscriptions);
        assert(store@.tokens =~= old_view.tokens);
        assert(uow@.pending_tasks =~= Seq::<TaskView>::empty());
        assert(uow@ =~= fresh_uow(actor_id, key@));
        // Well-formedness: the new row's key pair matches no existing row.
        assert forall|a: int, b: int| 0 <= a < b < store@.idempotency.len() implies !rec_match(
            #[trigger] store@.idempotency[b],
            (#[trigger] store@.idempotency[a]).actor_id,
            store@.idempotency[a].idempotency_key,
        ) by {
            if b == store@.idempotency.len() - 1 {
                assert(!rec_match(old_view.idempotency[a], actor_id, key@));
            }
        }
        StoreView::lemma_queue_wf_transfer(old_view, store@);
    }
    Ok(ClaimOutcome::Acquired(uow))
}

/// Resolves the claimed key and commits the unit of work.
///
/// In one atomic step the placeholder row receives the response (status,
/// headers in order, body), the pending issue and delivery tasks become
/// visible, and the transaction ends. The very same response value is handed
/// back for forwarding to the client. This commit is the single point that
/// makes the business mutation and the idempotency resolution atomic: if the
/// process crashes before it, nothing of the operation remains visible.
pub fn save(store: &mut Store, uow: UnitOfWork, response: HttpResponse) -> (r: HttpResponse)
    requires
        old(store)@.wf(),
        old(store)@.has_record(uow@.actor_id, uow@.idempotency_key),
        old(store)@.record(uow@.actor_id, uow@.idempotency_key).response is None,
        uow@.valid_for(old(store)@),
    ensures
        final(store)@.wf(),
        r == response,
        final(store)@.idempotency == old(store)@.idempotency.update(
            old(store)@.record_index(uow@.actor_id, uow@.idempotency_key),
            resolved_record(uow@.actor_id, uow@.idempotency_key, response@),
        ),
        final(store)@.issues == old(store)@.issues + issue_seq(uow@.pending_issue),
        final(store)@.queue == old(store)@.queue + uow@.pending_tasks,
        final(store)@.subscriptions == old(store)@.subscriptions,
        final(store)@.tokens == old(store)@.tokens,
        final(store)@.next_issue_id == old(store)@.next_issue_id,
        final(store)@.next_subscriber_id == old(store)@.next_subscriber_id,
{
    let ghost old_view = store@;
    let ghost uv = uow@;
    let UnitOfWork { actor_id, idempotency_key, pending_issue, mut pending_tasks } = uow;
    let idx = find_record(store, actor_id, &idempotency_key);
    proof {
        old_view.lemma_record_index(actor_id, uv.idempotency_key, idx as int);
    }
    let stored = response.clone();
    let record = IdempotencyRecord {
        actor_id,
        idempotency_key: idempotency_key,
        response: Some(stored),
    };
    store.idempotency.set(idx, record);
    match pending_issue {
        Some(issue) => {
            store.issues.push(issue);
        },
        None => {},
    }
    let ghost mid_view = store@;
    store.queue.append(&mut pending_tasks);
    proof {
        let ri = old_view.record_index(uv.actor_id, uv.idempotency_key);
        assert(store@.idempotency =~= old_view.idempotency.update(
            ri,
            resolved_record(uv.actor_id, uv.idempotency_key, response@),
        ));
        assert(store@.issues =~= old_view.issues + issue_seq(uv.pending_issue));
        assert(store@.queue =~= old_view.queue + uv.pending_tasks);
        assert(store@.subscriptions =~= old_view.subscriptions);
        assert(store@.tokens =~= old_view.tokens);
        lemma_save_wf(old_view, store@, uv, response@);
    }
    response
}

/// Aborts the unit of work: the placeholder row disappears with it, so the
/// key becomes claimable again and a retry re-executes cleanly.
pub fn abort(store: &mut Store, uow: UnitOfWork)
    requires
        old(store)@.wf(),
        old(store)@.has_record(uow@.actor_id, uow@.idempotency_key),
        old(store)@.record(uow@.actor_id, uow@.idempotency_key).response is None,
    ensures
        final(store)@.wf(),
        final(store)@.idempotency == old(store)@.idempotency.remove(
            old(store)@.record_index(uow@.actor_id, uow@.idempotency_key),
        ),
        final(store)@.issues == old(store)@.issues,
        final(store)@.queue == old(store)@.queue,
        final(store)@.subscriptions == old(store)@.subscriptions,
        final(store)@.tokens == old(store)@.tokens,
        final(store)@.next_issue_id == old(store)@.next_issue_id,
        final(store)@.next_subscriber_id == old(store)@.next_subscriber_id,
{
    let ghost old_view = store@;
    let ghost uv = uow@;
    let idx = find_record(store, uow.actor_id, &uow.idempotency_key);
    proof {
        old_view.lemma_record_index(uv.actor_id, uv.idempotency_key, idx as int);
    }
    store.idempotency.remove(idx);
    proof {
        let ri = old_view.record_index(uv.actor_id, uv.idempotency_key);
        assert(store@.idempotency =~= old_view.idempotency.remove(ri));
        assert(store@.issues =~= old_view.issues);
        assert(store@.queue =~= old_view.queue);
        assert(store@.subscriptions =~= old_view.subscriptions);
        assert(store@.tokens =~= old_view.tokens);
        // Uniqueness survives deletion: the remaining rows are a
        // subsequence of the old ones.
        assert forall|a: int, b: int| 0 <= a < b < store@.idempotency.len() implies !rec_match(
            #[trigger] store@.idempotency[b],
            (#[trigger] store@.idempotency[a]).actor_id,
            store@.idempotency[a].idempotency_key,
        ) by {
            let a0: int = if a < ri { a } else { a + 1 };
            let b0: int = if b < ri { b } else { b + 1 };
            assert(store@.idempotency[a] == old_view.idempotency[a0]);
            assert(store@.idempotency[b] == old_view.idempotency[b0]);
        }
        StoreView::lemma_queue_wf_transfer(old_view, store@);
    }
}

/// The index of the row for `(actor_id, key)`, which the caller knows to
/// exist.
fn find_record(store: &Store, actor_id: u64, key: &String) -> (idx: usize)
    requires
        store@.wf(),
        store@.has_record(actor_id, key@),
    ensures
        idx < store@.idempotency.len(),
        rec_match(store@.idempotency[idx as int], actor_id, key@),
{
    let n = store.idempotency.len();
    let mut i: usize = 0;
    while i < n
        invariant
            n == store.idempotency.len(),
            0 <= i <= n,
            store@.has_record(actor_id, key@),
            forall|k: int|
                0 <= k < i ==> !rec_match(#[trigger] store@.idempotency[k], actor_id, key@),
        decreases n - i,
    {
        let rec = &store.idempotency[i];
        if rec.actor_id == actor_id && rec.idempotency_key == *key {
            return i;
        }
        i += 1;
    }
    // Unreachable: the row exists by precondition.
    proof {
        let w = choose|w: int|
            0 <= w < store@.idempotency.len() && rec_match(
                #[trigger] store@.idempotency[w],
                actor_id,
                key@,
            );
        assert(!rec_match(store@.idempotency[w], actor_id, key@));
    }
    unreached()
}

/// Committing a valid unit of work preserves the store invariants.
proof fn lemma_save_wf(a: StoreView, b: StoreView, uv: UowView, resp: HttpResponseView)
    requires
        a.wf(),
        a.has_record(uv.actor_id, uv.idempotency_key),
        uv.valid_for(a),
        b.idempotency == a.idempotency.update(
            a.record_index(uv.actor_id, uv.idempotency_key),
            resolved_record(uv.actor_id, uv.idempotency_key, resp),
        ),
        b.issues == a.issues + issue_seq(uv.pending_issue),
        b.queue == a.queue + uv.pending_tasks,
        b.subscriptions == a.subscriptions,
        b.tokens == a.tokens,
        b.next_issue_id == a.next_issue_id,
        b.next_subscriber_id == a.next_subscriber_id,
    ensures
        b.wf(),
{
    let ri = a.record_index(uv.actor_id, uv.idempotency_key);
    // Records: the updated row keeps its key pair.
    assert forall|i: int, j: int| 0 <= i < j < b.idempotency.len() implies !rec_match(
        #[trigger] b.idempotency[j],
        (#[trigger] b.idempotency[i]).actor_id,
        b.idempotency[i].idempotency_key,
    ) by {
        assert(b.idempotency[i].actor_id == a.idempotency[i].actor_id);
        assert(b.idempotency[i].idempotency_key == a.idempotency[i].idempotency_key);
        assert(b.idempotency[j].actor_id == a.idempotency[j].actor_id);
        assert(b.idempotency[j].idempotency_key == a.idempotency[j].idempotency_key);
        assert(!rec_match(a.idempotency[j], a.idempotency[i].actor_id,
                a.idempotency[i].idempotency_key));
    }
    // Issues: the appended issue has a fresh id.
    assert forall|i: int, j: int| 0 <= i < j < b.issues.len() implies (
    #[trigger] b.issues[i]).issue_id != (#[trigger] b.issues[j]).issue_id by {
        if j < a.issues.len() {
            assert(b.issues[i] == a.issues[i] && b.issues[j] == a.issues[j]);
        } else {
            assert(b.issues[i] == a.issues[i]);
            assert(b.issues[j] == uv.pending_issue->Some_0);
            if a.issues[i].issue_id == b.issues[j].issue_id {
                assert(a.has_issue(b.issues[j].issue_id));
                assert(false);
            }
        }
    }
    assert forall|i: int| 0 <= i < b.issues.len() implies (#[trigger] b.issues[i]).issue_id
        < b.next_issue_id by {
        if i < a.issues.len() {
            assert(b.issues[i] == a.issues[i]);
        }
    }
    // Queue rows: old rows refer to old issues, new rows to the fresh
    // issue, so no two rows collide and every row's issue exists.
    assert forall|i: int, j: int| 0 <= i < j < b.queue.len() implies !task_match(
        #[trigger] b.queue[j],
        (#[trigger] b.queue[i]).issue_id,
        b.queue[i].recipient,
    ) by {
        if j < a.queue.len() {
            assert(b.queue[i] == a.queue[i] && b.queue[j] == a.queue[j]);
            assert(!task_match(a.queue[j], a.queue[i].issue_id, a.queue[i].recipient));
        } else if i >= a.queue.len() {
            assert(b.queue[i] == uv.pending_tasks[i - a.queue.len()]);
            assert(b.queue[j] == uv.pending_tasks[j - a.queue.len()]);
        } else {
            // An old row cannot name the fresh issue: its issue exists in
            // the old store, while the pending issue's id does not.
            assert(b.queue[i] == a.queue[i]);
            assert(b.queue[j] == uv.pending_tasks[j - a.queue.len()]);
            assert(a.has_issue(a.queue[i].issue_id));
            let pi = uv.pending_issue->Some_0;
            assert(b.queue[j].issue_id == pi.issue_id);
            if a.queue[i].issue_id == pi.issue_id {
                assert(a.has_issue(pi.issue_id));
                assert(false);
            }
        }
    }
    assert forall|i: int| 0 <= i < b.queue.len() implies b.has_issue(
        (#[trigger] b.queue[i]).issue_id,
    ) by {
        if i < a.queue.len() {
            assert(b.queue[i] == a.queue[i]);
            assert(a.has_issue(a.queue[i].issue_id));
            let w = a.issue_index(a.queue[i].issue_id);
            assert(b.issues[w] == a.issues[w]);
            assert(b.issues[w].issue_id == b.queue[i].issue_id);
        } else {
            let pi = uv.pending_issue->Some_0;
            let w = a.issues.len() as int;
            assert(b.issues[w] == pi);
            assert(b.queue[i] == uv.pending_tasks[i - a.queue.len()]);
            assert(b.issues[w].issue_id == b.queue[i].issue_id);
        }
    }
    assert(b.subscriptions_wf()) by {
        assert forall|i: int|
            0 <= i < b.subscriptions.len() implies (#[trigger] b.subscriptions[i]).id
            < b.next_subscriber_id by {
            assert(b.subscriptions[i] == a.subscriptions[i]);
        }
        assert forall|i: int, j: int|
            0 <= i < j < b.subscriptions.len() implies (#[trigger] b.subscriptions[i]).email != (
        #[trigger] b.subscriptions[j]).email by {
            assert(b.subscriptions[i] == a.subscriptions[i]);
            assert(b.subscriptions[j] == a.subscriptions[j]);
        }
    }
    assert(b.tokens_unique()) by {
        assert forall|i: int, j: int| 0 <= i < j < b.tokens.len() implies (
        #[trigger] b.tokens[i]).token != (#[trigger] b.tokens[j]).token by {
            assert(b.tokens[i] == a.tokens[i]);
            assert(b.tokens[j] == a.tokens[j]);
        }
    }
}

} // verus!

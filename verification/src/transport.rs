//! The outbound notification transport, modeled as a value.
//!
//! The real transport is an external collaborator reached over the network;
//! it applies its own timeout and a failed send has no side effect beyond
//! the error. For verification the library models it as a recorder: every
//! invocation is appended to `calls` in order, and the programmable
//! `failing` roster decides which recipients come back with a transient
//! error. An unverified driver that owns a real transport performs each
//! [`SendRequest`] itself around the worker's step functions.

use vstd::prelude::*;

verus! {

/// One delivery invocation: recipient plus the issue content.
pub struct SendRequest {
    pub recipient: String,
    pub title: String,
    pub html_content: String,
    pub text_content: String,
}

/// Mathematical value of a [`SendRequest`].
#[verifier::ext_equal]
pub struct SendRequestView {
    pub recipient: Seq<char>,
    pub title: Seq<char>,
    pub html_content: Seq<char>,
    pub text_content: Seq<char>,
}

impl View for SendRequest {
    type V = SendRequestView;

    open spec fn view(&self) -> SendRequestView {
        SendRequestView {
            recipient: self.recipient@,
            title: self.title@,
            html_content: self.html_content@,
            text_content: self.text_content@,
        }
    }
}

/// `r` is one of the recipients on the failing roster.
pub open spec fn fails_in(failing: Seq<Seq<char>>, r: Seq<char>) -> bool {
    exists|i: int| 0 <= i < failing.len() && failing[i] == r
}

/// The transport model: a call log and the recipients whose sends fail.
pub struct Transport {
    pub calls: Vec<SendRequest>,
    pub failing: Vec<String>,
}

/// Mathematical value of a [`Transport`].
#[verifier::ext_equal]
pub struct TransportView {
    pub calls: Seq<SendRequestView>,
    pub failing: Seq<Seq<char>>,
}

impl View for Transport {
    type V = TransportView;

    open spec fn view(&self) -> TransportView {
        TransportView {
            calls: self.calls@.map_values(|c: SendRequest| c@),
            failing: self.failing@.map_values(|f: String| f@),
        }
    }
}

impl Transport {
    /// A transport on which every send succeeds.
    pub fn new() -> (r: Transport)
        ensures
            r@.calls == Seq::<SendRequestView>::empty(),
            r@.failing == Seq::<Seq<char>>::empty(),
    {
        let r = Transport { calls: Vec::new(), failing: Vec::new() };
        proof {
            assert(r@.calls =~= Seq::<SendRequestView>::empty());
            assert(r@.failing =~= Seq::<Seq<char>>::empty());
        }
        r
    }

    /// Marks `recipient` as one whose sends fail with a transient error.
    pub fn fail_for(&mut self, recipient: String)
        ensures
            final(self)@.failing == old(self)@.failing.push(recipient@),
            final(self)@.calls == old(self)@.calls,
    {
        let ghost v0 = self@;
        let ghost rv = recipient@;
        self.failing.push(recipient);
        proof {
            assert(self@.failing =~= v0.failing.push(rv));
            assert(self@.calls =~= v0.calls);
        }
    }

    /// Performs one send. The invocation is recorded unconditionally; the
    /// result reports whether the transport accepted it.
    pub fn send(&mut self, request: SendRequest) -> (ok: bool)
        ensures
            final(self)@.calls == old(self)@.calls.push(request@),
            final(self)@.failing == old(self)@.failing,
            ok == !fails_in(old(self)@.failing, request@.recipient),
    {
        let ghost v0 = self@;
        let mut failed = false;
        let n = self.failing.len();
        let mut i: usize = 0;
        while i < n
            invariant
                n == self.failing.len(),
                0 <= i <= n,
                self@ == v0,
                !failed ==> forall|k: int| 0 <= k < i ==> v0.failing[k] != request@.recipient,
                failed ==> fails_in(v0.failing, request@.recipient),
            decreases n - i,
        {
            if self.failing[i] == request.recipient {
                proof {
                    assert(v0.failing[i as int] == request@.recipient);
                }
                failed = true;
            }
            i += 1;
        }
        let ghost task_req = request@;
        self.calls.push(request);
        proof {
            assert(self@.calls =~= v0.calls.push(task_req));
            assert(self@.failing =~= v0.failing);
        }
        !failed
    }
}

} // verus!

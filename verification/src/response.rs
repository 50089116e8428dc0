//! The HTTP-style responses that the command processor stores and replays.
//!
//! An idempotency record keeps the full response of the first execution:
//! status code, the header sequence in original order and multiplicity, and
//! the opaque body bytes. A retry with the same key must receive a
//! byte-identical copy, so responses have an exact mathematical view.

use vstd::prelude::*;

verus! {

/// One response header. Headers may repeat a name; order and multiplicity
/// are significant and preserved.
pub struct Header {
    pub name: String,
    pub value: String,
}

/// Mathematical value of a [`Header`].
pub struct HeaderView {
    pub name: Seq<char>,
    pub value: Seq<char>,
}

impl View for Header {
    type V = HeaderView;

    open spec fn view(&self) -> HeaderView {
        HeaderView { name: self.name@, value: self.value@ }
    }
}

impl Clone for Header {
    fn clone(&self) -> (r: Self)
        ensures
            r@ == self@,
    {
        Header { name: self.name.clone(), value: self.value.clone() }
    }
}

/// A response as the store persists it: status code, ordered header
/// sequence, and opaque body bytes.
pub struct HttpResponse {
    pub status: u16,
    pub headers: Vec<Header>,
    pub body: Vec<u8>,
}

/// Mathematical value of an [`HttpResponse`].
pub struct HttpResponseView {
    pub status: u16,
    pub headers: Seq<HeaderView>,
    pub body: Seq<u8>,
}

/// The view of a header sequence, element by element.
pub open spec fn headers_view(hs: Seq<Header>) -> Seq<HeaderView> {
    hs.map_values(|h: Header| h@)
}

impl View for HttpResponse {
    type V = HttpResponseView;

    open spec fn view(&self) -> HttpResponseView {
        HttpResponseView { status: self.status, headers: headers_view(self.headers@), body: self.body@ }
    }
}

impl Clone for HttpResponse {
    fn clone(&self) -> (r: Self)
        ensures
            r@ == self@,
    {
        let r = HttpResponse {
            status: self.status,
            headers: self.headers.clone(),
            body: self.body.clone(),
        };
        proof {
            assert forall|i: int| 0 <= i < self.headers@.len() implies r.headers@[i]@
                == self.headers@[i]@ by {
                assert(cloned::<Header>(self.headers@[i], r.headers@[i]));
            }
            assert(r@.headers =~= self@.headers);
            assert forall|i: int| 0 <= i < self.body@.len() implies r.body@[i] == self.body@[i] by {
                assert(cloned::<u8>(self.body@[i], r.body@[i]));
            }
            assert(r@.body =~= self@.body);
        }
        r
    }
}

/// The value of a redirect ("see other") response to the given location.
pub open spec fn see_other_view(location: Seq<char>) -> HttpResponseView {
    HttpResponseView {
        status: 303,
        headers: seq![HeaderView { name: "Location"@, value: location }],
        body: Seq::empty(),
    }
}

/// A redirect response pointing the client at `location`.
pub fn see_other(location: &str) -> (r: HttpResponse)
    ensures
        r@ == see_other_view(location@),
{
    let mut headers: Vec<Header> = Vec::new();
    headers.push(Header { name: "Location".to_owned(), value: location.to_owned() });
    let r = HttpResponse { status: 303, headers, body: Vec::new() };
    proof {
        assert(r@.headers =~= see_other_view(location@).headers);
        assert(r@.body =~= see_other_view(location@).body);
    }
    r
}

/// The value of an empty response with the given status code.
pub open spec fn empty_response_view(status: u16) -> HttpResponseView {
    HttpResponseView { status: status, headers: Seq::empty(), body: Seq::empty() }
}

/// An empty-bodied response with the given status code and no headers.
pub fn empty_response(status: u16) -> (r: HttpResponse)
    ensures
        r@ == empty_response_view(status),
{
    let r = HttpResponse { status: status, headers: Vec::new(), body: Vec::new() };
    proof {
        assert(r@.headers =~= empty_response_view(status).headers);
        assert(r@.body =~= empty_response_view(status).body);
    }
    r
}

} // verus!

//! HTTP responses as the ledger stores and replays them.
use vstd::prelude::*;

verus! {

/// One header of a stored response.
#[derive(Debug, PartialEq, Eq)]
pub struct HeaderPair {
    pub name: String,
    pub value: String,
}

/// A response kept for replay: status, headers in order, body bytes.
#[derive(Debug, PartialEq, Eq)]
pub struct SavedResponse {
    pub status: u16,
    pub headers: Vec<HeaderPair>,
    pub body: Vec<u8>,
}

/// What a stored response holds, as plain values.
pub struct ResponseView {
    pub status: u16,
    pub headers: Seq<(Seq<char>, Seq<char>)>,
    pub body: Seq<u8>,
}

impl View for HeaderPair {
    type V = (Seq<char>, Seq<char>);

    open spec fn view(&self) -> (Seq<char>, Seq<char>) {
        (self.name@, self.value@)
    }
}

impl View for SavedResponse {
    type V = ResponseView;

    open spec fn view(&self) -> ResponseView {
        ResponseView {
            status: self.status,
            headers: self.headers@.map_values(|h: HeaderPair| h@),
            body: self.body@,
        }
    }
}

impl HeaderPair {
    /// A copy of the header.
    pub fn duplicate(&self) -> (r: HeaderPair)
        ensures
            r@ == self@,
    {
        HeaderPair { name: self.name.clone(), value: self.value.clone() }
    }
}

impl SavedResponse {
    /// A byte-for-byte copy of the response.
    pub fn duplicate(&self) -> (r: SavedResponse)
        ensures
            r@ == self@,
    {
        let mut headers: Vec<HeaderPair> = Vec::new();
        let mut i: usize = 0;
        while i < self.headers.len()
            invariant
                i <= self.headers@.len(),
                headers@.len() == i,
                forall|j: int| 0 <= j < i ==> #[trigger] headers@[j]@ == self.headers@[j]@,
            decreases self.headers@.len() - i,
        {
            headers.push(self.headers[i].duplicate());
            i = i + 1;
        }
        let mut body: Vec<u8> = Vec::new();
        let mut k: usize = 0;
        while k < self.body.len()
            invariant
                k <= self.body@.len(),
                body@ == self.body@.subrange(0, k as int),
            decreases self.body@.len() - k,
        {
            body.push(self.body[k]);
            k = k + 1;
        }
        let r = SavedResponse { status: self.status, headers, body };
        assert(r@.headers =~= self@.headers);
        assert(r@.body =~= self@.body);
        r
    }
}

/// The redirect returned once an issue has been published: `303 See Other`
/// to the newsletter form, with an empty body.
pub open spec fn published_response() -> ResponseView {
    ResponseView {
        status: 303,
        headers: seq![("location"@, "/admin/newsletter"@)],
        body: Seq::empty(),
    }
}

/// Builds the response described by `published_response`.
pub fn see_other_newsletter() -> (r: SavedResponse)
    ensures
        r@ == published_response(),
{
    let mut headers: Vec<HeaderPair> = Vec::new();
    headers.push(
        HeaderPair {
            name: String::from_str("location"),
            value: String::from_str("/admin/newsletter"),
        },
    );
    let r = SavedResponse { status: 303, headers, body: Vec::new() };
    assert(r@.headers =~= published_response().headers);
    assert(r@.body =~= published_response().body);
    r
}

} // verus!

//! Subscriber e-mail addresses, as accepted by the `validator` crate.
use vstd::prelude::*;

verus! {

/// Whether `validator::validate_email` accepts the characters `s` as an address.
pub uninterp spec fn email_is_valid(s: Seq<char>) -> bool;

/// Relies on `validator::validate_email`: its verdict depends on the text alone.
#[verifier::external_body]
fn validate_email(s: &str) -> (r: bool)
    ensures
        r == email_is_valid(s@),
{
    validator::validate_email(s)
}

/// The message of the error returned for a rejected address.
pub open spec fn invalid_email_message(s: Seq<char>) -> Seq<char> {
    "'"@ + s + "' is not a valid subscriber email."@
}

/// An e-mail address that `validator` accepted.
#[derive(Debug)]
pub struct SubscriberEmail {
    address: String,
}

impl View for SubscriberEmail {
    type V = Seq<char>;

    closed spec fn view(&self) -> Seq<char> {
        self.address@
    }
}

impl SubscriberEmail {
    /// Accepts `s` exactly when it is a valid address.
    pub fn parse(s: String) -> (r: Result<SubscriberEmail, String>)
        ensures
            r is Ok <==> email_is_valid(s@),
            r matches Ok(e) ==> e@ == s@,
            r matches Err(m) ==> m@ == invalid_email_message(s@),
    {
        if validate_email(s.as_str()) {
            Ok(SubscriberEmail { address: s })
        } else {
            let mut m = String::from_str("'");
            m.append(s.as_str());
            m.append("' is not a valid subscriber email.");
            Err(m)
        }
    }

    /// The address as text.
    pub fn as_str(&self) -> (r: &str)
        ensures
            r@ == self@,
    {
        self.address.as_str()
    }

    /// A copy of the address.
    pub fn duplicate(&self) -> (r: SubscriberEmail)
        ensures
            r@ == self@,
    {
        SubscriberEmail { address: self.address.clone() }
    }
}

/// Parses each stored address of a confirmed subscriber, keeping the order;
/// an address that does not parse stays in the list as an error, so that the
/// caller can skip it without failing the batch.
pub fn parse_confirmed_subscribers(rows: Vec<String>) -> (r: Vec<Result<SubscriberEmail, String>>)
    ensures
        r@.len() == rows@.len(),
        forall|i: int|
            0 <= i < rows@.len() ==> {
                &&& (#[trigger] r@[i] is Ok) == email_is_valid(rows@[i]@)
                &&& r@[i] matches Ok(e) ==> e@ == rows@[i]@
            },
{
    let mut out: Vec<Result<SubscriberEmail, String>> = Vec::new();
    let mut i: usize = 0;
    while i < rows.len()
        invariant
            i <= rows@.len(),
            out@.len() == i,
            forall|j: int|
                0 <= j < i ==> {
                    &&& (#[trigger] out@[j] is Ok) == email_is_valid(rows@[j]@)
                    &&& out@[j] matches Ok(e) ==> e@ == rows@[j]@
                },
        decreases rows@.len() - i,
    {
        out.push(SubscriberEmail::parse(rows[i].clone()));
        i = i + 1;
    }
    out
}

} // verus!

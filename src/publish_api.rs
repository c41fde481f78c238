//! The JSON publishing endpoint: HTTP Basic credentials and its error
//! responses.
use vstd::prelude::*;
use vstd::utf8::{decode_utf8, encode_utf8, valid_utf8};
use crate::password::Credentials;
use crate::response::{HeaderPair, ResponseView, SavedResponse};

verus! {

/// The body of a publish request.
#[derive(Debug, Clone)]
pub struct BodyData {
    pub title: String,
    pub content: Content,
}

/// The two renderings of an issue.
#[derive(Debug, Clone)]
pub struct Content {
    pub html: String,
    pub text: String,
}

/// Why a publish request failed.
#[derive(Debug, Clone, PartialEq, Eq)]
pub enum PublishError {
    UnexpectedError(String),
    AuthError(String),
}

/// The response for a publish error: 500, or 401 with a Basic challenge.
pub open spec fn publish_error_response(e: PublishError) -> ResponseView {
    match e {
        PublishError::UnexpectedError(_) => ResponseView { status: 500, headers: Seq::empty(), body: Seq::empty() },
        PublishError::AuthError(_) => ResponseView {
            status: 401,
            headers: seq![("www-authenticate"@, "Basic realm=\"publish\""@)],
            body: Seq::empty(),
        },
    }
}

impl PublishError {
    /// Builds the response described by `publish_error_response`.
    pub fn error_response(&self) -> (r: SavedResponse)
        ensures
            r@ == publish_error_response(*self),
    {
        let mut headers: Vec<HeaderPair> = Vec::new();
        let status: u16 = match self {
            PublishError::UnexpectedError(_) => 500,
            PublishError::AuthError(_) => {
                headers.push(
                    HeaderPair {
                        name: String::from_str("www-authenticate"),
                        value: String::from_str("Basic realm=\"publish\""),
                    },
                );
                401
            },
        };
        let r = SavedResponse { status, headers, body: Vec::new() };
        assert(r@.headers =~= publish_error_response(*self).headers);
        assert(r@.body =~= publish_error_response(*self).body);
        r
    }
}

/// What `base64` decodes `input` to under its standard alphabet with
/// padding, or `None` where it reports an error.
pub uninterp spec fn base64_decoded(input: Seq<u8>) -> Option<Seq<u8>>;

/// Relies on `base64::decode_config` with `base64::STANDARD`; it panics
/// only where the input length plus 3 overflows.
#[verifier::external_body]
fn base64_decode(input: &[u8]) -> (r: Option<Vec<u8>>)
    requires
        input@.len() + 3 <= usize::MAX,
    ensures
        r is Some <==> base64_decoded(input@) is Some,
        r matches Some(v) ==> v@ == base64_decoded(input@)->0,
{
    base64::decode_config(input, base64::STANDARD).ok()
}

/// Relies on `String::from_utf8`: it succeeds exactly on valid UTF-8.
#[verifier::external_body]
fn string_from_utf8(bytes: Vec<u8>) -> (r: Option<String>)
    ensures
        r is Some <==> valid_utf8(bytes@),
        r matches Some(s) ==> s@ == decode_utf8(bytes@),
{
    String::from_utf8(bytes).ok()
}

/// Why the `Authorization` header did not yield credentials.
#[derive(Debug, Clone, Copy, PartialEq, Eq, Structural)]
pub enum BasicAuthError {
    MissingHeader,
    NotBasic,
    NotBase64,
    NotUtf8,
    MissingPassword,
}

pub open spec fn basic_prefix() -> Seq<char> {
    seq!['B', 'a', 's', 'i', 'c', ' ']
}

/// The decoded `user:password` text of a Basic header, or the error.
pub open spec fn basic_payload(header: Option<Seq<char>>) -> Result<Seq<char>, BasicAuthError> {
    match header {
        None => Err(BasicAuthError::MissingHeader),
        Some(h) => if h.len() < 6 || h.subrange(0, 6) != basic_prefix() {
            Err(BasicAuthError::NotBasic)
        } else {
            let encoded = encode_utf8(h.subrange(6, h.len() as int));
            if encoded.len() + 3 > usize::MAX {
                Err(BasicAuthError::NotBase64)
            } else {
                match base64_decoded(encoded) {
                    None => Err(BasicAuthError::NotBase64),
                    Some(b) => if !valid_utf8(b) {
                        Err(BasicAuthError::NotUtf8)
                    } else {
                        Ok(decode_utf8(b))
                    },
                }
            }
        },
    }
}

fn is_basic(h: &str) -> (r: bool)
    ensures
        r == (h@.len() >= 6 && h@.subrange(0, 6) == basic_prefix()),
{
    let n = h.unicode_len();
    if n < 6 {
        return false;
    }
    let ok = h.get_char(0) == 'B' && h.get_char(1) == 'a' && h.get_char(2) == 's' && h.get_char(3) == 'i'
        && h.get_char(4) == 'c' && h.get_char(5) == ' ';
    assert(ok ==> h@.subrange(0, 6) =~= basic_prefix());
    assert(h@.subrange(0, 6) == basic_prefix() ==> h@.subrange(0, 6)[0] == 'B' && h@.subrange(0, 6)[1] == 'a'
        && h@.subrange(0, 6)[2] == 's' && h@.subrange(0, 6)[3] == 'i' && h@.subrange(0, 6)[4] == 'c'
        && h@.subrange(0, 6)[5] == ' ');
    ok
}

fn find_colon(t: &str) -> (r: Option<usize>)
    ensures
        match r {
            Some(k) => k < t@.len() && t@[k as int] == ':' && forall|j: int| 0 <= j < k ==> t@[j] != ':',
            None => !t@.contains(':'),
        },
{
    let n = t.unicode_len();
    let mut i: usize = 0;
    while i < n
        invariant
            n == t@.len(),
            i <= n,
            forall|j: int| 0 <= j < i ==> t@[j] != ':',
        decreases n - i,
    {
        if t.get_char(i) == ':' {
            return Some(i);
        }
        i = i + 1;
    }
    None
}

/// Extracts the credentials of an HTTP Basic `Authorization` header: the
/// text after `Basic ` is base64, decoding to UTF-8 `user:password`, split
/// at the first colon.
pub fn basic_authentication(header: Option<&str>) -> (r: Result<Credentials, BasicAuthError>)
    ensures
        match basic_payload(
            match header {
                Some(h) => Some(h@),
                None => None,
            },
        ) {
            Err(e) => r == Err::<Credentials, BasicAuthError>(e),
            Ok(t) => if t.contains(':') {
                r matches Ok(c) && t == c.username@ + seq![':'] + c.password@ && !c.username@.contains(':')
            } else {
                r == Err::<Credentials, BasicAuthError>(BasicAuthError::MissingPassword)
            },
        },
{
    let h = match header {
        None => {
            return Err(BasicAuthError::MissingHeader);
        },
        Some(h) => h,
    };
    if !is_basic(h) {
        return Err(BasicAuthError::NotBasic);
    }
    let n = h.unicode_len();
    let encoded = h.substring_char(6, n);
    let bytes = encoded.as_bytes();
    if bytes.len() > usize::MAX - 3 {
        return Err(BasicAuthError::NotBase64);
    }
    let decoded = match base64_decode(bytes) {
        None => {
            return Err(BasicAuthError::NotBase64);
        },
        Some(d) => d,
    };
    let text = match string_from_utf8(decoded) {
        None => {
            return Err(BasicAuthError::NotUtf8);
        },
        Some(t) => t,
    };
    let t = text.as_str();
    let k = match find_colon(t) {
        None => {
            return Err(BasicAuthError::MissingPassword);
        },
        Some(k) => k,
    };
    let m = t.unicode_len();
    let username = t.substring_char(0, k).to_string();
    let password = t.substring_char(k + 1, m).to_string();
    assert(t@ =~= username@ + seq![':'] + password@);
    assert(!username@.contains(':')) by {
        if username@.contains(':') {
            let j = choose|j: int| 0 <= j < username@.len() && username@[j] == ':';
            assert(t@[j] == ':');
        }
    }
    Ok(Credentials { username, password })
}

} // verus!

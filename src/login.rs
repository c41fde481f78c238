//! The login page's error message, carried in the query string under an
//! HMAC tag, and the errors of a login attempt.
use vstd::prelude::*;
use vstd::utf8::encode_utf8;
use hmac::Mac;
use crate::password::AuthError;

verus! {

/// A byte that percent-encoding leaves as it is: ASCII letters and digits,
/// `-`, `.`, `_`, `~`.
pub open spec fn url_safe(b: u8) -> bool {
    (0x30 <= b <= 0x39) || (0x41 <= b <= 0x5a) || (0x61 <= b <= 0x7a) || b == 0x2d || b == 0x2e
        || b == 0x5f || b == 0x7e
}

/// An upper-case hexadecimal digit for `d < 16`.
pub open spec fn upper_hex_digit(d: u8) -> char {
    if d < 10 {
        ((0x30 + d) as u8) as char
    } else {
        ((0x41 + d - 10) as u8) as char
    }
}

/// Percent-encoding of `bs`: each byte that is not `url_safe` becomes `%`
/// and two upper-case hexadecimal digits.
pub open spec fn percent_encoded(bs: Seq<u8>) -> Seq<char>
    decreases bs.len(),
{
    if bs.len() == 0 {
        Seq::empty()
    } else {
        let b = bs[0];
        let head = if url_safe(b) {
            seq![b as char]
        } else {
            seq!['%', upper_hex_digit(b / 16), upper_hex_digit(b % 16)]
        };
        head + percent_encoded(bs.drop_first())
    }
}

/// Relies on `urlencoding::encode`: percent-encodes every UTF-8 byte of `s`
/// except ASCII letters, digits and `-`, `.`, `_`, `~`, with upper-case
/// hexadecimal digits.
#[verifier::external_body]
fn url_encode(s: &str) -> (r: String)
    ensures
        r@ == percent_encoded(encode_utf8(s@)),
{
    urlencoding::encode(s).into_owned()
}

/// The entity that minimal HTML escaping writes for `c`, or `c` itself.
pub open spec fn html_escaped_char(c: char) -> Seq<char> {
    if c == '"' {
        "&quot;"@
    } else if c == '&' {
        "&amp;"@
    } else if c == '\'' {
        "&#x27;"@
    } else if c == '<' {
        "&lt;"@
    } else if c == '>' {
        "&gt;"@
    } else {
        seq![c]
    }
}

pub open spec fn html_escaped(s: Seq<char>) -> Seq<char>
    decreases s.len(),
{
    if s.len() == 0 {
        Seq::empty()
    } else {
        html_escaped_char(s[0]) + html_escaped(s.drop_first())
    }
}

/// Relies on `htmlescape::encode_minimal`: replaces `"`, `&`, `'`, `<` and
/// `>` by their entities and keeps every other character.
#[verifier::external_body]
fn escape_html(s: &str) -> (r: String)
    ensures
        r@ == html_escaped(s@),
{
    htmlescape::encode_minimal(s)
}

/// The value of a hexadecimal digit (either case), if `b` is one.
pub open spec fn hex_value(b: u8) -> Option<u8> {
    if 0x30 <= b <= 0x39 {
        Some((b - 0x30) as u8)
    } else if 0x41 <= b <= 0x46 {
        Some((b - 0x41 + 10) as u8)
    } else if 0x61 <= b <= 0x66 {
        Some((b - 0x61 + 10) as u8)
    } else {
        None
    }
}

pub open spec fn is_hex_text(d: Seq<u8>) -> bool {
    d.len() % 2 == 0 && forall|i: int| 0 <= i < d.len() ==> (#[trigger] hex_value(d[i])) is Some
}

/// The bytes that hexadecimal text stands for, two digits per byte.
pub open spec fn hex_bytes(d: Seq<u8>) -> Seq<u8> {
    Seq::new(
        d.len() / 2,
        |i: int| (hex_value(d[2 * i])->0 * 16 + hex_value(d[2 * i + 1])->0) as u8,
    )
}

/// Relies on `hex::decode`: even-length text of hexadecimal digits in
/// either case decodes to one byte per pair; anything else is an error.
#[verifier::external_body]
fn hex_decode(data: &[u8]) -> (r: Option<Vec<u8>>)
    ensures
        r is Some <==> is_hex_text(data@),
        r matches Some(v) ==> v@ == hex_bytes(data@),
{
    hex::decode(data).ok()
}

/// The HMAC-SHA256 tag of `msg` under `key`.
pub uninterp spec fn hmac_sha256(key: Seq<u8>, msg: Seq<u8>) -> Seq<u8>;

/// Relies on `hmac::Hmac<sha2::Sha256>`: a key of any length is accepted,
/// and `verify_slice` succeeds exactly when `tag` equals the tag of `msg`.
#[verifier::external_body]
fn hmac_sha256_verify(key: &[u8], msg: &[u8], tag: &[u8]) -> (r: bool)
    ensures
        r == (tag@ == hmac_sha256(key@, msg@)),
{
    match hmac::Hmac::<sha2::Sha256>::new_from_slice(key) {
        Ok(mut mac) => {
            mac.update(msg);
            mac.verify_slice(tag).is_ok()
        },
        Err(_) => false,
    }
}

/// The login page's query: an error message and its hex-encoded tag.
#[derive(Debug, Clone)]
pub struct QueryParams {
    pub error: String,
    pub tag: String,
}

/// Why a query's tag was refused.
#[derive(Debug, Clone, Copy, PartialEq, Eq, Structural)]
pub enum TagError {
    /// The tag is not hexadecimal text.
    MalformedTag,
    /// The tag is not the HMAC of the query under the secret.
    BadSignature,
}

/// The signed text: `error=` and the percent-encoded message.
pub open spec fn signed_query(error: Seq<char>) -> Seq<char> {
    "error="@ + percent_encoded(encode_utf8(error))
}

/// The outcome of checking a query's tag under `secret`.
pub open spec fn verify_spec(error: Seq<char>, tag: Seq<char>, secret: Seq<char>) -> Result<Seq<char>, TagError> {
    let t = encode_utf8(tag);
    if !is_hex_text(t) {
        Err(TagError::MalformedTag)
    } else if hex_bytes(t) == hmac_sha256(encode_utf8(secret), encode_utf8(signed_query(error))) {
        Ok(error)
    } else {
        Err(TagError::BadSignature)
    }
}

impl QueryParams {
    /// Returns the error message when the tag is the HMAC-SHA256, under
    /// `secret`, of the query string that carried it.
    pub fn verify(self, secret: &str) -> (r: Result<String, TagError>)
        ensures
            match verify_spec(self.error@, self.tag@, secret@) {
                Ok(e) => r matches Ok(m) && m@ == e,
                Err(e) => r == Err::<String, TagError>(e),
            },
    {
        let provided = match hex_decode(self.tag.as_str().as_bytes()) {
            None => {
                return Err(TagError::MalformedTag);
            },
            Some(bytes) => bytes,
        };
        let mut query = String::from_str("error=");
        let encoded = url_encode(self.error.as_str());
        query.append(encoded.as_str());
        if hmac_sha256_verify(secret.as_bytes(), query.as_str().as_bytes(), provided.as_slice()) {
            Ok(self.error)
        } else {
            Err(TagError::BadSignature)
        }
    }
}

/// The error paragraph of the login page: the escaped message of a query
/// whose tag checks out, else nothing.
pub open spec fn login_error_html_spec(query: Option<(Seq<char>, Seq<char>)>, secret: Seq<char>) -> Seq<char> {
    match query {
        None => Seq::empty(),
        Some((error, tag)) => match verify_spec(error, tag, secret) {
            Ok(e) => "<p><i>"@ + html_escaped(e) + "</i></p>"@,
            Err(_) => Seq::empty(),
        },
    }
}

/// Builds the error paragraph of the login page.
pub fn login_error_html(query: Option<QueryParams>, secret: &str) -> (r: String)
    ensures
        r@ == login_error_html_spec(
            match query {
                Some(q) => Some((q.error@, q.tag@)),
                None => None,
            },
            secret@,
        ),
{
    match query {
        None => String::new(),
        Some(q) => match q.verify(secret) {
            Ok(error) => {
                let mut html = String::from_str("<p><i>");
                let escaped = escape_html(error.as_str());
                html.append(escaped.as_str());
                html.append("</i></p>");
                html
            },
            Err(_) => String::new(),
        },
    }
}

/// Why a login attempt failed.
#[derive(Debug, Clone, PartialEq, Eq)]
pub enum LoginError {
    AuthError(String),
    UnexpectedError(String),
}

/// The message shown for a login error.
pub open spec fn login_error_message(e: LoginError) -> Seq<char> {
    match e {
        LoginError::AuthError(_) => "Authentication failed"@,
        LoginError::UnexpectedError(_) => "Something went wrong"@,
    }
}

impl LoginError {
    /// Wrong credentials become an authentication failure; anything else
    /// stays unexpected.
    pub fn from_auth(e: AuthError) -> (r: LoginError)
        ensures
            match e {
                AuthError::InvalidCredentials(m) => r == LoginError::AuthError(m),
                AuthError::UnexpectedError(m) => r == LoginError::UnexpectedError(m),
            },
    {
        match e {
            AuthError::InvalidCredentials(m) => LoginError::AuthError(m),
            AuthError::UnexpectedError(m) => LoginError::UnexpectedError(m),
        }
    }

    /// 401 for wrong credentials, 500 otherwise.
    pub fn status_code(&self) -> (r: u16)
        ensures
            r == match self {
                LoginError::AuthError(_) => 401u16,
                LoginError::UnexpectedError(_) => 500u16,
            },
    {
        match self {
            LoginError::AuthError(_) => 401,
            LoginError::UnexpectedError(_) => 500,
        }
    }

    /// The message shown for the error.
    pub fn message(&self) -> (r: String)
        ensures
            r@ == login_error_message(*self),
    {
        match self {
            LoginError::AuthError(_) => String::from_str("Authentication failed"),
            LoginError::UnexpectedError(_) => String::from_str("Something went wrong"),
        }
    }

    /// Where the error response redirects: the login page, with the
    /// percent-encoded message in its query.
    pub fn redirect_location(&self) -> (r: String)
        ensures
            r@ == "/login?error="@ + percent_encoded(encode_utf8(login_error_message(*self))),
    {
        let message = self.message();
        let mut location = String::from_str("/login?error=");
        let encoded = url_encode(message.as_str());
        location.append(encoded.as_str());
        location
    }
}

} // verus!

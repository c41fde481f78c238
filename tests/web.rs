use argon2::password_hash::SaltString;
use argon2::{Algorithm, Argon2, Params, PasswordHasher, Version};
use hmac::{Hmac, Mac};
use zero_to_prod::confirm::{confirmation_target, ConfirmError};
use zero_to_prod::login::{login_error_html, LoginError, QueryParams, TagError};
use zero_to_prod::password::{validate_credentials, AuthError, Credentials};
use zero_to_prod::publish_api::{basic_authentication, BasicAuthError, PublishError};

fn tag_for(secret: &str, query: &str) -> String {
    let mut mac = Hmac::<sha2::Sha256>::new_from_slice(secret.as_bytes()).unwrap();
    mac.update(query.as_bytes());
    hex::encode(mac.finalize().into_bytes())
}

#[test]
fn query_with_valid_tag_yields_its_error() {
    let q = QueryParams {
        error: "Authentication failed".to_string(),
        tag: tag_for("secret", "error=Authentication%20failed"),
    };
    assert_eq!(q.verify("secret").unwrap(), "Authentication failed");
}

#[test]
fn query_tag_is_checked_against_the_encoded_message() {
    let error = "Bad <stuff> & 'more'";
    let tag = tag_for("secret", "error=Bad%20%3Cstuff%3E%20%26%20%27more%27");
    let q = QueryParams { error: error.to_string(), tag: tag.to_uppercase() };
    assert_eq!(q.clone().verify("secret").unwrap(), error);
    assert_eq!(
        login_error_html(Some(q), "secret"),
        "<p><i>Bad &lt;stuff&gt; &amp; &#x27;more&#x27;</i></p>"
    );
}

#[test]
fn query_with_wrong_tag_is_refused() {
    let tag = tag_for("another secret", "error=Authentication%20failed");
    let q = QueryParams { error: "Authentication failed".to_string(), tag };
    assert_eq!(q.clone().verify("secret").unwrap_err(), TagError::BadSignature);
    assert_eq!(login_error_html(Some(q), "secret"), "");
    let q = QueryParams { error: "x".to_string(), tag: "abc".to_string() };
    assert_eq!(q.verify("secret").unwrap_err(), TagError::MalformedTag);
    let q = QueryParams { error: "x".to_string(), tag: "zz".to_string() };
    assert_eq!(q.verify("secret").unwrap_err(), TagError::MalformedTag);
    assert_eq!(login_error_html(None, "secret"), "");
}

#[test]
fn login_error_redirects_with_encoded_message() {
    let e = LoginError::AuthError("Invalid password.".to_string());
    assert_eq!(e.status_code(), 401);
    assert_eq!(e.message(), "Authentication failed");
    assert_eq!(e.redirect_location(), "/login?error=Authentication%20failed");
    let e = LoginError::UnexpectedError("db down".to_string());
    assert_eq!(e.status_code(), 500);
    assert_eq!(e.redirect_location(), "/login?error=Something%20went%20wrong");
}

#[test]
fn auth_errors_map_to_login_errors() {
    assert_eq!(
        LoginError::from_auth(AuthError::InvalidCredentials("a".to_string())),
        LoginError::AuthError("a".to_string())
    );
    assert_eq!(
        LoginError::from_auth(AuthError::UnexpectedError("b".to_string())),
        LoginError::UnexpectedError("b".to_string())
    );
}

#[test]
fn basic_credentials_are_decoded() {
    let c = basic_authentication(Some("Basic dXNlcjpwYXNz")).unwrap();
    assert_eq!(c.username, "user");
    assert_eq!(c.password, "pass");
    // only the first colon separates
    let c = basic_authentication(Some("Basic dXNlcjpwYTpzcw==")).unwrap();
    assert_eq!(c.username, "user");
    assert_eq!(c.password, "pa:ss");
}

#[test]
fn basic_credentials_errors() {
    assert_eq!(basic_authentication(None).unwrap_err(), BasicAuthError::MissingHeader);
    assert_eq!(basic_authentication(Some("Bearer abc")).unwrap_err(), BasicAuthError::NotBasic);
    assert_eq!(basic_authentication(Some("Basic !!!")).unwrap_err(), BasicAuthError::NotBase64);
    assert_eq!(basic_authentication(Some("Basic //4=")).unwrap_err(), BasicAuthError::NotUtf8);
    assert_eq!(basic_authentication(Some("Basic dXNlcg==")).unwrap_err(), BasicAuthError::MissingPassword);
}

#[test]
fn publish_error_responses() {
    let r = PublishError::UnexpectedError("x".to_string()).error_response();
    assert_eq!(r.status, 500);
    assert!(r.headers.is_empty());
    let r = PublishError::AuthError("x".to_string()).error_response();
    assert_eq!(r.status, 401);
    assert_eq!(r.headers[0].name, "www-authenticate");
    assert_eq!(r.headers[0].value, "Basic realm=\"publish\"");
}

fn cheap_hash(password: &str) -> String {
    let salt = SaltString::new("YWJjZGVmZ2hpamtsbW5vcA").unwrap();
    let hasher = Argon2::new(Algorithm::Argon2id, Version::V0x13, Params::new(1024, 1, 1, None).unwrap());
    hasher.hash_password(password.as_bytes(), &salt).unwrap().to_string()
}

#[test]
fn credentials_are_checked_against_the_stored_hash() {
    let phc = cheap_hash("correct horse battery");
    let good = Credentials { username: "admin".to_string(), password: "correct horse battery".to_string() };
    let bad = Credentials { username: "admin".to_string(), password: "wrong".to_string() };
    assert_eq!(validate_credentials(&good, Some((7, phc.clone()))), Ok(7));
    assert!(matches!(validate_credentials(&bad, Some((7, phc))), Err(AuthError::InvalidCredentials(_))));
    assert!(matches!(
        validate_credentials(&good, Some((7, "not a phc string".to_string()))),
        Err(AuthError::UnexpectedError(_))
    ));
}

#[test]
fn unknown_user_is_rejected() {
    let c = Credentials { username: "ghost".to_string(), password: "whatever".to_string() };
    assert!(matches!(validate_credentials(&c, None), Err(AuthError::InvalidCredentials(_))));
}

#[test]
fn confirmation_outcomes() {
    assert_eq!(confirmation_target(Some(42)), Ok(42));
    assert_eq!(confirmation_target(None), Err(ConfirmError::InvalidToken));
    assert_eq!(ConfirmError::InvalidToken.status_code(), 401);
    assert_eq!(ConfirmError::UnexpectedError("x".to_string()).status_code(), 500);
    assert_eq!(ConfirmError::InvalidToken.message(), "Invalid token");
}

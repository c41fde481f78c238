use zero_to_prod::email::{parse_confirmed_subscribers, SubscriberEmail};
use zero_to_prod::idempotency::{IdempotencyKey, KeyError};
use zero_to_prod::lifecycle::{report_exit, LogLevel, TaskExit};
use zero_to_prod::password::{validate_new_password, ValidNewPassword};

#[test]
fn empty_string_is_rejected() {
    let email = String::from("");
    assert!(SubscriberEmail::parse(email).is_err());
}

#[test]
fn email_missing_at_symbol_is_rejected() {
    let email = "ursuladomain.com".to_string();
    assert!(SubscriberEmail::parse(email).is_err());
}

#[test]
fn email_missing_subject_is_rejected() {
    let email = String::from("@domail.com");
    assert!(SubscriberEmail::parse(email).is_err());
}

#[test]
fn valid_emails_are_parsed_successfully() {
    for email in ["ursula@domain.com", "first.last@example.org", "a+b@sub.example.co.uk"] {
        let parsed = SubscriberEmail::parse(email.to_string()).expect("valid address");
        assert_eq!(parsed.as_str(), email);
    }
}

#[test]
fn rejected_email_message_names_the_address() {
    let err = SubscriberEmail::parse("nope".to_string()).unwrap_err();
    assert_eq!(err, "'nope' is not a valid subscriber email.");
}

#[test]
fn confirmed_subscribers_keep_order_and_mark_invalid_rows() {
    let rows = vec![
        "a@example.com".to_string(),
        "not-an-email".to_string(),
        "b@example.com".to_string(),
    ];
    let parsed = parse_confirmed_subscribers(rows);
    assert_eq!(parsed.len(), 3);
    assert_eq!(parsed[0].as_ref().unwrap().as_str(), "a@example.com");
    assert!(parsed[1].is_err());
    assert_eq!(parsed[2].as_ref().unwrap().as_str(), "b@example.com");
}

#[test]
fn new_password_less_than_12_is_rejected() {
    let password_less_then_12 = "a".repeat(6);
    assert!(ValidNewPassword::parse(password_less_then_12.as_ref()).is_err());
}

#[test]
fn new_password_greater_than_128_is_rejected() {
    let password_greater_than_128 = "a".repeat(129);
    assert!(ValidNewPassword::parse(password_greater_than_128.as_ref()).is_err());
}

#[test]
fn new_password_between_12_and_128_is_accepted() {
    let valid_password = "a".repeat(14);
    assert!(ValidNewPassword::parse(valid_password.as_ref()).is_ok());
}

#[test]
fn new_password_bounds_are_inclusive() {
    assert!(ValidNewPassword::parse(&"a".repeat(12)).is_ok());
    assert!(ValidNewPassword::parse(&"a".repeat(128)).is_ok());
    assert!(ValidNewPassword::parse(&"a".repeat(11)).is_err());
}

#[test]
fn new_password_length_counts_bytes() {
    // six two-byte characters: twelve bytes
    let p = ValidNewPassword::parse("éééééé").expect("twelve bytes");
    assert_eq!(p.as_bytes().len(), 12);
}

#[test]
fn new_password_error_reports_the_length() {
    let err = ValidNewPassword::parse(&"a".repeat(6)).unwrap_err();
    assert_eq!(err, "Password must be between 12 and 128 characters, got 6");
    let err = ValidNewPassword::parse(&"a".repeat(129)).unwrap_err();
    assert_eq!(err, "Password must be between 12 and 128 characters, got 129");
}

#[test]
fn idempotency_key_rules() {
    assert_eq!(IdempotencyKey::parse(String::new()).unwrap_err(), KeyError::Empty);
    assert_eq!(IdempotencyKey::parse("k".repeat(50)).unwrap_err(), KeyError::TooLong);
    assert_eq!(IdempotencyKey::parse("ab\ncd".to_string()).unwrap_err(), KeyError::NotPrintable);
    let key = IdempotencyKey::parse("k".repeat(49)).expect("49 characters");
    assert_eq!(key.as_str(), "k".repeat(49));
    let key = IdempotencyKey::parse("0e5cfe4e-8f7e-4b0c-9d2a-0f1a2b3c4d5e".to_string()).unwrap();
    assert_eq!(key.as_str(), "0e5cfe4e-8f7e-4b0c-9d2a-0f1a2b3c4d5e");
}

#[test]
fn report_exit_describes_each_outcome() {
    let r = report_exit("API", TaskExit::Completed);
    assert_eq!(r.level, LogLevel::Info);
    assert_eq!(r.message, "API has exited");
    assert_eq!(r.cause, None);

    let r = report_exit("Background worker", TaskExit::Failed("boom".to_string()));
    assert_eq!(r.level, LogLevel::Error);
    assert_eq!(r.message, "Background worker failed");
    assert_eq!(r.cause, Some("boom".to_string()));

    let r = report_exit("API", TaskExit::Aborted("panicked".to_string()));
    assert_eq!(r.level, LogLevel::Error);
    assert_eq!(r.message, "API' task failed to complete");
    assert_eq!(r.cause, Some("panicked".to_string()));
}

#[test]
fn password_change_requires_two_equal_valid_passwords() {
    let good = "a".repeat(14);
    let other = "b".repeat(14);
    assert_eq!(validate_new_password(&good, &good).unwrap().as_bytes(), good.as_bytes());
    assert_eq!(
        validate_new_password(&good, &other).unwrap_err(),
        "You entered two different new passwords - the field values must match."
    );
    assert_eq!(
        validate_new_password("short", &good).unwrap_err(),
        "Password must be between 12 and 128 characters, got 5"
    );
    assert_eq!(
        validate_new_password(&good, "tiny").unwrap_err(),
        "Password must be between 12 and 128 characters, got 4"
    );
}

use base64::engine::general_purpose::URL_SAFE_NO_PAD;
use base64::Engine;
use sha2::{Digest, Sha256};

use monitor::external::PhcFields;
use monitor::auth::{
    credential_fields_accepted, hash_password, hash_password_with_salt, valid_credential, valid_password, valid_password_change,
    verify_password, AdminAuth, AuthError, LoginOutcome, PasswordChangeStart, MAX_ATTEMPTS,
    MAX_SESSIONS, SESSION_LIFETIME_NANOS,
};

const START: u128 = 5_000_000_000_000;

fn secs(n: u128) -> u128 {
    n * 1_000_000_000
}

#[test]
fn passwords_use_salted_argon2id_and_legacy_secrets_still_work() {
    let value = "a long test password";
    let first = hash_password(value).unwrap();
    let second = hash_password(value).unwrap();
    assert!(first.starts_with("$argon2id$v=19$m=19456,t=2,p=1$"));
    assert_ne!(first, second);
    assert!(verify_password(&first, value));
    assert!(!verify_password(&first, "incorrect"));
    let legacy = URL_SAFE_NO_PAD.encode(Sha256::digest(value.as_bytes()));
    assert!(verify_password(&legacy, value));
    assert!(!verify_password(&legacy, "incorrect"));
    assert!(!verify_password("broken", value));
}

#[test]
fn password_rules_preserve_spaces_unicode_and_reasonable_bounds() {
    assert!(!valid_password("short"));
    assert!(valid_password("a long pass phrase"));
    assert!(valid_password(&"字".repeat(15)));
    assert!(!valid_password(&"a".repeat(129)));
}

#[test]
fn attempt_budget_is_bounded_and_expires() {
    let mut auth = AdminAuth::new(URL_SAFE_NO_PAD.encode([1_u8; 32]), START).unwrap();
    let now = auth.window();
    for _ in 0..5 {
        assert!(auth.allow_attempt(now));
    }
    assert!(!auth.allow_attempt(now + secs(59)));
    assert!(auth.allow_attempt(now + secs(60)));
}

#[test]
fn attempts_within_a_window_never_exceed_the_budget() {
    let mut auth = AdminAuth::new(URL_SAFE_NO_PAD.encode([7_u8; 32]), START).unwrap();
    let start = auth.window();
    let allowed = (0..20_u64)
        .filter(|i| auth.allow_attempt(start + secs(u128::from(*i))))
        .count();
    assert_eq!(allowed, usize::from(MAX_ATTEMPTS));
    let later = start + secs(61);
    assert!(auth.allow_attempt(later));
    assert_eq!(auth.window(), later);
}

#[test]
fn window_restarts_only_after_sixty_seconds() {
    let mut auth = AdminAuth::new(URL_SAFE_NO_PAD.encode([2_u8; 32]), START).unwrap();
    let start = auth.window();
    assert!(auth.register_attempt(0, start));
    assert_eq!(auth.window(), start);
    for _ in 0..4 {
        assert!(auth.register_attempt(59_999_999_999, start));
    }
    assert!(!auth.register_attempt(59_999_999_999, start));
    let next = start + secs(60);
    assert!(auth.register_attempt(60_000_000_000, next));
    assert_eq!(auth.window(), next);
}

#[test]
fn credentials_in_unknown_formats_are_refused() {
    assert!(matches!(
        AdminAuth::new("broken".to_owned(), START),
        Err(AuthError::CorruptCredential)
    ));
    assert!(matches!(
        AdminAuth::new(URL_SAFE_NO_PAD.encode([1_u8; 31]), START),
        Err(AuthError::CorruptCredential)
    ));
    assert!(!valid_credential("$argon2id$v=19$m=4096,t=3,p=1$c2FsdHNhbHQ$aGFzaGhhc2hoYXNoaGFzaA"));
    assert!(!valid_credential("$argon2id$nonsense"));
    assert!(valid_credential(&URL_SAFE_NO_PAD.encode([9_u8; 32])));
    let hashed = hash_password("another long password").unwrap();
    assert!(valid_credential(&hashed));
    let auth = AdminAuth::new(hashed.clone(), START).unwrap();
    assert_eq!(auth.credential(), hashed);
    assert_eq!(auth.session_count(), 0);
}

#[test]
fn legacy_credentials_are_the_base64_sha256_of_the_secret() {
    let credential = legacy("abc");
    assert_eq!(credential, "ungWv48Bz-pBQUDeXa4iI7ADYaOWF3qctBD_YfIAFa0");
    assert!(valid_credential(&credential));
    assert!(verify_password(&credential, "abc"));
    assert!(!verify_password(&credential, "abd"));
    assert!(!verify_password(&credential, &"a".repeat(513)));
}

#[test]
fn password_changes_need_a_new_confirmed_valid_password() {
    let current = "the current password";
    let new = "a different password";
    assert!(valid_password_change(current, new, new));
    assert!(!valid_password_change(current, new, "a different passwort"));
    assert!(!valid_password_change(current, current, current));
    assert!(!valid_password_change(current, "short", "short"));
    assert!(!valid_password_change(&"x".repeat(513), new, new));
}

fn hour() -> u128 {
    secs(3600)
}

#[test]
fn sessions_are_valid_until_they_expire_or_end() {
    let mut auth = AdminAuth::new(URL_SAFE_NO_PAD.encode([3_u8; 32]), START).unwrap();
    let now = auth.window();
    assert!(auth.open_session("a".into(), now + hour(), now));
    assert!(auth.open_session("b".into(), now + hour(), now));
    assert_eq!(auth.session_count(), 2);
    assert!(auth.session_valid("a", now));
    assert!(!auth.session_valid("c", now));
    assert!(!auth.session_valid("a", now + hour()));
    assert!(auth.session_active("b", now + secs(60)));
    assert!(!auth.session_active("b", now + hour() * 2));
    assert_eq!(auth.session_count(), 0);
    assert!(auth.open_session("c".into(), now + hour(), now));
    auth.end_session("c");
    assert!(!auth.session_valid("c", now));
    auth.end_session("missing");
    assert_eq!(auth.session_count(), 0);
}

#[test]
fn long_tokens_are_never_sessions() {
    let mut auth = AdminAuth::new(URL_SAFE_NO_PAD.encode([4_u8; 32]), START).unwrap();
    let now = auth.window();
    let long = "t".repeat(129);
    assert!(auth.open_session(long.clone(), now + hour(), now));
    assert!(!auth.session_valid(&long, now));
    assert!(!auth.session_active(&long, now));
    let fits = "t".repeat(128);
    assert!(auth.open_session(fits.clone(), now + hour(), now));
    assert!(auth.session_valid(&fits, now));
}

#[test]
fn at_most_128_sessions_are_open() {
    let mut auth = AdminAuth::new(URL_SAFE_NO_PAD.encode([5_u8; 32]), START).unwrap();
    let now = auth.window();
    for i in 0..MAX_SESSIONS {
        assert!(auth.open_session(format!("s{i}"), now + hour(), now));
    }
    assert!(!auth.open_session("extra".into(), now + hour(), now));
    assert_eq!(auth.session_count(), MAX_SESSIONS);
    auth.end_session("s0");
    assert!(auth.open_session("extra".into(), now + hour(), now));
    assert!(auth.open_session("later".into(), now + hour() * 3, now + hour() * 2));
    assert_eq!(auth.session_count(), 1);
}

#[test]
fn reopening_a_token_takes_the_new_expiry() {
    let mut auth = AdminAuth::new(URL_SAFE_NO_PAD.encode([6_u8; 32]), START).unwrap();
    let now = auth.window();
    assert!(auth.open_session("a".into(), now + hour(), now));
    assert!(auth.open_session("a".into(), now + hour() * 5, now));
    assert_eq!(auth.session_count(), 1);
    assert!(auth.session_valid("a", now + hour() * 4));
}

#[test]
fn changing_the_credential_ends_every_session() {
    let mut auth = AdminAuth::new(URL_SAFE_NO_PAD.encode([8_u8; 32]), START).unwrap();
    let now = auth.window();
    assert!(auth.open_session("a".into(), now + hour(), now));
    let replacement = hash_password("a new long password").unwrap();
    auth.change_credential(replacement.clone());
    assert_eq!(auth.credential(), replacement);
    assert_eq!(auth.session_count(), 0);
    assert!(!auth.session_valid("a", now));
}

#[test]
fn session_expiry_is_what_was_opened() {
    let mut auth = AdminAuth::new(URL_SAFE_NO_PAD.encode([10_u8; 32]), START).unwrap();
    let now = auth.window();
    assert!(auth.open_session("a".into(), now + hour(), now));
    assert_eq!(auth.session_expiry("a"), Some(now + hour()));
    assert_eq!(auth.session_expiry("b"), None);
    assert_eq!(auth.session_expiry(&"a".repeat(129)), None);
}

#[test]
fn new_hashes_are_version_19_argon2id_with_default_parameters() {
    let hashed = hash_password("yet another long password").unwrap();
    assert!(hashed.starts_with("$argon2id$v=19$m=19456,t=2,p=1$"));
    assert!(valid_credential(&hashed));
    assert!(verify_password(&hashed, "yet another long password"));
}

#[test]
fn an_earlier_clock_reading_counts_in_the_current_window() {
    let mut auth = AdminAuth::new(URL_SAFE_NO_PAD.encode([11_u8; 32]), START).unwrap();
    for _ in 0..5 {
        assert!(auth.allow_attempt(START - secs(100)));
    }
    assert!(!auth.allow_attempt(START - secs(100)));
    assert_eq!(auth.window(), START);
}

#[test]
fn login_counts_attempts_and_opens_twelve_hour_sessions() {
    let password = "the administrator password";
    let mut auth = AdminAuth::new(legacy(password), START).unwrap();
    assert_eq!(
        auth.login(&"p".repeat(513), "t0".to_owned(), START),
        LoginOutcome::Refused
    );
    assert_eq!(
        auth.login("not the password at all", "t1".to_owned(), START),
        LoginOutcome::WrongPassword
    );
    assert_eq!(auth.login(password, "t2".to_owned(), START), LoginOutcome::Opened);
    assert_eq!(auth.session_expiry("t2"), Some(START + SESSION_LIFETIME_NANOS));
    assert_eq!(SESSION_LIFETIME_NANOS, secs(43_200));
    assert!(auth.session_valid("t2", START + SESSION_LIFETIME_NANOS - 1));
    assert!(!auth.session_valid("t2", START + SESSION_LIFETIME_NANOS));
    assert!(!auth.session_valid("t1", START));
    for i in 0..3 {
        assert_eq!(
            auth.login(password, format!("u{i}"), START + secs(1)),
            LoginOutcome::Opened
        );
    }
    assert_eq!(
        auth.login(password, "t3".to_owned(), START + secs(2)),
        LoginOutcome::Throttled
    );
    assert!(!auth.session_valid("t3", START + secs(2)));
    assert_eq!(
        auth.login(password, "t3".to_owned(), START + secs(60)),
        LoginOutcome::Opened
    );
}

#[test]
fn login_is_refused_while_every_session_slot_is_taken() {
    let password = "the administrator password";
    let mut auth = AdminAuth::new(legacy(password), START).unwrap();
    for i in 0..MAX_SESSIONS {
        assert!(auth.open_session(format!("s{i}"), START + hour(), START));
    }
    assert_eq!(
        auth.login(password, "extra".to_owned(), START),
        LoginOutcome::TooManySessions
    );
    assert_eq!(
        auth.login(password, "extra".to_owned(), START + hour()),
        LoginOutcome::Opened
    );
    assert_eq!(auth.session_count(), 1);
}

#[test]
fn a_password_change_checks_session_budget_rules_and_current_password() {
    let current = "the administrator password";
    let new = "a brand new password";
    let mut auth = AdminAuth::new(legacy(current), START).unwrap();
    assert_eq!(
        auth.start_password_change("nobody", START, current, new, new),
        PasswordChangeStart::NotLoggedIn
    );
    assert_eq!(auth.login(current, "t".to_owned(), START), LoginOutcome::Opened);
    assert_eq!(
        auth.start_password_change("t", START, current, "short", "short"),
        PasswordChangeStart::InvalidNewPassword
    );
    assert_eq!(
        auth.start_password_change("t", START, "a wrong current password", new, new),
        PasswordChangeStart::WrongCurrentPassword
    );
    match auth.start_password_change("t", START, current, new, new) {
        PasswordChangeStart::Ready(encoded) => {
            assert!(encoded.starts_with("$argon2id$v=19$m=19456,t=2,p=1$"));
            assert!(verify_password(&encoded, new));
            auth.change_credential(encoded);
        }
        other => panic!("unexpected outcome {other:?}"),
    }
    assert_eq!(auth.session_count(), 0);
    assert_eq!(
        auth.start_password_change("t", START, new, current, current),
        PasswordChangeStart::NotLoggedIn
    );
    assert_eq!(auth.login(new, "u".to_owned(), START), LoginOutcome::Opened);
    assert_eq!(
        auth.start_password_change("u", START, new, current, current),
        PasswordChangeStart::Throttled
    );
    assert_eq!(
        auth.start_password_change("t", START + secs(61), new, current, current),
        PasswordChangeStart::NotLoggedIn
    );
}

#[test]
fn hashing_with_a_given_salt_is_deterministic_and_checks_the_salt_length() {
    let salt = [7_u8; 16];
    let first = hash_password_with_salt("a fixed long password", &salt).unwrap();
    let second = hash_password_with_salt("a fixed long password", &salt).unwrap();
    assert_eq!(first, second);
    assert!(first.starts_with("$argon2id$v=19$m=19456,t=2,p=1$"));
    assert!(verify_password(&first, "a fixed long password"));
    assert_eq!(
        hash_password_with_salt("a fixed long password", &[7_u8; 7]),
        Err(AuthError::HashFailed)
    );
    assert_eq!(
        hash_password_with_salt("a fixed long password", &[7_u8; 49]),
        Err(AuthError::HashFailed)
    );
    assert!(hash_password_with_salt("a fixed long password", &[7_u8; 8]).is_ok());
}

#[test]
fn credential_checks_read_the_parsed_fields_of_the_format() {
    let good = PhcFields {
        m: Some(19456),
        t: Some(2),
        p: Some(1),
        has_hash: true,
        has_salt: true,
    };
    let weak = PhcFields {
        m: Some(4096),
        t: Some(3),
        p: Some(1),
        has_hash: true,
        has_salt: true,
    };
    let phc = "$argon2id$v=19$m=19456,t=2,p=1$c2FsdHNhbHQ$aGFzaA";
    assert!(credential_fields_accepted(phc, Some(good), None));
    assert!(!credential_fields_accepted(phc, Some(weak), None));
    assert!(!credential_fields_accepted(phc, None, Some(&[0_u8; 32])));
    let legacy = URL_SAFE_NO_PAD.encode([1_u8; 32]);
    assert!(credential_fields_accepted(&legacy, None, Some(&[1_u8; 32])));
    assert!(!credential_fields_accepted(&legacy, Some(good), Some(&[1_u8; 31])));
    assert!(!credential_fields_accepted(&legacy, Some(good), None));
}

fn legacy(secret: &str) -> String {
    URL_SAFE_NO_PAD.encode(Sha256::digest(secret.as_bytes()))
}

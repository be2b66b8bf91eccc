use course_backend::api_types::LoginRequest;
use course_backend::auth::{admin_bypass, login_with_user, try_admin_login};
use course_backend::checkout::{bearer_token, form_fields, handle_provider_response,
    prepare_checkout};
use course_backend::enrollment::{apply, commit_event, decode_event, PaymentEvent};
use course_backend::errors::{AppError, AuthError, PurchaseError, WebhookError};
use course_backend::price::{amount_minor_units, Price};
use course_backend::signature::{subtle_equals, verify_signature};
use course_backend::store::{CourseRecord, Enrollment, Store, UserRecord};
use course_backend::token::{create_token, validate_token};

use argon2::password_hash::{PasswordHasher, SaltString};
use hmac::Mac;

const USER_UUID: &str = "123e4567-e89b-12d3-a456-426614174000";
const COURSE_UUID: &str = "00000000-0000-4000-8000-000000000001";

fn hex_hmac(secret: &str, msg: &[u8]) -> String {
    let mut mac = hmac::Hmac::<sha2::Sha256>::new_from_slice(secret.as_bytes()).unwrap();
    mac.update(msg);
    hex::encode(mac.finalize().into_bytes())
}

fn signed_header(secret: &str, ts: &str, body: &str) -> String {
    let msg = format!("{}.{}", ts, body);
    format!("t={},v1={}", ts, hex_hmac(secret, msg.as_bytes()))
}

#[test]
fn token_round_trip_until_expiry() {
    let token = create_token("user-1", "admin", "s3cr3t", 60, 1_000);
    let claims = validate_token(&token, "s3cr3t", 1_000).expect("fresh token must verify");
    assert_eq!(claims.sub, "user-1");
    assert_eq!(claims.role, "admin");
    assert_eq!(claims.exp, 1_000 + 3_600);
    let claims = validate_token(&token, "s3cr3t", 4_599).expect("still inside the ttl");
    assert_eq!(claims.sub, "user-1");
    assert_eq!(validate_token(&token, "s3cr3t", 4_600).unwrap_err(), AuthError::Expired);
    assert_eq!(validate_token(&token, "s3cr3t", 10_000).unwrap_err(), AuthError::Expired);
}

#[test]
fn token_unicode_subject_round_trip() {
    let token = create_token("ren\u{e9}e \u{1f600}", "r\u{f4}le", "k", 1, 0);
    let claims = validate_token(&token, "k", 10).expect("unicode subject must round-trip");
    assert_eq!(claims.sub, "ren\u{e9}e \u{1f600}");
    assert_eq!(claims.role, "r\u{f4}le");
}

#[test]
fn token_wrong_secret_rejected() {
    let token = create_token("user-1", "user", "secret-a", 60, 0);
    assert_eq!(validate_token(&token, "secret-b", 0).unwrap_err(), AuthError::InvalidSignature);
}

#[test]
fn token_tamper_any_byte_rejected() {
    let token = create_token("alice", "user", "s3cr3t", 60, 50);
    assert!(validate_token(&token, "s3cr3t", 60).is_ok());
    let bytes = token.as_bytes();
    for i in 0..bytes.len() {
        let mut altered = bytes.to_vec();
        // Stay inside ASCII so the altered token is still a string.
        altered[i] = if bytes[i] == b'x' { b'y' } else { b'x' };
        let altered = String::from_utf8(altered).unwrap();
        assert_eq!(
            validate_token(&altered, "s3cr3t", 60).unwrap_err(),
            AuthError::InvalidSignature,
            "byte {} should break the signature",
            i
        );
    }
}

#[test]
fn token_structural_garbage_rejected() {
    assert_eq!(validate_token("", "k", 0).unwrap_err(), AuthError::InvalidSignature);
    assert_eq!(validate_token("a.b", "k", 0).unwrap_err(), AuthError::InvalidSignature);
    assert_eq!(validate_token("a.b.c.d.e", "k", 0).unwrap_err(), AuthError::InvalidSignature);
}

#[test]
fn subtle_equals_is_plain_equality() {
    assert!(subtle_equals("abcdef", "abcdef"));
    assert!(!subtle_equals("abcdef", "abcdeg"));
    assert!(!subtle_equals("abc", "abcd"));
    assert!(subtle_equals("", ""));
}

#[test]
fn webhook_signature_accepts_exact_hmac() {
    let secret = "whsec_test";
    let body = "{\"type\":\"checkout.session.completed\"}";
    let header = signed_header(secret, "1712000000", body);
    assert!(verify_signature(&header, body.as_bytes(), secret));
}

#[test]
fn webhook_signature_field_order_irrelevant() {
    let secret = "whsec_test";
    let body = "{\"a\":1}";
    let ts = "1712000000";
    let sig = hex_hmac(secret, format!("{}.{}", ts, body).as_bytes());
    let fwd = format!("t={},v1={}", ts, sig);
    let rev = format!("v1={},t={}", sig, ts);
    assert!(verify_signature(&fwd, body.as_bytes(), secret));
    assert!(verify_signature(&rev, body.as_bytes(), secret));
}

#[test]
fn webhook_signature_rejects_missing_or_wrong_fields() {
    let secret = "whsec_test";
    let body = "{}";
    let ts = "1712000000";
    let sig = hex_hmac(secret, format!("{}.{}", ts, body).as_bytes());
    // Missing v1 field.
    assert!(!verify_signature(&format!("t={}", ts), body.as_bytes(), secret));
    // Missing t field.
    assert!(!verify_signature(&format!("v1={}", sig), body.as_bytes(), secret));
    // Signature computed under another secret.
    let other = hex_hmac("other_secret", format!("{}.{}", ts, body).as_bytes());
    assert!(!verify_signature(&format!("t={},v1={}", ts, other), body.as_bytes(), secret));
    // Tampered signature.
    let mut bad = sig.clone().into_bytes();
    bad[0] = if bad[0] == b'a' { b'b' } else { b'a' };
    let bad = String::from_utf8(bad).unwrap();
    assert!(!verify_signature(&format!("t={},v1={}", ts, bad), body.as_bytes(), secret));
    // Body of a different delivery.
    assert!(!verify_signature(&format!("t={},v1={}", ts, sig), b"{\"b\":2}", secret));
}

#[test]
fn amount_rounds_price_to_minor_units() {
    assert_eq!(amount_minor_units(&Price::new(false, 19, 990_000)), 1_999);
    assert_eq!(amount_minor_units(&Price::new(false, 0, 0)), 0);
    assert_eq!(amount_minor_units(&Price::new(true, 12, 500_000)), 0);
    assert_eq!(amount_minor_units(&Price::new(false, 49, 0)), 4_900);
    // Half a cent rounds up, just under it rounds down.
    assert_eq!(amount_minor_units(&Price::new(false, 0, 5_000)), 1);
    assert_eq!(amount_minor_units(&Price::new(false, 0, 4_999)), 0);
}

fn seeded_store() -> Store {
    let mut store = Store::new();
    store.add_course(CourseRecord {
        id: COURSE_UUID.to_string(),
        title: "WinDev Fundamentals".to_string(),
        price: Price::new(false, 49, 0),
        students_count: 0,
    });
    store
}

fn completed_event(amount: i64) -> PaymentEvent {
    PaymentEvent::CheckoutCompleted {
        session_id: "cs_test_1".to_string(),
        amount_total: amount,
        currency: "usd".to_string(),
        user_id: USER_UUID.to_string(),
        course_id: COURSE_UUID.to_string(),
    }
}

#[test]
fn commit_is_idempotent_on_rows() {
    let mut store = seeded_store();
    let ev = completed_event(4_900);
    assert_eq!(commit_event(&mut store, &ev, true), Ok(()));
    assert_eq!(store.enrollments.len(), 1);
    assert_eq!(commit_event(&mut store, &ev, true), Ok(()));
    assert_eq!(store.enrollments.len(), 1, "redelivery must not add a row");
    assert_eq!(store.enrollments[0].user_id, USER_UUID);
    assert_eq!(store.enrollments[0].course_id, COURSE_UUID);
    assert_eq!(store.enrollments[0].amount_cents, 4_900);
    // The popularity counter is not guarded by the row's uniqueness
    // check: redelivery drifts it. That gap is recorded with the
    // design, and this pins the behavior down.
    assert_eq!(store.courses[0].students_count, 2);
}

#[test]
fn commit_rejects_unverified_and_malformed() {
    let mut store = seeded_store();
    let ev = completed_event(100);
    assert_eq!(commit_event(&mut store, &ev, false), Err(WebhookError::Unauthorized));
    assert_eq!(store.enrollments.len(), 0);
    assert_eq!(store.courses[0].students_count, 0);
    let bad = PaymentEvent::CheckoutCompleted {
        session_id: "cs".to_string(),
        amount_total: 1,
        currency: "usd".to_string(),
        user_id: "not-a-uuid".to_string(),
        course_id: COURSE_UUID.to_string(),
    };
    assert_eq!(commit_event(&mut store, &bad, true), Err(WebhookError::BadRequest));
    assert_eq!(store.enrollments.len(), 0);
    // Absent metadata decodes to empty ids; they are not well-formed
    // identifiers, so the delivery is rejected and the provider's
    // retry mechanism is informed.
    let empty_meta = PaymentEvent::CheckoutCompleted {
        session_id: "cs".to_string(),
        amount_total: 1,
        currency: "usd".to_string(),
        user_id: String::new(),
        course_id: String::new(),
    };
    assert_eq!(commit_event(&mut store, &empty_meta, true), Err(WebhookError::BadRequest));
    assert_eq!(store.enrollments.len(), 0);
    assert_eq!(commit_event(&mut store, &PaymentEvent::Ignored, true), Ok(()));
    assert_eq!(store.enrollments.len(), 0);
}

#[test]
fn decode_event_shapes() {
    assert!(matches!(decode_event(b"not json"), Err(WebhookError::BadRequest)));
    match decode_event(b"{\"type\":\"invoice.paid\"}") {
        Ok(PaymentEvent::Ignored) => {}
        other => panic!("expected Ignored, got {:?}", other.is_ok()),
    }
    let body = format!(
        "{{\"type\":\"checkout.session.completed\",\"data\":{{\"object\":{{\"id\":\"cs_9\",\"amount_total\":4900,\"currency\":\"usd\",\"metadata\":{{\"user_id\":\"{}\",\"course_id\":\"{}\"}}}}}}}}",
        USER_UUID, COURSE_UUID
    );
    match decode_event(body.as_bytes()) {
        Ok(PaymentEvent::CheckoutCompleted {
            session_id,
            amount_total,
            currency,
            user_id,
            course_id,
        }) => {
            assert_eq!(session_id, "cs_9");
            assert_eq!(amount_total, 4900);
            assert_eq!(currency, "usd");
            assert_eq!(user_id, USER_UUID);
            assert_eq!(course_id, COURSE_UUID);
        }
        _ => panic!("expected a completed checkout event"),
    }
}

#[test]
fn admin_bypass_needs_exact_pair() {
    let cfg = Some("root@example.com:hunter2".to_string());
    assert!(admin_bypass(&cfg, "root@example.com", "hunter2"));
    assert!(!admin_bypass(&cfg, "root@example.com", "hunter3"));
    assert!(!admin_bypass(&cfg, "other@example.com", "hunter2"));
    assert!(!admin_bypass(&None, "root@example.com", "hunter2"));
    // A credential with more than one colon never matches.
    let odd = Some("a:b:c".to_string());
    assert!(!admin_bypass(&odd, "a", "b:c"));
    assert!(!admin_bypass(&odd, "a", "b"));
}

#[test]
fn admin_login_issues_privileged_token() {
    let cfg = Some("root@example.com:hunter2".to_string());
    let req = LoginRequest {
        email: "root@example.com".to_string(),
        password: "hunter2".to_string(),
    };
    let resp = try_admin_login(&cfg, &req, "jwt_secret", 100).expect("bypass must match");
    let claims = validate_token(&resp.token, "jwt_secret", 100).unwrap();
    assert_eq!(claims.sub, "admin");
    assert_eq!(claims.role, "admin");
    let wrong = LoginRequest {
        email: "root@example.com".to_string(),
        password: "nope".to_string(),
    };
    assert!(try_admin_login(&cfg, &wrong, "jwt_secret", 100).is_none());
}

fn hash_password(pw: &str) -> String {
    let salt = SaltString::from_b64("c2FsdHNhbHRzYWx0").unwrap();
    argon2::Argon2::default()
        .hash_password(pw.as_bytes(), &salt)
        .unwrap()
        .to_string()
}

#[test]
fn login_with_user_row() {
    let user = UserRecord {
        id: USER_UUID.to_string(),
        password_hash: hash_password("secret123"),
        role: None,
    };
    let req = LoginRequest {
        email: "a@b.c".to_string(),
        password: "secret123".to_string(),
    };
    let resp = login_with_user(Some(&user), &req, "jwt_secret", 500).expect("login must succeed");
    let claims = validate_token(&resp.token, "jwt_secret", 500).unwrap();
    assert_eq!(claims.sub, USER_UUID);
    assert_eq!(claims.role, "user", "a row without a role defaults to user");
    let wrong = LoginRequest {
        email: "a@b.c".to_string(),
        password: "secret124".to_string(),
    };
    assert_eq!(
        login_with_user(Some(&user), &wrong, "jwt_secret", 500).unwrap_err(),
        AppError::Unauthorized
    );
    assert_eq!(login_with_user(None, &req, "jwt_secret", 500).unwrap_err(), AppError::Unauthorized);
    let broken = UserRecord {
        id: USER_UUID.to_string(),
        password_hash: "not-a-phc-string".to_string(),
        role: None,
    };
    assert_eq!(
        login_with_user(Some(&broken), &req, "jwt_secret", 500).unwrap_err(),
        AppError::Internal
    );
}

#[test]
fn bearer_token_extraction() {
    assert_eq!(bearer_token(Some("Bearer abc.def")), "abc.def");
    assert_eq!(bearer_token(Some("bearer abc")), "");
    assert_eq!(bearer_token(Some("abc")), "");
    assert_eq!(bearer_token(None), "");
}

#[test]
fn prepare_checkout_error_ladder() {
    let store = seeded_store();
    let secret = "jwt_secret";
    let token = create_token(USER_UUID, "user", secret, 60, 100);
    let auth = format!("Bearer {}", token);
    let key = Some("sk_test_123".to_string());
    assert_eq!(
        prepare_checkout(&store, "missing-id", Some(&auth), secret, &key, "http://f", 100)
            .unwrap_err(),
        PurchaseError::NotFound
    );
    assert_eq!(
        prepare_checkout(&store, COURSE_UUID, None, secret, &key, "http://f", 100).unwrap_err(),
        PurchaseError::Unauthorized
    );
    assert_eq!(
        prepare_checkout(&store, COURSE_UUID, Some(&auth), secret, &None, "http://f", 100)
            .unwrap_err(),
        PurchaseError::Misconfigured
    );
    let req = prepare_checkout(&store, COURSE_UUID, Some(&auth), secret, &key, "http://f", 100)
        .expect("all preconditions satisfied");
    assert_eq!(req.amount_cents, 4_900);
    assert_eq!(req.user_id, USER_UUID);
    assert_eq!(req.course_id, COURSE_UUID);
    assert_eq!(req.currency, "usd");
    assert_eq!(req.product_name, "WinDev Fundamentals");
    assert_eq!(req.success_url, "http://f/payment/success?session_id={CHECKOUT_SESSION_ID}");
    assert_eq!(req.cancel_url, "http://f/payment/cancel");
}

#[test]
fn form_fields_carry_metadata_verbatim() {
    let store = seeded_store();
    let secret = "jwt_secret";
    let token = create_token(USER_UUID, "user", secret, 60, 100);
    let auth = format!("Bearer {}", token);
    let key = Some("sk_test_123".to_string());
    let req =
        prepare_checkout(&store, COURSE_UUID, Some(&auth), secret, &key, "http://f", 100).unwrap();
    let fields = form_fields(&req);
    assert_eq!(fields.len(), 10);
    assert_eq!(fields[0], ("mode".to_string(), "payment".to_string()));
    assert_eq!(fields[5].0, "line_items[0][price_data][unit_amount]");
    assert_eq!(fields[5].1, "4900");
    assert_eq!(fields[8], ("metadata[user_id]".to_string(), USER_UUID.to_string()));
    assert_eq!(fields[9], ("metadata[course_id]".to_string(), COURSE_UUID.to_string()));
}

#[test]
fn provider_response_handling() {
    assert_eq!(
        handle_provider_response(500, b"{\"url\":\"x\"}"),
        Err(PurchaseError::ProviderError)
    );
    assert_eq!(handle_provider_response(200, b"oops"), Err(PurchaseError::ProviderError));
    assert_eq!(handle_provider_response(200, b"{}"), Err(PurchaseError::ProviderError));
    assert_eq!(
        handle_provider_response(200, b"{\"url\":\"https://pay.example/cs_1\"}"),
        Ok("https://pay.example/cs_1".to_string())
    );
}

#[test]
fn purchase_and_webhook_end_to_end() {
    let jwt_secret = "jwt_secret";
    let webhook_secret = "whsec_e2e";
    let mut store = seeded_store();
    // Login with a seeded user.
    let user = UserRecord {
        id: USER_UUID.to_string(),
        password_hash: hash_password("secret123"),
        role: Some("user".to_string()),
    };
    let req = LoginRequest {
        email: "student@example.com".to_string(),
        password: "secret123".to_string(),
    };
    let resp = login_with_user(Some(&user), &req, jwt_secret, 1_000).unwrap();
    // Purchase the 49.00 course with that token.
    let auth = format!("Bearer {}", resp.token);
    let key = Some("sk_test_123".to_string());
    let checkout =
        prepare_checkout(&store, COURSE_UUID, Some(&auth), jwt_secret, &key, "http://f", 1_000)
            .unwrap();
    assert_eq!(checkout.amount_cents, 4_900);
    let url = handle_provider_response(200, b"{\"url\":\"https://pay.example/cs_42\"}").unwrap();
    assert_eq!(url, "https://pay.example/cs_42");
    // The provider calls back with matching metadata and a valid signature.
    let body = format!(
        "{{\"type\":\"checkout.session.completed\",\"data\":{{\"object\":{{\"id\":\"cs_42\",\"amount_total\":4900,\"currency\":\"usd\",\"metadata\":{{\"user_id\":\"{}\",\"course_id\":\"{}\"}}}}}}}}",
        USER_UUID, COURSE_UUID
    );
    let header = signed_header(webhook_secret, "1712000000", &body);
    let verified = verify_signature(&header, body.as_bytes(), webhook_secret);
    assert!(verified);
    assert_eq!(apply(&mut store, body.as_bytes(), verified), Ok(()));
    assert_eq!(store.enrollments.len(), 1);
    assert_eq!(store.enrollments[0].session_id, "cs_42");
    // A second identical callback leaves the row count unchanged.
    let verified = verify_signature(&header, body.as_bytes(), webhook_secret);
    assert_eq!(apply(&mut store, body.as_bytes(), verified), Ok(()));
    assert_eq!(store.enrollments.len(), 1);
}

#[test]
fn webhook_unverified_never_mutates() {
    let webhook_secret = "whsec_e2e";
    let mut store = seeded_store();
    let body = format!(
        "{{\"type\":\"checkout.session.completed\",\"data\":{{\"object\":{{\"id\":\"cs_1\",\"amount_total\":100,\"currency\":\"usd\",\"metadata\":{{\"user_id\":\"{}\",\"course_id\":\"{}\"}}}}}}}}",
        USER_UUID, COURSE_UUID
    );
    // Header missing the v1 field.
    let verified = verify_signature("t=1712000000", body.as_bytes(), webhook_secret);
    assert!(!verified);
    assert_eq!(apply(&mut store, body.as_bytes(), verified), Err(WebhookError::Unauthorized));
    // Signature computed under a different secret.
    let header = signed_header("other_secret", "1712000000", &body);
    let verified = verify_signature(&header, body.as_bytes(), webhook_secret);
    assert!(!verified);
    assert_eq!(apply(&mut store, body.as_bytes(), verified), Err(WebhookError::Unauthorized));
    assert_eq!(store.enrollments.len(), 0);
    assert_eq!(store.courses[0].students_count, 0);
}

#[test]
fn webhook_bad_json_rejected_without_mutation() {
    let mut store = seeded_store();
    assert_eq!(apply(&mut store, b"\x00\x01", true), Err(WebhookError::BadRequest));
    assert_eq!(store.enrollments.len(), 0);
}

#[test]
fn webhook_missing_metadata_rejected() {
    let mut store = seeded_store();
    // Completed event whose object carries no metadata at all.
    let body = "{\"type\":\"checkout.session.completed\",\"data\":{\"object\":{\"id\":\"cs_7\",\"amount_total\":100,\"currency\":\"usd\"}}}";
    assert_eq!(apply(&mut store, body.as_bytes(), true), Err(WebhookError::BadRequest));
    assert_eq!(store.enrollments.len(), 0);
    assert_eq!(store.courses[0].students_count, 0);
    // Completed event whose metadata lacks the course id.
    let body = format!(
        "{{\"type\":\"checkout.session.completed\",\"data\":{{\"object\":{{\"id\":\"cs_7\",\"amount_total\":100,\"currency\":\"usd\",\"metadata\":{{\"user_id\":\"{}\"}}}}}}}}",
        USER_UUID
    );
    assert_eq!(apply(&mut store, body.as_bytes(), true), Err(WebhookError::BadRequest));
    assert_eq!(store.enrollments.len(), 0);
}

#[test]
fn webhook_missing_object_acknowledged() {
    let mut store = seeded_store();
    let body = "{\"type\":\"checkout.session.completed\"}";
    assert_eq!(apply(&mut store, body.as_bytes(), true), Ok(()));
    assert_eq!(store.enrollments.len(), 0);
    assert_eq!(store.courses[0].students_count, 0);
}

#[test]
fn error_status_codes() {
    assert_eq!(AppError::NotFound.status_code(), 404);
    assert_eq!(AppError::Unauthorized.status_code(), 401);
    assert_eq!(AppError::Forbidden.status_code(), 403);
    assert_eq!(AppError::BadRequest.status_code(), 400);
    assert_eq!(AppError::Conflict.status_code(), 409);
    assert_eq!(AppError::Internal.status_code(), 500);
    assert_eq!(PurchaseError::NotFound.to_app_error(), AppError::NotFound);
    assert_eq!(PurchaseError::ProviderError.to_app_error(), AppError::Internal);
    assert_eq!(WebhookError::Unauthorized.to_app_error(), AppError::Unauthorized);
    assert_eq!(WebhookError::BadRequest.to_app_error(), AppError::BadRequest);
    assert_eq!(AuthError::Expired.to_app_error(), AppError::Unauthorized);
}

#[test]
fn store_insert_enrollment_is_conditional() {
    let mut store = Store::new();
    let row = Enrollment {
        user_id: "u1".to_string(),
        course_id: "c1".to_string(),
        session_id: "s1".to_string(),
        amount_cents: 100,
        currency: "usd".to_string(),
    };
    store.insert_enrollment(row);
    let dup = Enrollment {
        user_id: "u1".to_string(),
        course_id: "c1".to_string(),
        session_id: "s2".to_string(),
        amount_cents: 999,
        currency: "eur".to_string(),
    };
    store.insert_enrollment(dup);
    assert_eq!(store.enrollments.len(), 1);
    assert_eq!(store.enrollments[0].session_id, "s1", "the first row wins");
    let other = Enrollment {
        user_id: "u2".to_string(),
        course_id: "c1".to_string(),
        session_id: "s3".to_string(),
        amount_cents: 100,
        currency: "usd".to_string(),
    };
    store.insert_enrollment(other);
    assert_eq!(store.enrollments.len(), 2);
}

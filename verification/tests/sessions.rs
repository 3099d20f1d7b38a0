use wg_easy_rs::auth::{check, login, logout, new_uuid_string, LoginRequest};
use wg_easy_rs::error::AppError;
use wg_easy_rs::models::User;
use wg_easy_rs::session::{get_session_id_from_headers, new_store};

#[test]
fn session_id_is_read_from_the_cookie_header() {
    assert_eq!(
        get_session_id_from_headers("wg_session=abc123").as_deref(),
        Some("abc123")
    );
    assert_eq!(
        get_session_id_from_headers("foo=1; wg_session=xyz; bar=2").as_deref(),
        Some("xyz")
    );
    assert_eq!(
        get_session_id_from_headers("  wg_session=padded  ").as_deref(),
        Some("padded")
    );
    assert_eq!(get_session_id_from_headers("foo=1; bar=2"), None);
    assert_eq!(get_session_id_from_headers(""), None);
    // The name must match exactly; a prefix is another cookie.
    assert_eq!(get_session_id_from_headers("wg_session2=abc"), None);
}

#[test]
fn store_insert_get_remove() {
    let mut store = new_store();
    store.insert("sid-1".to_string(), "alice".to_string());
    store.insert("sid-2".to_string(), "bob".to_string());
    assert_eq!(store.get("sid-1").as_deref(), Some("alice"));
    assert_eq!(store.get("sid-2").as_deref(), Some("bob"));
    assert!(store.get("sid-3").is_none());
    store.insert("sid-1".to_string(), "carol".to_string());
    assert_eq!(store.get("sid-1").as_deref(), Some("carol"));
    store.remove("sid-1");
    assert!(store.get("sid-1").is_none());
    store.remove("sid-1");
    assert!(store.get("sid-2").is_some());
}

#[test]
fn insecure_mode_logs_in_without_a_password_check() {
    let mut store = new_store();
    let req = LoginRequest {
        username: "admin".to_string(),
        password: "anything".to_string(),
        totp_code: None,
    };
    let r = login(&mut store, None, true, &None, &None, &req, "sid-x".to_string())
        .expect("insecure login succeeds");
    assert!(r.authenticated);
    assert_eq!(r.username.as_deref(), Some("admin"));
    assert_eq!(store.get("sid-x").as_deref(), Some("admin"));
}

#[test]
fn password_is_checked_against_the_configured_hash() {
    let hash = bcrypt::hash("secret", 4).expect("hash");
    let mut store = new_store();
    let good = LoginRequest {
        username: "admin".to_string(),
        password: "secret".to_string(),
        totp_code: None,
    };
    let r = login(&mut store, None, false, &Some(hash.clone()), &None, &good,
        "sid-good".to_string());
    assert!(r.expect("correct password accepted").authenticated);
    assert!(store.get("sid-good").is_some());

    let bad = LoginRequest {
        username: "admin".to_string(),
        password: "wrong".to_string(),
        totp_code: None,
    };
    let r2 = login(&mut store, None, false, &Some(hash), &None, &bad, "sid-bad".to_string());
    assert!(matches!(r2, Err(AppError::Unauthorized)));
    assert!(store.get("sid-bad").is_none());
}

#[test]
fn a_live_session_stays_logged_in() {
    let mut store = new_store();
    store.insert("sid-live".to_string(), "alice".to_string());
    let req = LoginRequest {
        username: "other".to_string(),
        password: "irrelevant".to_string(),
        totp_code: None,
    };
    let r = login(&mut store, Some("sid-live".to_string()), false, &None, &None, &req,
        "sid-new".to_string())
        .expect("existing session accepted");
    assert!(r.authenticated);
    assert_eq!(r.username.as_deref(), Some("alice"));
    assert!(store.get("sid-new").is_none(), "no new session is created");
}

#[test]
fn a_user_with_a_secret_needs_a_current_code() {
    let hash = bcrypt::hash("secret", 4).expect("hash");
    let user = User {
        id: 1,
        username: "admin".to_string(),
        password_hash: hash.clone(),
        totp_secret: Some("12345678901234567890".to_string()),
    };
    let mut store = new_store();
    let req = LoginRequest {
        username: "admin".to_string(),
        password: "secret".to_string(),
        totp_code: Some("000000".to_string()),
    };
    // A fixed wrong code is rejected (the chance of it being current is
    // negligible and would only flip this to success).
    let r = login(&mut store, None, false, &Some(hash), &Some(user), &req,
        "sid-t".to_string());
    assert!(matches!(r, Err(AppError::Unauthorized)));
}

#[test]
fn logout_forgets_the_request_session() {
    let mut store = new_store();
    store.insert("sid-1".to_string(), "alice".to_string());
    logout(&mut store, "wg_session=sid-1");
    assert!(store.get("sid-1").is_none());
    // Logging out an unknown session is not an error.
    logout(&mut store, "wg_session=sid-1");
    logout(&mut store, "unrelated=1");
}

#[test]
fn check_reports_the_session_state() {
    let mut store = new_store();
    let r = check(&store, "wg_session=sid-1");
    assert!(!r.authenticated);
    assert!(r.username.is_none());
    store.insert("sid-1".to_string(), "alice".to_string());
    let r2 = check(&store, "wg_session=sid-1");
    assert!(r2.authenticated);
    assert_eq!(r2.username.as_deref(), Some("alice"));
}

#[test]
fn fresh_session_ids_are_long_and_unique() {
    let a = new_uuid_string();
    let b = new_uuid_string();
    assert_eq!(a.len(), 36);
    assert_ne!(a, b);
}

//! Login and logout: the decision who is authenticated, over the session
//! store, the configured password hash, and the optional one-time code.

use vstd::prelude::*;
use crate::error::AppError;
use crate::models::{User, opt_view};
use crate::session::{SessionStore, spec_session_id, get_session_id_from_headers};

verus! {

/// A login attempt.
pub struct LoginRequest {
    pub username: String,
    pub password: String,
    pub totp_code: Option<String>,
}

/// What the session endpoints report.
pub struct SessionResponse {
    pub authenticated: bool,
    pub username: Option<String>,
}

/// Whether bcrypt accepts this password against this hash: a function of
/// the two strings alone.
pub uninterp spec fn bcrypt_accepts(password: Seq<char>, hash: Seq<char>) -> bool;

/// Relies on bcrypt::verify: acceptance is computed from the password and
/// the hash alone; a malformed hash is an error.
#[verifier::external_body]
fn bcrypt_verify(password: &str, hash: &str) -> (r: Result<bool, ()>)
    ensures
        r matches Ok(b) ==> b == bcrypt_accepts(password@, hash@),
{
    match bcrypt::verify(password, hash) {
        Ok(b) => Ok(b),
        Err(_) => Err(()),
    }
}

/// Relies on totp_rs: a six-digit, thirty-second one-time code over the
/// given secret, checked against the system clock. The outcome depends on
/// the current time, so nothing is promised of it.
#[verifier::external_body]
fn totp_check(secret: &str, code: &str) -> (r: Result<bool, ()>)
{
    let totp = totp_rs::Builder::new()
        .with_algorithm(totp_rs::Algorithm::SHA1)
        .with_digits(6)
        .with_skew(1)
        .with_step_duration(30)
        .with_secret(secret.as_bytes().to_vec())
        .build()
        .map_err(|_| ())?;
    Ok(totp.check_current(code).is_some())
}

/// Relies on uuid's v4 generator: a fresh random identifier, rendered in
/// the hyphenated form of 36 characters.
#[verifier::external_body]
pub fn new_uuid_string() -> (r: String)
    ensures
        r@.len() == 36,
{
    uuid::Uuid::new_v4().to_string()
}

/// Whether the request's own session id is already logged in.
pub open spec fn already_authed(store: Map<Seq<char>, Seq<char>>, existing: Option<String>) -> bool {
    match existing {
        Some(sid) => store.dom().contains(sid@),
        None => false,
    }
}

/// The configured hash, or the empty string when none is set: what the
/// password is checked against.
pub open spec fn hash_or_empty(h: Option<String>) -> Seq<char> {
    match h {
        Some(s) => s@,
        None => Seq::<char>::empty(),
    }
}

/// Decide a login attempt. A request whose session id is already logged in
/// stays logged in, and the store is untouched. Otherwise, unless the
/// insecure mode is on, the password must match the configured hash, and a
/// user with a one-time secret must also present a current code; then the
/// new session id is recorded for the requested username.
pub fn login(
    store: &mut SessionStore,
    existing_sid: Option<String>,
    insecure: bool,
    password_hash: &Option<String>,
    user: &Option<User>,
    req: &LoginRequest,
    new_sid: String,
) -> (r: Result<SessionResponse, AppError>)
    requires
        old(store).wf(),
    ensures
        final(store).wf(),
        already_authed(old(store)@, existing_sid) ==> {
            &&& final(store)@ == old(store)@
            &&& r matches Ok(resp) && resp.authenticated
                && opt_view(resp.username) == Some(old(store)@[existing_sid->0@])
        },
        !already_authed(old(store)@, existing_sid) ==> match r {
            Ok(resp) => {
                &&& final(store)@ == old(store)@.insert(new_sid@, req.username@)
                &&& resp.authenticated
                &&& opt_view(resp.username) == Some(req.username@)
                &&& insecure || bcrypt_accepts(req.password@, hash_or_empty(*password_hash))
            },
            Err(e) => final(store)@ == old(store)@ && (e is Unauthorized || e is Internal),
        },
{
    match existing_sid {
        Some(sid) => {
            match store.get(sid.as_str()) {
                Some(username) => {
                    return Ok(SessionResponse { authenticated: true, username: Some(username) });
                },
                None => {},
            }
        },
        None => {},
    }
    if !insecure {
        let hash_check = match password_hash {
            Some(h) => bcrypt_verify(req.password.as_str(), h.as_str()),
            None => bcrypt_verify(req.password.as_str(), ""),
        };
        proof {
            reveal_strlit("");
            assert(""@ =~= Seq::<char>::empty());
        }
        match hash_check {
            Ok(true) => {},
            Ok(false) => {
                return Err(AppError::Unauthorized);
            },
            Err(()) => {
                return Err(AppError::Internal(String::from_str("password check failed")));
            },
        }
        match user {
            Some(u) => match &u.totp_secret {
                Some(secret) => {
                    let code_ok = match &req.totp_code {
                        Some(code) => totp_check(secret.as_str(), code.as_str()),
                        None => totp_check(secret.as_str(), ""),
                    };
                    match code_ok {
                        Ok(true) => {},
                        Ok(false) => {
                            return Err(AppError::Unauthorized);
                        },
                        Err(()) => {
                            return Err(AppError::Internal(String::from_str(
                                "one-time code check failed")));
                        },
                    }
                },
                None => {},
            },
            None => {},
        }
    }
    let username = req.username.clone();
    store.insert(new_sid, username.clone());
    Ok(SessionResponse { authenticated: true, username: Some(username) })
}

/// Log the request's session out; a request without a known session changes
/// nothing.
pub fn logout(store: &mut SessionStore, cookie_header: &str)
    requires
        old(store).wf(),
    ensures
        final(store).wf(),
        final(store)@ == (match spec_session_id(cookie_header@) {
            Some(sid) => old(store)@.remove(sid),
            None => old(store)@,
        }),
{
    match get_session_id_from_headers(cookie_header) {
        Some(sid) => {
            store.remove(sid.as_str());
        },
        None => {},
    }
}

/// Report whether the request is logged in, and as whom.
pub fn check(store: &SessionStore, cookie_header: &str) -> (r: SessionResponse)
    requires
        store.wf(),
    ensures
        r.authenticated == (spec_session_id(cookie_header@) matches Some(sid)
            && store@.dom().contains(sid)),
        r.authenticated ==> (spec_session_id(cookie_header@) matches Some(sid)
            && opt_view(r.username) == Some(store@[sid])),
        !r.authenticated ==> r.username is None,
{
    match crate::session::authenticated_user(store, cookie_header) {
        Some(u) => SessionResponse { authenticated: true, username: Some(u) },
        None => SessionResponse { authenticated: false, username: None },
    }
}

} // verus!

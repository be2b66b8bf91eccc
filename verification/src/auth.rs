//! The login flow's decisions: the out-of-band administrative bypass,
//! checked before the user store is ever queried, and the
//! password-backed login against a fetched user row. Wrong email,
//! wrong password and absent user all collapse into one outcome so
//! that nothing can be enumerated; credential comparison for the
//! bypass is constant-time.
use vstd::prelude::*;
use vstd::utf8::encode_utf8;
use crate::api_types::{LoginRequest, LoginResponse};
use crate::bytestr::{split_on, split_on_bytes, ct_eq_bytes};
use crate::errors::AppError;
use crate::password::{PasswordCheck, check_password, is_phc_hash, password_matches};
use crate::store::UserRecord;
use crate::token::{create_token, token_chars_of, TOKEN_TTL_MINUTES};

verus! {

/// Whether the configured bypass credential, `email ":" password`,
/// matches the presented pair. A credential with more or fewer than
/// two colon-separated parts matches nothing.
pub open spec fn admin_matches(admin: Seq<char>, email: Seq<char>, password: Seq<char>) -> bool {
    let parts = split_on(encode_utf8(admin), 58);
    parts.len() == 2 && parts[0] == encode_utf8(email) && parts[1] == encode_utf8(password)
}

/// Check the administrative bypass credential, in constant time per
/// field.
pub fn admin_bypass(admin_auth: &Option<String>, email: &str, password: &str) -> (r: bool)
    ensures
        r == (match admin_auth {
            Some(a) => admin_matches(a@, email@, password@),
            None => false,
        }),
{
    match admin_auth {
        None => false,
        Some(a) => {
            let parts = split_on_bytes(a.as_str().as_bytes(), 58);
            if parts.len() != 2 {
                return false;
            }
            proof {
                assert(parts@[0]@ == split_on(encode_utf8(a@), 58)[0]);
                assert(parts@[1]@ == split_on(encode_utf8(a@), 58)[1]);
            }
            let e_ok = ct_eq_bytes(parts[0].as_slice(), email.as_bytes());
            let p_ok = ct_eq_bytes(parts[1].as_slice(), password.as_bytes());
            e_ok && p_ok
        },
    }
}

/// Try the administrative bypass: when the request matches the
/// configured credential, issue a token for the fixed privileged
/// identity without consulting the user store.
pub fn try_admin_login(
    admin_auth: &Option<String>,
    req: &LoginRequest,
    jwt_secret: &str,
    now: u64,
) -> (r: Option<LoginResponse>)
    requires
        now + 3600 <= u64::MAX,
    ensures
        r is Some <==> (match admin_auth {
            Some(a) => admin_matches(a@, req.email@, req.password@),
            None => false,
        }),
        r matches Some(resp) ==> resp.token@ == token_chars_of(
            "admin"@,
            "admin"@,
            (now + 3600) as nat,
            jwt_secret@,
        ),
{
    if admin_bypass(admin_auth, req.email.as_str(), req.password.as_str()) {
        let token = create_token("admin", "admin", jwt_secret, TOKEN_TTL_MINUTES, now);
        Some(LoginResponse { token })
    } else {
        None
    }
}

/// The role a user row asserts, with the default for a row that has
/// none.
pub open spec fn role_of(role: Option<String>) -> Seq<char> {
    match role {
        Some(r) => r@,
        None => "user"@,
    }
}

/// Decide a login against the fetched user row, if any. An absent row
/// and a wrong password are the same outcome; only a stored hash that
/// cannot be parsed is a server-side error.
pub fn login_with_user(
    user: Option<&UserRecord>,
    req: &LoginRequest,
    jwt_secret: &str,
    now: u64,
) -> (r: Result<LoginResponse, AppError>)
    requires
        now + 3600 <= u64::MAX,
    ensures
        ({
            match user {
                None => r == Err::<LoginResponse, AppError>(AppError::Unauthorized),
                Some(u) => {
                    if !is_phc_hash(u.password_hash@) {
                        r == Err::<LoginResponse, AppError>(AppError::Internal)
                    } else if !password_matches(encode_utf8(req.password@), u.password_hash@) {
                        r == Err::<LoginResponse, AppError>(AppError::Unauthorized)
                    } else {
                        r matches Ok(resp) && resp.token@ == token_chars_of(
                            u.id@,
                            role_of(u.role),
                            (now + 3600) as nat,
                            jwt_secret@,
                        )
                    }
                },
            }
        }),
{
    let u = match user {
        Some(u) => u,
        None => {
            return Err(AppError::Unauthorized);
        },
    };
    match check_password(req.password.as_str().as_bytes(), u.password_hash.as_str()) {
        PasswordCheck::BadHash => Err(AppError::Internal),
        PasswordCheck::Mismatched => Err(AppError::Unauthorized),
        PasswordCheck::Matched => {
            let role: &str = match &u.role {
                Some(r) => r.as_str(),
                None => "user",
            };
            let token = create_token(u.id.as_str(), role, jwt_secret, TOKEN_TTL_MINUTES, now);
            proof {
                assert(role@ == role_of(u.role));
            }
            Ok(LoginResponse { token })
        },
    }
}

} // verus!

//! The account flows, as decisions: each function takes what the
//! persistence collaborator answered and returns what to store, send or
//! set, or the typed rejection. Looking records up, writing them, sending
//! mail and reading the clock stay with the caller.

use vstd::prelude::*;
use vstd::string::StringSliceAdditionalSpecFns;
use vstd::string::StringExecFns;
use crate::sign::Keys;
use crate::cookie::spec_cookie;
use crate::token::spec_token;
use crate::errors::{AuthError, HashingError};
use crate::validate::{
    is_valid_email, is_valid_password, valid_email, valid_password, password_rejection,
};
use crate::hashing::{
    hash_password, verify_password, phc_parses, argon2_handles, argon2_matches,
    ARGON2_MAX_PASSWORD_BYTES,
};
use crate::authorization::{AuthorizationClaim, SESSION_TTL_SECONDS};
use crate::password_reset::{PasswordResetClaim, RESET_TTL_SECONDS, is_code_char};
use crate::text::{str_eq, upper_seq};

verus! {

/// What the core reads of a persisted user.
#[derive(Debug, Clone)]
pub struct UserRecord {
    pub id: String,
    pub name: String,
    pub email: String,
    pub password_hash: String,
}

/// A signed session handed to the client: the claim, its token, and the
/// Set-Cookie value carrying it.
#[derive(Debug)]
pub struct AuthOutcome {
    pub claim: AuthorizationClaim,
    pub token: String,
    pub cookie: String,
}

impl AuthOutcome {
    /// The session this outcome grants: a fresh claim for `user_id`, its
    /// token signed under `keys`, riding in a plain session cookie.
    pub open spec fn grants(self, user_id: Seq<char>, now: u64, keys: Keys) -> bool {
        &&& self.claim.user_id@ == user_id
        &&& self.claim.expires_at == now + SESSION_TTL_SECONDS
        &&& self.claim.is_session_claim
        &&& self.token@ == spec_token(self.claim.payload(), keys.secret@)
        &&& self.cookie@ == spec_cookie(self.token@, false)
    }
}

fn issue_session(user_id: &String, now: u64, keys: &Keys) -> (r: AuthOutcome)
    requires
        now + SESSION_TTL_SECONDS <= u64::MAX,
    ensures
        r.grants(user_id@, now, *keys),
{
    let claim = AuthorizationClaim::new(user_id.clone(), now);
    let token = claim.token(keys);
    let cookie = crate::cookie::build_cookie(token.as_str(), false);
    AuthOutcome { claim, token, cookie }
}

/// What a successful registration yields: the record to persist and the
/// session to hand back.
#[derive(Debug)]
pub struct RegisterOutcome {
    pub user: UserRecord,
    pub auth: AuthOutcome,
}

/// Decides a registration, given the record already stored under the
/// offered email, if any. Rejects an ill-shaped email first, then a weak
/// password, then an occupied email; otherwise hashes the password and
/// issues the user record to persist together with a fresh session.
pub fn register(
    existing_user: Option<&UserRecord>,
    name: &str,
    email: &str,
    password: &str,
    new_user_id: &str,
    now: u64,
    keys: &Keys,
) -> (r: Result<RegisterOutcome, AuthError>)
    requires
        now + SESSION_TTL_SECONDS <= u64::MAX,
    ensures
        !valid_email(email@) <==> r == Err::<RegisterOutcome, AuthError>(AuthError::InvalidEmail),
        valid_email(email@) && !valid_password(password@) <==> r == Err::<
            RegisterOutcome,
            AuthError,
        >(password_rejection(password@)),
        valid_email(email@) && valid_password(password@) && existing_user is Some <==> r == Err::<
            RegisterOutcome,
            AuthError,
        >(AuthError::EmailAlreadyExists),
        valid_email(email@) && valid_password(password@) && existing_user is None
            && password.spec_bytes().len() <= ARGON2_MAX_PASSWORD_BYTES ==> r is Ok,
        r matches Ok(o) ==> {
            &&& existing_user is None
            &&& valid_email(email@)
            &&& valid_password(password@)
            &&& o.user.id@ == new_user_id@
            &&& o.user.name@ == name@
            &&& o.user.email@ == email@
            &&& phc_parses(o.user.password_hash@)
            &&& argon2_handles(o.user.password_hash@)
            &&& argon2_matches(password.spec_bytes(), o.user.password_hash@)
            &&& o.auth.grants(new_user_id@, now, *keys)
        },
{
    if let Err(e) = is_valid_email(email) {
        return Err(e);
    }
    if let Err(e) = is_valid_password(password) {
        return Err(e);
    }
    if existing_user.is_some() {
        return Err(AuthError::EmailAlreadyExists);
    }
    let password_hash = match hash_password(password.as_bytes()) {
        Some(h) => h,
        None => {
            return Err(AuthError::Hashing(HashingError::HashingFailed));
        },
    };
    let user = UserRecord {
        id: String::from_str(new_user_id),
        name: String::from_str(name),
        email: String::from_str(email),
        password_hash,
    };
    let auth = issue_session(&user.id, now, keys);
    Ok(RegisterOutcome { user, auth })
}

/// Decides a login, given the record stored under the offered email, if
/// any. An unknown email is rejected; a password that does not verify
/// against the stored hash is rejected with `WrongPassword` and no
/// session leaves this function; a matching password against a hash the
/// backend handles earns a fresh session.
pub fn login(user: Option<&UserRecord>, password: &str, now: u64, keys: &Keys) -> (r: Result<
    AuthOutcome,
    AuthError,
>)
    requires
        now + SESSION_TTL_SECONDS <= u64::MAX,
    ensures
        user is None <==> r == Err::<AuthOutcome, AuthError>(AuthError::EmailNotFound),
        r matches Ok(o) ==> (user matches Some(u) && {
            &&& argon2_matches(password.spec_bytes(), u.password_hash@)
            &&& o.grants(u.id@, now, *keys)
        }),
        r == Err::<AuthOutcome, AuthError>(AuthError::WrongPassword) ==> (user matches Some(u)
            && !argon2_matches(password.spec_bytes(), u.password_hash@)),
        user matches Some(u) && !phc_parses(u.password_hash@) ==> r == Err::<
            AuthOutcome,
            AuthError,
        >(AuthError::Hashing(HashingError::MalformedHash)),
        user matches Some(u) && phc_parses(u.password_hash@) && !argon2_matches(
            password.spec_bytes(),
            u.password_hash@,
        ) ==> (r == Err::<AuthOutcome, AuthError>(AuthError::WrongPassword) || r == Err::<
            AuthOutcome,
            AuthError,
        >(AuthError::Hashing(HashingError::HashingFailed))),
        user matches Some(u) ==> (phc_parses(u.password_hash@) && argon2_handles(
            u.password_hash@,
        ) && password.spec_bytes().len() <= ARGON2_MAX_PASSWORD_BYTES && argon2_matches(
            password.spec_bytes(),
            u.password_hash@,
        ) ==> (r matches Ok(o) && o.grants(u.id@, now, *keys))),
        user matches Some(u) ==> (phc_parses(u.password_hash@) && argon2_handles(
            u.password_hash@,
        ) && password.spec_bytes().len() <= ARGON2_MAX_PASSWORD_BYTES && !argon2_matches(
            password.spec_bytes(),
            u.password_hash@,
        ) ==> r == Err::<AuthOutcome, AuthError>(AuthError::WrongPassword)),
        user matches Some(u) && phc_parses(u.password_hash@) && argon2_matches(
            password.spec_bytes(),
            u.password_hash@,
        ) ==> (r is Ok || r == Err::<AuthOutcome, AuthError>(
            AuthError::Hashing(HashingError::HashingFailed),
        )),
{
    let u = match user {
        Some(u) => u,
        None => {
            return Err(AuthError::EmailNotFound);
        },
    };
    match verify_password(password.as_bytes(), u.password_hash.as_str()) {
        Err(e) => Err(AuthError::Hashing(e)),
        Ok(false) => Err(AuthError::WrongPassword),
        Ok(true) => Ok(issue_session(&u.id, now, keys)),
    }
}

/// What a granted reset request yields: the claim whose code goes out by
/// mail, and the Set-Cookie value carrying its signed token.
#[derive(Debug)]
pub struct ResetRequestOutcome {
    pub claim: PasswordResetClaim,
    pub cookie: String,
}

/// Decides a password-reset request, given the record stored under the
/// offered email, if any. An unknown email is rejected with
/// `EmailNotFound`; otherwise a fresh unauthorized claim is issued, with
/// a six-character uppercase alphanumeric one-time code, expiring fifteen
/// minutes from `now`, its signed token riding in a `Secure` cookie.
pub fn request_reset(user: Option<&UserRecord>, now: u64, keys: &Keys) -> (r: Result<
    ResetRequestOutcome,
    AuthError,
>)
    requires
        now + RESET_TTL_SECONDS <= u64::MAX,
    ensures
        user is None <==> r == Err::<ResetRequestOutcome, AuthError>(AuthError::EmailNotFound),
        user is Some <==> r is Ok,
        r matches Ok(o) ==> (user matches Some(u) && {
            &&& o.claim.email@ == u.email@
            &&& o.claim.expires_at == now + RESET_TTL_SECONDS
            &&& !o.claim.authorized
            &&& o.claim.code@.len() == crate::password_reset::CODE_LENGTH as int
            &&& forall|i: int|
                0 <= i < o.claim.code@.len() ==> is_code_char(#[trigger] o.claim.code@[i])
            &&& o.cookie@ == spec_cookie(spec_token(o.claim.payload(), keys.secret@), true)
        }),
{
    let u = match user {
        Some(u) => u,
        None => {
            return Err(AuthError::EmailNotFound);
        },
    };
    let claim = PasswordResetClaim::new(u.email.clone(), now);
    let cookie = claim.cookie(keys);
    Ok(ResetRequestOutcome { claim, cookie })
}

/// Decides a code submission against a decoded reset claim. On a
/// case-insensitive match the claim comes back authorized, re-signed into
/// a fresh `Secure` cookie; on anything else the claim is left alone and
/// the submission is rejected.
pub fn verify_code(claim: &PasswordResetClaim, submitted_code: &str, keys: &Keys) -> (r: Result<
    ResetRequestOutcome,
    AuthError,
>)
    ensures
        r is Ok <==> upper_seq(submitted_code@) == claim.code@,
        r matches Ok(o) ==> {
            &&& o.claim.authorized
            &&& o.claim.email == claim.email
            &&& o.claim.code == claim.code
            &&& o.claim.expires_at == claim.expires_at
            &&& o.cookie@ == spec_cookie(spec_token(o.claim.payload(), keys.secret@), true)
        },
        r matches Err(e) ==> e == AuthError::WrongPassword,
{
    let mut fresh = PasswordResetClaim {
        email: claim.email.clone(),
        code: claim.code.clone(),
        expires_at: claim.expires_at,
        authorized: claim.authorized,
    };
    if !fresh.authorize(submitted_code) {
        return Err(AuthError::WrongPassword);
    }
    let cookie = fresh.cookie(keys);
    Ok(ResetRequestOutcome { claim: fresh, cookie })
}

/// What a granted password change yields: whose hash to overwrite, and
/// with what.
#[derive(Debug)]
pub struct PasswordChange {
    pub user_id: String,
    pub new_password_hash: String,
}

/// Decides a password change against a decoded reset claim and the record
/// stored under the claim's email, if any. An unauthorized claim is
/// rejected outright, whatever the passwords; then differing fields, a
/// missing user and a weak password are rejected; otherwise the new hash
/// to persist is produced.
pub fn change_password(
    claim: &PasswordResetClaim,
    user: Option<&UserRecord>,
    new_password: &str,
    confirm_password: &str,
) -> (r: Result<PasswordChange, AuthError>)
    ensures
        !claim.authorized ==> r == Err::<PasswordChange, AuthError>(AuthError::NotAuthorized),
        claim.authorized && new_password@ != confirm_password@ ==> r == Err::<
            PasswordChange,
            AuthError,
        >(AuthError::PasswordsDontMatch),
        claim.authorized && new_password@ == confirm_password@ && user is None ==> r == Err::<
            PasswordChange,
            AuthError,
        >(AuthError::NotAuthorized),
        claim.authorized && new_password@ == confirm_password@ && user is Some && !valid_password(
            new_password@,
        ) ==> r == Err::<PasswordChange, AuthError>(password_rejection(new_password@)),
        claim.authorized && new_password@ == confirm_password@ && user is Some && valid_password(
            new_password@,
        ) && new_password.spec_bytes().len() <= ARGON2_MAX_PASSWORD_BYTES ==> r is Ok,
        r matches Ok(pc) ==> {
            &&& claim.authorized
            &&& new_password@ == confirm_password@
            &&& user matches Some(u) && pc.user_id@ == u.id@
            &&& valid_password(new_password@)
            &&& phc_parses(pc.new_password_hash@)
            &&& argon2_handles(pc.new_password_hash@)
            &&& argon2_matches(new_password.spec_bytes(), pc.new_password_hash@)
        },
{
    if !claim.authorized {
        return Err(AuthError::NotAuthorized);
    }
    if !str_eq(new_password, confirm_password) {
        return Err(AuthError::PasswordsDontMatch);
    }
    let u = match user {
        Some(u) => u,
        None => {
            return Err(AuthError::NotAuthorized);
        },
    };
    if let Err(e) = is_valid_password(new_password) {
        return Err(e);
    }
    let new_password_hash = match hash_password(new_password.as_bytes()) {
        Some(h) => h,
        None => {
            return Err(AuthError::Hashing(HashingError::HashingFailed));
        },
    };
    Ok(PasswordChange { user_id: u.id.clone(), new_password_hash })
}

} // verus!

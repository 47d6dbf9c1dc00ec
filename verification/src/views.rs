//! Data carried between the HTTP layer and the core: form payloads posted
//! by the client, the models behind the HTML views, the redirect header,
//! and the service markers the routers hang off. Rendering and routing
//! live outside the core.

use vstd::prelude::*;

verus! {

/// The registration form.
pub struct RegisterUser {
    pub name: String,
    pub email: String,
    pub password: String,
}

/// The login form.
pub struct LoginUser {
    pub email: String,
    pub password: String,
}

/// The registration form, as the reset-flow routes carry it.
pub struct RegisterPayload {
    pub name: String,
    pub email: String,
    pub password: String,
}

/// The login form, as the reset-flow routes carry it.
pub struct LoginPayload {
    pub email: String,
    pub password: String,
}

/// The form requesting a password reset.
pub struct EmailPayload {
    pub email: String,
}

/// The form submitting a one-time code.
pub struct CodeLoginPayload {
    pub code: String,
}

/// The form submitting a new password and its confirmation.
pub struct ChangePasswordPayload {
    pub password: String,
    pub confirm_password: String,
}

/// The email body model: the one-time code and its lifetime in minutes.
pub struct OneTimeCodeEmailTemplate {
    pub code: String,
    pub expire_time: String,
}

/// The reset-request page model.
pub struct EmailForm {}

/// The code-entry fragment model.
pub struct CodeForm {
    pub email: String,
    pub expire_time: String,
}

/// The new-password fragment model.
pub struct ResetPasswordForm {}

/// The login page model.
pub struct LoginTemplate {}

/// The registration page model.
pub struct RegisterTemplate {}

/// The reset-password page model.
pub struct ResetPasswordTemplate {}

/// The email-login page model.
pub struct EmailLoginTemplate {}

/// The code-sent page model.
pub struct EmailCodeTemplate {
    pub email: String,
    pub expire_time: String,
}

/// The change-password page model.
pub struct ChangePasswordTemplate {}

/// The dashboard model.
pub struct UserDashboardTemplate {
    pub email: String,
    pub name: String,
}

/// The dashboard model, as the view routes carry it.
pub struct DashboardTemplate {
    pub email: String,
    pub name: String,
}

/// The landing page model.
pub struct IndexTemplate {}

/// What a rejected password missed, for the error fragment.
pub struct BadPassword {
    pub has_uppercase: bool,
    pub has_lowercase: bool,
    pub has_digit: bool,
    pub min_length: usize,
    pub long_enough: bool,
}

/// A response header telling the client-side script where to go next.
pub struct HxRedirect {
    pub to: String,
}

impl HxRedirect {
    /// A redirect to the given location.
    pub fn to(to: String) -> (r: HxRedirect)
        ensures
            r.to == to,
    {
        HxRedirect { to }
    }
}

/// The marker the authentication routes hang off.
#[derive(Clone, Copy, PartialEq, Eq, Structural, Debug)]
pub struct AuthService {}

impl AuthService {
    pub fn default() -> (r: Self)
        ensures
            r == (AuthService {  }),
    {
        AuthService {  }
    }
}

/// The marker the user routes hang off.
#[derive(Clone, Copy, PartialEq, Eq, Structural, Debug)]
pub struct UserService {}

/// The marker the server's routers assemble under.
#[derive(Clone, Copy, PartialEq, Eq, Structural, Debug)]
pub struct Server {}

} // verus!

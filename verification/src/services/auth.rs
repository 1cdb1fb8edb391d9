//! Users who sign in through the identity provider are looked up, or provisioned on their
//! first sign-in.

use vstd::prelude::*;
use crate::domain::user::User;
use crate::entities::user;

verus! {

/// Why a user could not be signed in.
pub enum AuthError {
    UserNotFound,
    UserDisabled,
    Database(sea_orm::DbErr),
}

/// What signing a user in does: use the stored user, or store a new one.
pub enum UserPlan {
    Existing(User),
    Provision(user::Model),
}

/// A stored user record.
pub struct UserRecord {
    pub email: Seq<char>,
    pub hashed_password: Seq<char>,
    pub full_name: Option<Seq<char>>,
    pub disabled: bool,
}

/// A user as a sign-in shows it.
pub struct ShownUser {
    pub email: Seq<char>,
    pub full_name: Option<Seq<char>>,
    pub disabled: bool,
}

pub open spec fn shown(u: UserRecord) -> ShownUser {
    ShownUser { email: u.email, full_name: u.full_name, disabled: u.disabled }
}

/// What a sign-in comes to.
pub enum SignIn {
    /// Refused: the user is disabled.
    Disabled,
    /// The stored user is shown as its record holds it; nothing is written.
    Existing(ShownUser),
    /// This record is stored and shown.
    Provision(UserRecord),
}

pub open spec fn name_view(n: Option<String>) -> Option<Seq<char>> {
    match n {
        Some(x) => Some(x@),
        None => None,
    }
}

pub open spec fn record_of(m: user::Model) -> UserRecord {
    UserRecord { email: m.email@, hashed_password: m.hashed_password@, full_name: name_view(m.full_name), disabled: m.disabled }
}

/// A sign-in under `email` with the name the provider gives, against the record stored
/// under that email, if any.
pub open spec fn sign_in(stored: Option<UserRecord>, email: Seq<char>, full_name: Option<Seq<char>>) -> SignIn {
    match stored {
        Some(u) => if u.disabled {
            SignIn::Disabled
        } else {
            SignIn::Existing(shown(u))
        },
        None => SignIn::Provision(
            UserRecord { email, hashed_password: seq![], full_name, disabled: false },
        ),
    }
}

/// What a plan comes to.
pub open spec fn plan_view(r: Result<UserPlan, AuthError>) -> Option<SignIn> {
    match r {
        Ok(UserPlan::Existing(u)) => Some(
            SignIn::Existing(ShownUser { email: u.email@, full_name: name_view(u.full_name), disabled: u.disabled }),
        ),
        Ok(UserPlan::Provision(m)) => Some(SignIn::Provision(record_of(m))),
        Err(AuthError::UserDisabled) => Some(SignIn::Disabled),
        _ => None,
    }
}

/// Signing in twice with the same email: the first sign-in of an unknown email stores a
/// record with the provider's name, no password, enabled; a second sign-in, with that
/// record stored, shows it as stored and writes nothing, whatever name it is given.
pub proof fn lemma_sign_in_twice(email: Seq<char>, first_name: Option<Seq<char>>, second_name: Option<Seq<char>>)
    ensures
        sign_in(None, email, first_name) == SignIn::Provision(
            UserRecord { email, hashed_password: seq![], full_name: first_name, disabled: false },
        ),
        sign_in(
            Some(UserRecord { email, hashed_password: seq![], full_name: first_name, disabled: false }),
            email,
            second_name,
        ) == SignIn::Existing(ShownUser { email, full_name: first_name, disabled: false }),
{
}

pub open spec fn stored_record(m: Option<user::Model>) -> Option<UserRecord> {
    match m {
        Some(u) => Some(record_of(u)),
        None => None,
    }
}

pub open spec fn str_view(s: Option<&str>) -> Option<Seq<char>> {
    match s {
        Some(x) => Some(x@),
        None => None,
    }
}

pub struct AuthService;

impl AuthService {
    /// The user shown for a stored record.
    pub fn user_from_record(m: user::Model) -> (r: User)
        ensures
            r.email@ == m.email@,
            r.full_name == m.full_name,
            r.disabled == m.disabled,
    {
        User { email: m.email, full_name: m.full_name, disabled: m.disabled }
    }

    /// Decides a sign-in from what the store holds under `email`: a disabled user is
    /// refused, a stored one is shown, and an unknown one is provisioned with no local
    /// password, enabled.
    pub fn ensure_user_plan(existing: Option<user::Model>, email: &str, full_name: Option<&str>) -> (r: Result<UserPlan, AuthError>)
        ensures
            match existing {
                Some(u) => if u.disabled {
                    r matches Err(AuthError::UserDisabled)
                } else {
                    r matches Ok(UserPlan::Existing(v)) && v.email@ == u.email@ && v.full_name
                        == u.full_name && !v.disabled
                },
                None => r matches Ok(UserPlan::Provision(m)) && m.email@ == email@
                    && m.hashed_password@ == Seq::<char>::empty() && !m.disabled && match full_name {
                    Some(n) => m.full_name matches Some(f) && f@ == n@,
                    None => m.full_name is None,
                },
            },
            plan_view(r) == Some(sign_in(stored_record(existing), email@, str_view(full_name))),
    {
        match existing {
            Some(u) => {
                if u.disabled {
                    return Err(AuthError::UserDisabled);
                }
                Ok(UserPlan::Existing(AuthService::user_from_record(u)))
            },
            None => {
                let name = match full_name {
                    Some(n) => Some(n.to_string()),
                    None => None,
                };
                Ok(
                    UserPlan::Provision(
                        user::Model {
                            email: email.to_string(),
                            hashed_password: String::new(),
                            full_name: name,
                            disabled: false,
                        },
                    ),
                )
            },
        }
    }
}

} // verus!

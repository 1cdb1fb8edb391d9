//! Users of the service.

use vstd::prelude::*;

verus! {

/// A user as the service shows it.
pub struct User {
    pub email: String,
    pub full_name: Option<String>,
    pub disabled: bool,
}

/// A request to create a user.
pub struct CreateUser {
    pub email: String,
    pub password: String,
    pub full_name: Option<String>,
}

} // verus!

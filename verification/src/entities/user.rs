//! A row of the users table.

use vstd::prelude::*;

verus! {

/// A stored user.
pub struct Model {
    pub email: String,
    pub hashed_password: String,
    pub full_name: Option<String>,
    pub disabled: bool,
}

} // verus!

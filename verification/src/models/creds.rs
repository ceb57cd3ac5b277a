//! Logins and the credentials that answer them.

use vstd::prelude::*;
use crate::models::user::UserView;

verus! {

/// What a client sends to log in.
#[derive(Debug)]
pub struct Login {
    pub username: String,
    pub password: String,
}

/// What a client gets for a login: a token, and the user it is for.
#[derive(Debug)]
pub struct Credentials {
    pub token: String,
    pub user: UserView,
}

} // verus!

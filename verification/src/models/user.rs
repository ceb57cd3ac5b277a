//! Users.

use vstd::prelude::*;
use crate::disk::names_view;

verus! {

/// What a client sends to create a user.
#[derive(Debug)]
pub struct UserInput {
    pub username: String,
    pub password: String,
}

/// A user as the store keeps it.
#[derive(Debug)]
pub struct User {
    pub username: String,
    pub password: String,
    pub chats: Vec<String>,
}

/// A user as it is shown: without the password.
#[derive(Debug)]
pub struct UserView {
    pub username: String,
    pub chats: Vec<String>,
}

/// The mathematical value of a [`User`].
pub struct UserData {
    pub username: Seq<char>,
    pub password: Seq<char>,
    pub chats: Seq<Seq<char>>,
}

impl View for User {
    type V = UserData;

    open spec fn view(&self) -> UserData {
        UserData {
            username: self.username@,
            password: self.password@,
            chats: names_view(self.chats@),
        }
    }
}

/// A copy of a list of strings.
pub fn copy_names(names: &Vec<String>) -> (copied: Vec<String>)
    ensures
        names_view(copied@) == names_view(names@),
{
    let mut copied: Vec<String> = Vec::new();
    let mut i: usize = 0;
    while i < names.len()
        invariant
            i <= names.len(),
            copied.len() == i,
            forall|j: int| 0 <= j < i ==> copied[j]@ == names[j]@,
        decreases names.len() - i,
    {
        copied.push(names[i].clone());
        i += 1;
    }
    assert(names_view(copied@) =~= names_view(names@));
    copied
}

impl Clone for User {
    fn clone(&self) -> (user: User)
        ensures
            user@ == self@,
    {
        User {
            username: self.username.clone(),
            password: self.password.clone(),
            chats: copy_names(&self.chats),
        }
    }
}

impl UserInput {
    /// The user that the input creates: one that is in no chat yet.
    pub fn into_user(self) -> (user: User)
        ensures
            user.username == self.username,
            user.password == self.password,
            user.chats@ == Seq::<String>::empty(),
    {
        User { username: self.username, password: self.password, chats: Vec::new() }
    }
}

impl User {
    /// The user as it is shown.
    pub fn into_view(self) -> (view: UserView)
        ensures
            view.username == self.username,
            view.chats == self.chats,
    {
        UserView { username: self.username, chats: self.chats }
    }
}

} // verus!

//! Records that stay inside the server.

use vstd::prelude::*;

verus! {

/// An upload that has been written to a temporary file and hashed on the
/// way.
#[derive(Debug)]
pub struct HashedFile {
    pub hash: String,
    pub size: u64,
    pub path: String,
}

/// A user as the server knows them.
#[derive(Debug)]
pub struct User {
    pub id: i32,
    pub created_at: i64,
    pub updated_at: i64,
    pub name: String,
}

/// A post that is to be made of an uploaded file.
#[derive(Debug)]
pub struct NewPost {
    pub user_id: i32,
    pub title: Option<String>,
    pub description: Option<String>,
    pub source: Option<String>,
    pub filename: String,
    pub file: HashedFile,
    pub tags: Vec<String>,
}

/// A user that is to be registered.
#[derive(Debug)]
pub struct NewUser {
    pub name: String,
    pub password: String,
}

/// A fresh refresh token and the session it belongs to.
#[derive(Clone, Copy, Debug, PartialEq, Eq, Structural)]
pub struct CreateRefreshTokenResult {
    pub token: u128,
    pub session: i64,
}

/// A renewed refresh token, its session and the user it was issued to.
#[derive(Clone, Copy, Debug, PartialEq, Eq, Structural)]
pub struct RefreshRefreshTokenResult {
    pub token: u128,
    pub session: i64,
    pub user_id: i32,
}

} // verus!

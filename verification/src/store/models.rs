//! Rows as a relational store hands them over. What the store computes, a
//! view's columns and the fields of a composite value, may be missing.

use vstd::prelude::*;

verus! {

/// A row of the user table.
#[derive(Debug)]
pub struct User {
    pub id: i32,
    pub created_at: i64,
    pub updated_at: i64,
    pub name: String,
    pub password_hash: String,
}

/// A row of the post table.
#[derive(Debug)]
pub struct Post {
    pub id: i32,
    pub created_at: i64,
    pub updated_at: i64,
    pub user_id: i32,
    pub title: Option<String>,
    pub description: Option<String>,
    pub source: Option<String>,
    pub filename: String,
    pub size: i32,
    pub width: i32,
    pub height: i32,
    pub hash: String,
    pub ext: String,
    pub tn_ext: String,
    pub tags: Vec<String>,
}

/// A row of the view that joins posts with their users and tags.
#[derive(Debug)]
pub struct ViewPost {
    pub id: Option<i32>,
    pub created_at: Option<i64>,
    pub user_id: Option<i32>,
    pub user_name: Option<String>,
    pub title: Option<String>,
    pub description: Option<String>,
    pub source: Option<String>,
    pub filename: Option<String>,
    pub size: Option<i32>,
    pub width: Option<i32>,
    pub height: Option<i32>,
    pub hash: Option<String>,
    pub ext: Option<String>,
    pub tn_ext: Option<String>,
    pub tags: Option<Vec<String>>,
}

impl ViewPost {
    /// Whether every column that a post cannot be without is there.
    pub open spec fn complete(&self) -> bool {
        &&& self.id is Some
        &&& self.created_at is Some
        &&& self.user_id is Some
        &&& self.user_name is Some
        &&& self.filename is Some
        &&& self.size is Some
        &&& self.width is Some
        &&& self.height is Some
        &&& self.hash is Some
        &&& self.ext is Some
        &&& self.tn_ext is Some
        &&& self.tags is Some
    }

    /// Whether every column but those of one installation, the identifier
    /// and the number of the user, is there.
    pub open spec fn exportable(&self) -> bool {
        &&& self.created_at is Some
        &&& self.user_name is Some
        &&& self.filename is Some
        &&& self.size is Some
        &&& self.width is Some
        &&& self.height is Some
        &&& self.hash is Some
        &&& self.ext is Some
        &&& self.tn_ext is Some
        &&& self.tags is Some
    }

    /// Tests `complete`.
    pub fn is_complete(&self) -> (r: bool)
        ensures
            r == self.complete(),
    {
        self.id.is_some() && self.user_id.is_some() && self.is_exportable()
    }

    /// Tests `exportable`.
    pub fn is_exportable(&self) -> (r: bool)
        ensures
            r == self.exportable(),
    {
        self.created_at.is_some() && self.user_name.is_some() && self.filename.is_some()
            && self.size.is_some() && self.width.is_some() && self.height.is_some()
            && self.hash.is_some() && self.ext.is_some() && self.tn_ext.is_some() && self.tags.is_some()
    }
}

/// A row of the view that joins comments with their users.
#[derive(Debug)]
pub struct PostComment {
    pub id: i32,
    pub created_at: i64,
    pub updated_at: i64,
    pub user_id: Option<i32>,
    pub user_name: Option<String>,
    pub post_id: i32,
    pub comment: String,
}

/// A row of the view that joins tags with their alias and implications.
#[derive(Debug)]
pub struct ViewTag {
    pub id: Option<i32>,
    pub tag: Option<String>,
    pub alias_of_tag: Option<String>,
    pub implied_tags: Option<Vec<String>>,
}

impl ViewTag {
    /// Whether every column that a tag cannot be without is there.
    pub open spec fn complete(&self) -> bool {
        self.id is Some && self.tag is Some && self.implied_tags is Some
    }

    /// Tests `complete`.
    pub fn is_complete(&self) -> (r: bool)
        ensures
            r == self.complete(),
    {
        self.id.is_some() && self.tag.is_some() && self.implied_tags.is_some()
    }
}

/// What the store needs to know of a post that is to be made.
#[derive(Debug)]
pub struct NewPost {
    pub user_id: Option<i32>,
    pub title: Option<String>,
    pub description: Option<String>,
    pub source: Option<String>,
    pub filename: Option<String>,
    pub size: Option<i32>,
    pub width: Option<i32>,
    pub height: Option<i32>,
    pub hash: Option<String>,
    pub ext: Option<String>,
    pub tn_ext: Option<String>,
}

impl NewPost {
    /// Whether everything that a post cannot be without is there.
    pub open spec fn complete(&self) -> bool {
        &&& self.user_id is Some
        &&& self.filename is Some
        &&& self.size is Some
        &&& self.width is Some
        &&& self.height is Some
        &&& self.hash is Some
        &&& self.ext is Some
        &&& self.tn_ext is Some
    }

    /// Tests `complete`.
    pub fn is_complete(&self) -> (r: bool)
        ensures
            r == self.complete(),
    {
        self.user_id.is_some() && self.filename.is_some() && self.size.is_some()
            && self.width.is_some() && self.height.is_some() && self.hash.is_some()
            && self.ext.is_some() && self.tn_ext.is_some()
    }
}

/// A change to a post, as the store takes it.
#[derive(Debug)]
pub struct UpdatePost {
    pub id: Option<i32>,
    pub title: Option<String>,
    pub description: Option<String>,
    pub source: Option<String>,
    pub add_tags: Vec<String>,
    pub remove_tags: Vec<String>,
}

/// A change to a tag, as the store takes it.
#[derive(Debug)]
pub struct UpdateTag {
    pub alias_of_tag: Option<String>,
    pub add_implied_tags: Vec<String>,
    pub remove_implied_tags: Vec<String>,
}

/// What the store needs to know of a user that is to be registered.
#[derive(Debug)]
pub struct NewUser {
    pub name: Option<String>,
    pub password_hash: Option<String>,
}

/// What the store needs to know of a comment that is to be made.
#[derive(Debug)]
pub struct NewPostComment {
    pub post_id: i32,
    pub comment: String,
}

/// A page boundary as the store returns and takes it.
#[derive(Clone, Copy, Debug, PartialEq, Eq, Structural)]
pub struct PageInfo {
    pub no: Option<i32>,
    pub start_id: Option<i32>,
}

/// What the store returns for a fresh refresh token.
#[derive(Clone, Copy, Debug, PartialEq, Eq, Structural)]
pub struct CreateRefreshTokenResult {
    pub token: Option<u128>,
    pub session: Option<i64>,
}

/// What the store returns for a renewed refresh token; nothing is there
/// where the old token was not valid.
#[derive(Clone, Copy, Debug, PartialEq, Eq, Structural)]
pub struct RefreshRefreshTokenResult {
    pub token: Option<u128>,
    pub session: Option<i64>,
    pub user_id: Option<i32>,
}

} // verus!

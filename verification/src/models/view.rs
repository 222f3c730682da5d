//! Records as callers outside the core see them.

use vstd::prelude::*;

verus! {

/// A post with its resolved tags.
#[derive(Debug)]
pub struct Post {
    pub id: i32,
    pub created_at: i64,
    pub user_id: i32,
    pub user_name: String,
    pub title: Option<String>,
    pub description: Option<String>,
    pub source: Option<String>,
    pub filename: String,
    pub size: i32,
    pub width: i32,
    pub height: i32,
    pub hash: String,
    pub ext: String,
    pub tn_ext: String,
    pub tags: Vec<String>,
}

/// A change to a post: texts to replace and tags to add and to take away.
#[derive(Debug)]
pub struct UpdatePost {
    pub title: Option<String>,
    pub description: Option<String>,
    pub source: Option<String>,
    pub add_tags: Vec<String>,
    pub remove_tags: Vec<String>,
}

/// A user as others may see them.
#[derive(Debug)]
pub struct User {
    pub id: i32,
    pub created_at: i64,
    pub name: String,
}

/// A page boundary: the page's number and the identifier of the first post
/// that belongs to it. Page 1 is the newest page; numbers grow towards older
/// posts.
#[derive(Clone, Copy, Debug, PartialEq, Eq, Structural)]
pub struct PageInfo {
    pub no: i32,
    pub start_id: i32,
}

impl PageInfo {
    /// The boundary that stands for "no page": what a listing without any
    /// matching post reports as its last page.
    pub open spec fn spec_none() -> PageInfo {
        PageInfo { no: 0, start_id: 0 }
    }

    #[verifier::when_used_as_spec(spec_none)]
    pub fn none() -> (r: PageInfo)
        ensures
            r == PageInfo::spec_none(),
    {
        PageInfo { no: 0, start_id: 0 }
    }

    /// Whether this is the boundary that stands for "no page".
    pub fn is_none(&self) -> (r: bool)
        ensures
            r == (*self == PageInfo::spec_none()),
    {
        self.no == 0 && self.start_id == 0
    }
}

/// A tag with the name of the tag it is an alias of and the names of the
/// tags it implies.
#[derive(Debug)]
pub struct Tag {
    pub id: i32,
    pub tag: String,
    pub alias_of_tag: Option<String>,
    pub implied_tags: Vec<String>,
}

/// A change to a tag.
#[derive(Debug)]
pub struct UpdateTag {
    pub alias_of_tag: Option<String>,
    pub add_implied_tags: Vec<String>,
    pub remove_implied_tags: Vec<String>,
}

/// A comment on a post.
#[derive(Debug)]
pub struct Comment {
    pub id: i32,
    pub created_at: i64,
    pub updated_at: i64,
    pub user_id: Option<i32>,
    pub user_name: Option<String>,
    pub comment: String,
}

/// A comment that is to be made.
#[derive(Debug)]
pub struct NewPostComment {
    pub comment: String,
}

/// The settings that clients may know.
#[derive(Clone, Copy, Debug, PartialEq, Eq, Structural)]
pub struct Config {
    pub max_image_size: usize,
    pub require_login: bool,
}

} // verus!

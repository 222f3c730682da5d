//! Records as they are written to and read from an export file.

use vstd::prelude::*;

verus! {

/// A post without what belongs to one installation: its identifier and the
/// number of its user.
#[derive(Debug)]
pub struct Post {
    pub created_at: i64,
    pub user_name: String,
    pub title: Option<String>,
    pub description: Option<String>,
    pub source: Option<String>,
    pub filename: String,
    pub size: i32,
    pub width: i32,
    pub height: i32,
    pub hash: String,
    pub ext: String,
    pub tn_ext: String,
    pub tags: Vec<String>,
}

} // verus!

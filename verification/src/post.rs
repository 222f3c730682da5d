//! From an upload, or from an exported post, to the row that the store
//! keeps.

use vstd::prelude::*;
use crate::image::{ProcessFileResult, ProcessImageResult};
use crate::models::export as em;
use crate::models::local as lm;
use crate::store::models as dbm;

verus! {

/// A count as the store keeps it: counts beyond what a column can hold are
/// kept as the largest number it can hold.
pub open spec fn column(count: int) -> i32 {
    if count > i32::MAX {
        i32::MAX
    } else {
        count as i32
    }
}

/// The size of a file as the store keeps it.
pub fn size_column(size: u64) -> (r: i32)
    ensures
        r == column(size as int),
{
    if size > i32::MAX as u64 {
        i32::MAX
    } else {
        size as i32
    }
}

/// A length in pixels as the store keeps it.
pub fn pixel_column(length: u32) -> (r: i32)
    ensures
        r == column(length as int),
{
    if length > i32::MAX as u32 {
        i32::MAX
    } else {
        length as i32
    }
}

/// The row and the tag names to store for an upload whose file has been
/// brought to its place and whose thumbnail has been seen to.
pub fn create_post(post: lm::NewPost, file: ProcessFileResult, image: ProcessImageResult) -> (r: (
    dbm::NewPost,
    Vec<String>,
))
    ensures
        r.0.complete(),
        r.0.user_id == Some(post.user_id),
        r.0.title == post.title,
        r.0.description == post.description,
        r.0.source == post.source,
        r.0.filename == Some(post.filename),
        r.0.size == Some(column(post.file.size as int)),
        r.0.width == Some(column(image.width as int)),
        r.0.height == Some(column(image.height as int)),
        r.0.hash == Some(file.hash),
        r.0.ext == Some(file.ext),
        r.0.tn_ext == Some(image.tn_ext),
        r.1 == post.tags,
{
    let row = dbm::NewPost {
        user_id: Some(post.user_id),
        title: post.title,
        description: post.description,
        source: post.source,
        filename: Some(post.filename),
        size: Some(size_column(post.file.size)),
        width: Some(pixel_column(image.width)),
        height: Some(pixel_column(image.height)),
        hash: Some(file.hash),
        ext: Some(file.ext),
        tn_ext: Some(image.tn_ext),
    };
    (row, post.tags)
}

/// The row and the tag names to store for an exported post that is brought
/// in for the user `user_id`.
pub fn import_post(post: em::Post, user_id: i32) -> (r: (dbm::NewPost, Vec<String>))
    ensures
        r.0.complete(),
        r.0.user_id == Some(user_id),
        r.0.title == post.title,
        r.0.description == post.description,
        r.0.source == post.source,
        r.0.filename == Some(post.filename),
        r.0.size == Some(post.size),
        r.0.width == Some(post.width),
        r.0.height == Some(post.height),
        r.0.hash == Some(post.hash),
        r.0.ext == Some(post.ext),
        r.0.tn_ext == Some(post.tn_ext),
        r.1 == post.tags,
{
    let row = dbm::NewPost {
        user_id: Some(user_id),
        title: post.title,
        description: post.description,
        source: post.source,
        filename: Some(post.filename),
        size: Some(post.size),
        width: Some(post.width),
        height: Some(post.height),
        hash: Some(post.hash),
        ext: Some(post.ext),
        tn_ext: Some(post.tn_ext),
    };
    (row, post.tags)
}

} // verus!

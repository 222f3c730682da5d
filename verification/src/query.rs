//! What a request says, read from its pieces.

use vstd::prelude::*;
use crate::error::CoreError;
use crate::models::local::{HashedFile, NewPost};
use crate::models::view::PageInfo;
use crate::names::names_of;

verus! {

/// The pieces of a text between its commas. A text without a comma is one
/// piece, even where it is empty.
pub open spec fn pieces(text: Seq<char>) -> Seq<Seq<char>>
    decreases text.len(),
{
    if text.len() == 0 {
        seq![Seq::<char>::empty()]
    } else {
        let front = pieces(text.drop_last());
        if text.last() == ',' {
            front.push(Seq::<char>::empty())
        } else {
            front.drop_last().push(front.last().push(text.last()))
        }
    }
}

/// The values of a parameter that lists them with commas between.
pub fn comma_separated(text: &str) -> (r: Vec<String>)
    ensures
        names_of(r@) == pieces(text@),
{
    let n = text.unicode_len();
    let mut done: Vec<String> = Vec::new();
    let mut start: usize = 0;
    let mut i: usize = 0;
    proof {
        assert(text@.take(0) =~= Seq::<char>::empty());
        assert(names_of(done@).push(text@.subrange(0, 0)) =~= pieces(text@.take(0)));
    }
    while i < n
        invariant
            n == text@.len(),
            start <= i <= n,
            names_of(done@).push(text@.subrange(start as int, i as int)) == pieces(text@.take(i as int)),
        decreases n - i,
    {
        let ghost before = names_of(done@);
        let ghost current = text@.subrange(start as int, i as int);
        proof {
            assert(text@.take(i + 1).drop_last() =~= text@.take(i as int));
            assert(text@.take(i + 1).last() == text@[i as int]);
            assert(before.push(current).drop_last() =~= before);
        }
        if text.get_char(i) == ',' {
            let piece = text.substring_char(start, i);
            done.push(String::from_str(piece));
            start = i + 1;
            proof {
                assert(names_of(done@) =~= before.push(current));
                assert(text@.subrange(start as int, i + 1) =~= Seq::<char>::empty());
            }
        } else {
            proof {
                assert(text@.subrange(start as int, i + 1) =~= current.push(text@[i as int]));
            }
        }
        i += 1;
    }
    let ghost before = names_of(done@);
    let piece = text.substring_char(start, n);
    done.push(String::from_str(piece));
    proof {
        assert(text@.take(n as int) =~= text@);
        assert(names_of(done@) =~= before.push(text@.subrange(start as int, n as int)));
    }
    done
}

/// The boundary that a request for pages starts from: the one whose number
/// and first post it named, if it named both.
pub fn origin_page(no: Option<i32>, start_id: Option<i32>) -> (r: Option<PageInfo>)
    ensures
        r == (if no is Some && start_id is Some {
            Some(PageInfo { no: no.unwrap(), start_id: start_id.unwrap() })
        } else {
            None
        }),
{
    match (no, start_id) {
        (Some(no), Some(start_id)) => Some(PageInfo { no, start_id }),
        _ => None,
    }
}

/// What an upload says of its post.
#[derive(Debug)]
pub struct PostInfo {
    pub title: Option<String>,
    pub description: Option<String>,
    pub source: Option<String>,
    pub tags: Vec<String>,
}

/// The post that an upload asks for. An upload has two parts, what it says
/// of the post and the file with its name; one that lacks either is
/// refused.
pub fn upload_post(info: Option<PostInfo>, file: Option<(HashedFile, String)>, user_id: i32) -> (r: Result<
    NewPost,
    CoreError,
>)
    ensures
        r is Ok == (info is Some && file is Some),
        r matches Err(e) ==> e == CoreError::BadUpload,
        r matches Ok(post) ==> {
            &&& post.user_id == user_id
            &&& post.title == info.unwrap().title
            &&& post.description == info.unwrap().description
            &&& post.source == info.unwrap().source
            &&& post.tags == info.unwrap().tags
            &&& post.filename == file.unwrap().1
            &&& post.file == file.unwrap().0
        },
{
    match (info, file) {
        (Some(info), Some((file, filename))) => Ok(
            NewPost {
                user_id,
                title: info.title,
                description: info.description,
                source: info.source,
                filename,
                file,
                tags: info.tags,
            },
        ),
        _ => Err(CoreError::BadUpload),
    }
}

} // verus!

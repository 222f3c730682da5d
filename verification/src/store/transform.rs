//! From the rows of the store to the records of `models`, and back.
//!
//! A conversion that needs a column to be there says so in its `requires`;
//! `is_complete` and `is_exportable` test it.

use vstd::prelude::*;
use crate::models::export as em;
use crate::models::local as lm;
use crate::models::view as vm;
use crate::store::models as dbm;

verus! {

impl lm::CreateRefreshTokenResult {
    pub fn from(r: dbm::CreateRefreshTokenResult) -> (out: lm::CreateRefreshTokenResult)
        requires
            r.token is Some,
            r.session is Some,
        ensures
            out == (lm::CreateRefreshTokenResult { token: r.token.unwrap(), session: r.session.unwrap() }),
    {
        lm::CreateRefreshTokenResult { token: r.token.unwrap(), session: r.session.unwrap() }
    }
}

impl lm::RefreshRefreshTokenResult {
    /// The renewed token, where the store returned one: where it returned
    /// a token, a session and a user.
    pub fn from(r: dbm::RefreshRefreshTokenResult) -> (out: Option<lm::RefreshRefreshTokenResult>)
        ensures
            out is Some == (r.token is Some && r.session is Some && r.user_id is Some),
            out is Some ==> out.unwrap() == (lm::RefreshRefreshTokenResult {
                token: r.token.unwrap(),
                session: r.session.unwrap(),
                user_id: r.user_id.unwrap(),
            }),
    {
        match (r.token, r.session, r.user_id) {
            (Some(token), Some(session), Some(user_id)) => Some(
                lm::RefreshRefreshTokenResult { token, session, user_id },
            ),
            _ => None,
        }
    }
}

impl lm::User {
    pub fn from(u: dbm::User) -> (out: lm::User)
        ensures
            out.id == u.id,
            out.created_at == u.created_at,
            out.updated_at == u.updated_at,
            out.name == u.name,
    {
        lm::User { id: u.id, created_at: u.created_at, updated_at: u.updated_at, name: u.name }
    }
}

impl vm::User {
    pub fn from(u: dbm::User) -> (out: vm::User)
        ensures
            out.id == u.id,
            out.created_at == u.created_at,
            out.name == u.name,
    {
        vm::User { id: u.id, created_at: u.created_at, name: u.name }
    }
}

impl em::Post {
    pub fn from(p: dbm::ViewPost) -> (out: em::Post)
        requires
            p.exportable(),
        ensures
            out.created_at == p.created_at.unwrap(),
            out.user_name == p.user_name.unwrap(),
            out.title == p.title,
            out.description == p.description,
            out.source == p.source,
            out.filename == p.filename.unwrap(),
            out.size == p.size.unwrap(),
            out.width == p.width.unwrap(),
            out.height == p.height.unwrap(),
            out.hash == p.hash.unwrap(),
            out.ext == p.ext.unwrap(),
            out.tn_ext == p.tn_ext.unwrap(),
            out.tags == p.tags.unwrap(),
    {
        em::Post {
            created_at: p.created_at.unwrap(),
            user_name: p.user_name.unwrap(),
            title: p.title,
            description: p.description,
            source: p.source,
            filename: p.filename.unwrap(),
            size: p.size.unwrap(),
            width: p.width.unwrap(),
            height: p.height.unwrap(),
            hash: p.hash.unwrap(),
            ext: p.ext.unwrap(),
            tn_ext: p.tn_ext.unwrap(),
            tags: p.tags.unwrap(),
        }
    }
}

impl vm::Post {
    pub fn from(p: dbm::ViewPost) -> (out: vm::Post)
        requires
            p.complete(),
        ensures
            out.id == p.id.unwrap(),
            out.created_at == p.created_at.unwrap(),
            out.user_id == p.user_id.unwrap(),
            out.user_name == p.user_name.unwrap(),
            out.title == p.title,
            out.description == p.description,
            out.source == p.source,
            out.filename == p.filename.unwrap(),
            out.size == p.size.unwrap(),
            out.width == p.width.unwrap(),
            out.height == p.height.unwrap(),
            out.hash == p.hash.unwrap(),
            out.ext == p.ext.unwrap(),
            out.tn_ext == p.tn_ext.unwrap(),
            out.tags == p.tags.unwrap(),
    {
        vm::Post {
            id: p.id.unwrap(),
            created_at: p.created_at.unwrap(),
            user_id: p.user_id.unwrap(),
            user_name: p.user_name.unwrap(),
            title: p.title,
            description: p.description,
            source: p.source,
            filename: p.filename.unwrap(),
            size: p.size.unwrap(),
            width: p.width.unwrap(),
            height: p.height.unwrap(),
            hash: p.hash.unwrap(),
            ext: p.ext.unwrap(),
            tn_ext: p.tn_ext.unwrap(),
            tags: p.tags.unwrap(),
        }
    }
}

impl vm::Comment {
    pub fn from(p: dbm::PostComment) -> (out: vm::Comment)
        ensures
            out.id == p.id,
            out.created_at == p.created_at,
            out.updated_at == p.updated_at,
            out.user_id == p.user_id,
            out.user_name == p.user_name,
            out.comment == p.comment,
    {
        vm::Comment {
            id: p.id,
            created_at: p.created_at,
            updated_at: p.updated_at,
            user_id: p.user_id,
            user_name: p.user_name,
            comment: p.comment,
        }
    }
}

impl vm::PageInfo {
    pub fn from(p: dbm::PageInfo) -> (out: vm::PageInfo)
        requires
            p.no is Some,
            p.start_id is Some,
        ensures
            out == (vm::PageInfo { no: p.no.unwrap(), start_id: p.start_id.unwrap() }),
    {
        vm::PageInfo { no: p.no.unwrap(), start_id: p.start_id.unwrap() }
    }
}

impl vm::PageInfo {
    /// The boundary that the store returned, or the boundary that stands
    /// for "no page" where the store returned none.
    pub fn or_none(p: dbm::PageInfo) -> (out: vm::PageInfo)
        ensures
            out == (if p.no is Some && p.start_id is Some {
                vm::PageInfo { no: p.no.unwrap(), start_id: p.start_id.unwrap() }
            } else {
                vm::PageInfo::spec_none()
            }),
    {
        match (p.no, p.start_id) {
            (Some(no), Some(start_id)) => vm::PageInfo { no, start_id },
            _ => vm::PageInfo::none(),
        }
    }
}

impl dbm::PageInfo {
    pub fn from(p: vm::PageInfo) -> (out: dbm::PageInfo)
        ensures
            out == (dbm::PageInfo { no: Some(p.no), start_id: Some(p.start_id) }),
    {
        dbm::PageInfo { no: Some(p.no), start_id: Some(p.start_id) }
    }
}

impl vm::Tag {
    pub fn from(t: dbm::ViewTag) -> (out: vm::Tag)
        requires
            t.complete(),
        ensures
            out.id == t.id.unwrap(),
            out.tag == t.tag.unwrap(),
            out.alias_of_tag == t.alias_of_tag,
            out.implied_tags == t.implied_tags.unwrap(),
    {
        vm::Tag {
            id: t.id.unwrap(),
            tag: t.tag.unwrap(),
            alias_of_tag: t.alias_of_tag,
            implied_tags: t.implied_tags.unwrap(),
        }
    }
}

impl dbm::UpdateTag {
    pub fn from(t: vm::UpdateTag) -> (out: dbm::UpdateTag)
        ensures
            out.alias_of_tag == t.alias_of_tag,
            out.add_implied_tags == t.add_implied_tags,
            out.remove_implied_tags == t.remove_implied_tags,
    {
        dbm::UpdateTag {
            alias_of_tag: t.alias_of_tag,
            add_implied_tags: t.add_implied_tags,
            remove_implied_tags: t.remove_implied_tags,
        }
    }
}

/// The change `p` to the post with identifier `id`, as the store takes it.
pub fn dbm_update_post_from_vm(id: i32, p: vm::UpdatePost) -> (out: dbm::UpdatePost)
    ensures
        out.id == Some(id),
        out.title == p.title,
        out.description == p.description,
        out.source == p.source,
        out.add_tags == p.add_tags,
        out.remove_tags == p.remove_tags,
{
    dbm::UpdatePost {
        id: Some(id),
        title: p.title,
        description: p.description,
        source: p.source,
        add_tags: p.add_tags,
        remove_tags: p.remove_tags,
    }
}

} // verus!

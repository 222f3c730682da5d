//! The catalogue of posts: every post with its resolved tags, the tag
//! graph they are resolved in, and the listings that are answered from
//! both.
//!
//! A post's tags are resolved when it is written: names that no tag has
//! yet become tags, aliases give way to their canonical tags, and the
//! closure under implication is what the post carries from then on. A
//! query's required tags are expanded in the same way; its forbidden tags
//! are resolved but not expanded, so that a post is left out exactly when
//! it carries a forbidden tag, be it directly or by implication.

use vstd::prelude::*;
use crate::error::CoreError;
use crate::index::{FilterModel, PostEntry, PostIndex, TagFilter, ids_up_to, lemma_ids_within_take, ordered};
use crate::models::view::{PageInfo, Post, Tag};
use crate::names::{copy_names, copy_text, names_of, names_with, names_without, revise_names};
use crate::pagination::{last_page_of, pages_of};
use crate::store::models as dbm;
use crate::tags::{
    TagGraph, TagNode, alias_allowed, all_named, canonical_tags, closure, graph_wf, seeds, shows, tag_updated,
    tags_named, with_names,
};

verus! {

/// The tags that a post carries when it was written with the given names:
/// the closure of the tags that the names stand for.
pub open spec fn post_tags(graph: Seq<TagNode>, names: Seq<Seq<char>>) -> Set<usize> {
    closure(graph, seeds(graph, tags_named(graph, names)))
}

/// The filter that a query for the given names means: the closure of the
/// required tags, and the forbidden tags as they are, aliases resolved.
pub open spec fn filter_of(
    graph: Seq<TagNode>,
    required: Seq<Seq<char>>,
    forbidden: Seq<Seq<char>>,
) -> FilterModel {
    FilterModel {
        required: closure(graph, seeds(graph, canonical_tags(graph, required))),
        forbidden: canonical_tags(graph, forbidden).to_set(),
    }
}

/// The names that the given tags have in the graph.
pub open spec fn name_set(graph: Seq<TagNode>, tags: Set<usize>) -> Set<Seq<char>> {
    Set::new(
        |name: Seq<char>|
            exists|t: usize| tags.contains(t) && t < graph.len() && (#[trigger] graph[t as int]).name == name,
    )
}

/// The identifier from which a listing starts: a start that is not
/// positive stands for the newest post.
pub open spec fn listing_bound(start_id: int) -> int {
    if start_id <= 0 {
        i32::MAX as int
    } else {
        start_id
    }
}

/// The number of posts that a listing returns.
pub open spec fn listing_len(matching: int, limit: int) -> int {
    if limit <= 0 {
        0
    } else if limit < matching {
        limit
    } else {
        matching
    }
}

/// The posts, their tags and the graph the tags live in.
pub struct PostCatalog {
    tags: TagGraph,
    index: PostIndex,
    posts: Vec<Post>,
    requested: Vec<Vec<String>>,
    last_id: i32,
}

impl PostCatalog {
    /// The tag graph.
    pub closed spec fn graph(&self) -> Seq<TagNode> {
        self.tags@
    }

    /// The posts as listings see them: identifier and resolved tags.
    pub closed spec fn entries(&self) -> Seq<PostEntry> {
        self.index@
    }

    /// The posts as callers see them.
    pub closed spec fn rows(&self) -> Seq<Post> {
        self.posts@
    }

    /// The tag names that each post was written with.
    pub closed spec fn asked(&self) -> Seq<Seq<Seq<char>>> {
        Seq::new(self.requested@.len(), |i: int| names_of(self.requested@[i]@))
    }

    /// The identifier that was given out last; 0 before the first post.
    pub closed spec fn last_id(&self) -> int {
        self.last_id as int
    }

    /// Posts are in the order of their identifiers, no identifier is above
    /// the one given out last, and what is kept of a post is kept of each.
    pub open spec fn wf(&self) -> bool {
        &&& graph_wf(self.graph())
        &&& ordered(self.entries())
        &&& self.rows().len() == self.entries().len()
        &&& self.asked().len() == self.entries().len()
        &&& forall|i: int| 0 <= i < self.rows().len() ==> (#[trigger] self.rows()[i]).id == self.entries()[i].id
        &&& 0 <= self.last_id() <= i32::MAX
        &&& forall|i: int| 0 <= i < self.entries().len() ==> (#[trigger] self.entries()[i]).id <= self.last_id()
    }

    /// A catalogue without posts or tags.
    pub fn new() -> (r: PostCatalog)
        ensures
            r.wf(),
            r.graph().len() == 0,
            r.entries().len() == 0,
            r.last_id() == 0,
    {
        PostCatalog {
            tags: TagGraph::new(),
            index: PostIndex::new(),
            posts: Vec::new(),
            requested: Vec::new(),
            last_id: 0,
        }
    }

    /// The tag graph.
    pub fn tags(&self) -> (r: &TagGraph)
        ensures
            r@ == self.graph(),
    {
        &self.tags
    }

    /// The index of the posts.
    pub fn index(&self) -> (r: &PostIndex)
        ensures
            r@ == self.entries(),
    {
        &self.index
    }

    /// The number of posts.
    pub fn len(&self) -> (n: usize)
        ensures
            n == self.entries().len(),
    {
        self.index.len()
    }

    /// The tag names that the post at a position was written with.
    pub fn requested_tags(&self, position: usize) -> (r: &Vec<String>)
        requires
            position < self.asked().len(),
        ensures
            names_of(r@) == self.asked()[position as int],
    {
        &self.requested[position]
    }

    /// Resolves the names of a query. A name that no tag has is an error.
    pub fn resolve_filter(&self, required: &Vec<String>, forbidden: &Vec<String>) -> (r: Result<
        TagFilter,
        CoreError,
    >)
        requires
            self.wf(),
        ensures
            r is Ok == (all_named(self.graph(), names_of(required@)) && all_named(
                self.graph(),
                names_of(forbidden@),
            )),
            r matches Ok(filter) ==> filter@ == filter_of(
                self.graph(),
                names_of(required@),
                names_of(forbidden@),
            ),
            r matches Err(e) ==> e == CoreError::UnknownTag,
    {
        let asked = match self.tags.resolve_all(required) {
            Ok(tags) => tags,
            Err(e) => {
                return Err(e);
            },
        };
        let unwanted = match self.tags.resolve_all(forbidden) {
            Ok(tags) => tags,
            Err(e) => {
                return Err(e);
            },
        };
        let expanded = self.tags.expand_implications(&asked);
        Ok(TagFilter { required: expanded, forbidden: unwanted })
    }

    /// Writes a post. Its identifier is the one after the last that was
    /// given out. The post is refused where the record lacks a field that
    /// a post cannot be without, and where identifiers have run out; the
    /// catalogue is then as it was.
    pub fn create_post(&mut self, post: dbm::NewPost, tags: &Vec<String>, user_name: String, created_at: i64) -> (r:
        Result<i32, CoreError>)
        requires
            old(self).wf(),
        ensures
            final(self).wf(),
            r is Ok == (post.complete() && old(self).last_id() < i32::MAX),
            r matches Err(e) ==> e == (if post.complete() {
                CoreError::Io
            } else {
                CoreError::BadUpload
            }) && *final(self) == *old(self),
            r matches Ok(id) ==> created(
                *old(self),
                *final(self),
                post,
                names_of(tags@),
                user_name,
                created_at,
                id,
            ),
    {
        if !post.is_complete() {
            return Err(CoreError::BadUpload);
        }
        if self.last_id == i32::MAX {
            return Err(CoreError::Io);
        }
        let id = self.last_id + 1;
        let ghost before = *self;
        let ghost before_entries = self.index@;
        let ghost before_rows = self.posts@;
        let ghost before_asked = self.asked();
        let named = self.tags.ensure_all(tags);
        let expanded = self.tags.expand_implications(&named);
        let tag_names = self.tags.names_for(&expanded);
        let ghost carried = expanded@.to_set();
        let ghost graph = self.tags@;
        proof {
            let listed = names_of(tag_names@).to_set();
            let wanted = name_set(graph, carried);
            assert forall|n: Seq<char>| listed.contains(n) implies wanted.contains(n) by {
                let k = choose|k: int| 0 <= k < names_of(tag_names@).len() && names_of(tag_names@)[k] == n;
                assert(carried.contains(expanded@[k]));
                assert(graph[expanded@[k] as int].name == n);
            }
            assert forall|n: Seq<char>| wanted.contains(n) implies listed.contains(n) by {
                let t = choose|t: usize|
                    carried.contains(t) && t < graph.len() && (#[trigger] graph[t as int]).name == n;
                let k = choose|k: int| 0 <= k < expanded@.len() && expanded@[k] == t;
                assert(names_of(tag_names@)[k] == n);
            }
            assert(listed =~= wanted);
        }
        let row = Post {
            id,
            created_at,
            user_id: post.user_id.unwrap(),
            user_name,
            title: post.title,
            description: post.description,
            source: post.source,
            filename: post.filename.unwrap(),
            size: post.size.unwrap(),
            width: post.width.unwrap(),
            height: post.height.unwrap(),
            hash: post.hash.unwrap(),
            ext: post.ext.unwrap(),
            tn_ext: post.tn_ext.unwrap(),
            tags: tag_names,
        };
        proof {
            if before_entries.len() > 0 {
                assert(before_entries.last() == before_entries[before_entries.len() - 1]);
            }
        }
        let pushed = self.index.push(id, expanded);
        assert(pushed);
        self.posts.push(row);
        self.requested.push(copy_names(tags));
        self.last_id = id;
        proof {
            assert(self.asked() =~= before_asked.push(names_of(tags@)));
            assert(self.posts@.drop_last() =~= before_rows);
            assert forall|i: int| 0 <= i < self.rows().len() implies (#[trigger] self.rows()[i]).id
                == self.entries()[i].id by {
                if i < before_rows.len() {
                    assert(self.rows()[i] == before_rows[i]);
                    assert(self.entries()[i] == before_entries[i]);
                }
            }
            assert forall|i: int| 0 <= i < self.entries().len() implies (#[trigger] self.entries()[i]).id
                <= self.last_id() by {
                if i < before_entries.len() {
                    assert(self.entries()[i] == before_entries[i]);
                }
            }
            assert(created(before, *self, post, names_of(tags@), user_name, created_at, id));
        }
        Ok(id)
    }

    /// The post with this identifier.
    pub fn get_view_post(&self, id: i32) -> (r: Option<&Post>)
        requires
            self.wf(),
        ensures
            r is Some == exists|i: int| 0 <= i < self.rows().len() && (#[trigger] self.rows()[i]).id == id,
            r matches Some(post) ==> post.id == id && self.rows().contains(*post),
    {
        let mut i: usize = 0;
        while i < self.posts.len()
            invariant
                i <= self.posts.len(),
                forall|j: int| 0 <= j < i ==> (#[trigger] self.rows()[j]).id != id,
            decreases self.posts.len() - i,
        {
            if self.posts[i].id == id {
                assert(self.rows()[i as int] == self.posts@[i as int]);
                return Some(&self.posts[i]);
            }
            i += 1;
        }
        None
    }

    /// The oldest post whose content has this digest.
    pub fn get_view_post_by_hash(&self, hash: &str) -> (r: Option<&Post>)
        ensures
            r is Some == exists|i: int| 0 <= i < self.rows().len() && (#[trigger] self.rows()[i]).hash@ == hash@,
            r matches Some(post) ==> exists|i: int|
                0 <= i < self.rows().len() && *post == self.rows()[i] && post.hash@ == hash@ && forall|j: int|
                    0 <= j < i ==> (#[trigger] self.rows()[j]).hash@ != hash@,
    {
        let key = hash.to_owned();
        let mut i: usize = 0;
        while i < self.posts.len()
            invariant
                i <= self.posts.len(),
                key@ == hash@,
                forall|j: int| 0 <= j < i ==> (#[trigger] self.rows()[j]).hash@ != hash@,
            decreases self.posts.len() - i,
        {
            if self.posts[i].hash == key {
                assert(self.rows()[i as int] == self.posts@[i as int]);
                return Some(&self.posts[i]);
            }
            i += 1;
        }
        None
    }

    /// The posts that pass the query, newest first, from `start_id`
    /// downwards and at most `limit` of them. A start that is not positive
    /// stands for the newest post.
    pub fn get_view_posts(
        &self,
        required: &Vec<String>,
        forbidden: &Vec<String>,
        start_id: i32,
        limit: i32,
    ) -> (r: Result<Vec<&Post>, CoreError>)
        requires
            self.wf(),
        ensures
            r is Ok == (all_named(self.graph(), names_of(required@)) && all_named(
                self.graph(),
                names_of(forbidden@),
            )),
            r matches Err(e) ==> e == CoreError::UnknownTag,
            r matches Ok(posts) ==> {
                let ids = ids_up_to(
                    self.entries(),
                    filter_of(self.graph(), names_of(required@), names_of(forbidden@)),
                    listing_bound(start_id as int),
                );
                &&& posts@.len() == listing_len(ids.len() as int, limit as int)
                &&& forall|k: int|
                    0 <= k < posts@.len() ==> (#[trigger] posts@[k]).id == ids[ids.len() - 1 - k]
                        && self.rows().contains(*posts@[k])
            },
    {
        let filter = match self.resolve_filter(required, forbidden) {
            Ok(filter) => filter,
            Err(e) => {
                return Err(e);
            },
        };
        let bound: i32 = if start_id <= 0 {
            i32::MAX
        } else {
            start_id
        };
        let mut out: Vec<&Post> = Vec::new();
        if limit <= 0 {
            return Ok(out);
        }
        let n = self.posts.len();
        let ghost ids = ids_up_to(self.entries(), filter@, bound as int);
        let mut i: usize = n;
        proof {
            assert(self.entries().take(n as int) =~= self.entries());
        }
        while i > 0 && out.len() < limit as usize
            invariant
                self.wf(),
                n == self.posts.len(),
                n == self.entries().len(),
                0 < limit,
                i <= n,
                ids == ids_up_to(self.entries(), filter@, bound as int),
                out@.len() <= limit,
                out@.len() == ids.len() - ids_up_to(self.entries().take(i as int), filter@, bound as int).len(),
                forall|k: int|
                    0 <= k < out@.len() ==> (#[trigger] out@[k]).id == ids[ids.len() - 1 - k]
                        && self.rows().contains(*out@[k]),
            decreases i,
        {
            let ghost found = out@;
            let ghost part = ids_up_to(self.entries().take(i as int), filter@, bound as int);
            proof {
                lemma_ids_within_take(self.entries(), filter@, i32::MIN as int, bound as int, i as int);
                assert(self.entries().take(i as int).drop_last() =~= self.entries().take(i - 1));
                assert(self.entries().take(i as int).last() == self.entries()[i - 1]);
            }
            i -= 1;
            let entry = self.index.entry_at(i);
            if entry.id <= bound && filter.admits_tags(&entry.tags) {
                assert(self.rows()[i as int] == self.posts@[i as int]);
                out.push(&self.posts[i]);
                proof {
                    assert forall|k: int| 0 <= k < out@.len() implies (#[trigger] out@[k]).id == ids[ids.len()
                        - 1 - k] && self.rows().contains(*out@[k]) by {
                        if k < found.len() {
                            assert(out@[k] == found[k]);
                        } else {
                            assert(*out@[k] == self.rows()[i as int]);
                            assert(self.rows()[i as int].id == self.entries()[i as int].id);
                            assert(part.last() == entry.id);
                            assert(part[part.len() - 1] == ids[part.len() - 1]);
                        }
                    }
                }
            }
        }
        proof {
            if i == 0 {
                assert(ids_up_to(self.entries().take(0), filter@, bound as int).len() == 0);
            }
        }
        Ok(out)
    }

    /// The position of the post with this identifier.
    pub fn position_of(&self, id: i32) -> (r: Option<usize>)
        ensures
            r is Some == exists|i: int| 0 <= i < self.rows().len() && (#[trigger] self.rows()[i]).id == id,
            r matches Some(i) ==> i < self.rows().len() && self.rows()[i as int].id == id,
    {
        let mut i: usize = 0;
        while i < self.posts.len()
            invariant
                i <= self.posts.len(),
                forall|j: int| 0 <= j < i ==> (#[trigger] self.rows()[j]).id != id,
            decreases self.posts.len() - i,
        {
            if self.posts[i].id == id {
                return Some(i);
            }
            i += 1;
        }
        None
    }

    /// Changes a post: texts that the change names replace the post's, and
    /// the tags it was written with are revised and resolved anew. The
    /// identifier and what is known of the file stay. The catalogue does
    /// not judge who may change a post. Nothing changes, and the answer is
    /// `false`, where the change names no post of the catalogue.
    pub fn update_post(&mut self, update: &dbm::UpdatePost, user_id: i32) -> (ok: bool)
        requires
            old(self).wf(),
        ensures
            final(self).wf(),
            ok == (update.id is Some && exists|i: int|
                0 <= i < old(self).rows().len() && (#[trigger] old(self).rows()[i]).id == update.id.unwrap()),
            !ok ==> *final(self) == *old(self),
            ok ==> exists|i: int|
                0 <= i < old(self).rows().len() && #[trigger] updated_at(*old(self), *final(self), *update, i),
    {
        let id = match update.id {
            Some(id) => id,
            None => {
                return false;
            },
        };
        let i = match self.position_of(id) {
            Some(i) => i,
            None => {
                return false;
            },
        };
        let ghost before = *self;
        let ghost before_entries = self.index@;
        let ghost before_rows = self.posts@;
        let ghost before_asked = self.asked();
        assert(before_asked[i as int] == names_of(self.requested@[i as int]@));
        let revised = revise_names(&self.requested[i], &update.add_tags, &update.remove_tags);
        let named = self.tags.ensure_all(&revised);
        let expanded = self.tags.expand_implications(&named);
        let tag_names = self.tags.names_for(&expanded);
        let ghost carried = expanded@.to_set();
        let ghost graph = self.tags@;
        proof {
            let listed = names_of(tag_names@).to_set();
            let wanted = name_set(graph, carried);
            assert forall|n: Seq<char>| listed.contains(n) implies wanted.contains(n) by {
                let k = choose|k: int| 0 <= k < names_of(tag_names@).len() && names_of(tag_names@)[k] == n;
                assert(carried.contains(expanded@[k]));
                assert(graph[expanded@[k] as int].name == n);
            }
            assert forall|n: Seq<char>| wanted.contains(n) implies listed.contains(n) by {
                let t = choose|t: usize|
                    carried.contains(t) && t < graph.len() && (#[trigger] graph[t as int]).name == n;
                let k = choose|k: int| 0 <= k < expanded@.len() && expanded@[k] == t;
                assert(names_of(tag_names@)[k] == n);
            }
            assert(listed =~= wanted);
        }
        let old_row = &self.posts[i];
        let row = Post {
            id: old_row.id,
            created_at: old_row.created_at,
            user_id: old_row.user_id,
            user_name: old_row.user_name.clone(),
            title: if update.title.is_some() {
                copy_text(&update.title)
            } else {
                copy_text(&old_row.title)
            },
            description: if update.description.is_some() {
                copy_text(&update.description)
            } else {
                copy_text(&old_row.description)
            },
            source: if update.source.is_some() {
                copy_text(&update.source)
            } else {
                copy_text(&old_row.source)
            },
            filename: old_row.filename.clone(),
            size: old_row.size,
            width: old_row.width,
            height: old_row.height,
            hash: old_row.hash.clone(),
            ext: old_row.ext.clone(),
            tn_ext: old_row.tn_ext.clone(),
            tags: tag_names,
        };
        assert(before_rows[i as int].id == before_entries[i as int].id);
        let set = self.index.set_tags(id, expanded);
        assert(set);
        self.posts.set(i, row);
        self.requested.set(i, revised);
        proof {
            let entry = PostEntry { id: id as int, tags: carried };
            assert forall|j: int| 0 <= j < before_entries.len() && j != i implies before_entries[j].id
                != id by {
                if j < i {
                    assert(before_entries[j].id < before_entries[i as int].id);
                } else {
                    assert(before_entries[i as int].id < before_entries[j].id);
                }
            }
            assert(self.index@ =~= before_entries.update(i as int, entry));
            assert(self.asked() =~= before_asked.update(i as int, names_of(revised@)));
            assert forall|j: int| 0 <= j < self.rows().len() implies (#[trigger] self.rows()[j]).id
                == self.entries()[j].id by {
                if j != i {
                    assert(self.rows()[j] == before_rows[j]);
                }
            }
            assert forall|j: int| 0 <= j < self.entries().len() implies (#[trigger] self.entries()[j]).id
                <= self.last_id() by {
                assert(self.entries()[j].id == before_entries[j].id);
            }
            assert(updated_at(before, *self, *update, i as int));
        }
        true
    }

    /// The tag with this number, as callers see it.
    pub fn get_view_tag(&self, id: i32) -> (r: Option<Tag>)
        requires
            self.wf(),
        ensures
            r is Some == (0 <= id < self.graph().len()),
            r matches Some(shown) ==> shows(shown, self.graph(), id as usize),
    {
        if id < 0 {
            None
        } else {
            self.tags.view_tag(id as usize)
        }
    }

    /// All tags in the order of their numbers, as callers see them. Tags
    /// whose number is too large to be shown are left out.
    pub fn get_view_tags(&self) -> (r: Vec<Tag>)
        requires
            self.wf(),
        ensures
            r@.len() == (if self.graph().len() <= i32::MAX {
                self.graph().len() as int
            } else {
                i32::MAX + 1
            }),
            forall|k: int| 0 <= k < r@.len() ==> shows(#[trigger] r@[k], self.graph(), k as usize),
    {
        let mut r: Vec<Tag> = Vec::new();
        let n = self.tags.len();
        let mut i: usize = 0;
        while i < n && i <= i32::MAX as usize
            invariant
                self.wf(),
                n == self.graph().len(),
                i <= n,
                i <= i32::MAX + 1,
                r@.len() == i,
                forall|k: int| 0 <= k < r@.len() ==> shows(#[trigger] r@[k], self.graph(), k as usize),
            decreases n - i,
        {
            match self.tags.view_tag(i) {
                Some(shown) => {
                    r.push(shown);
                },
                None => {},
            }
            i += 1;
        }
        r
    }

    /// Changes the tag with this number: sets its alias, adds implications
    /// and takes implications away. Posts keep the tags they were resolved
    /// to when they were written. The catalogue does not judge who may
    /// change a tag. Nothing changes, and the answer is `false`, where the
    /// number names no tag and where the tag would become an alias of
    /// itself.
    pub fn update_tag(&mut self, id: i32, update: &dbm::UpdateTag, user_id: i32) -> (ok: bool)
        requires
            old(self).wf(),
        ensures
            final(self).wf(),
            ok == (0 <= id < old(self).graph().len() && (update.alias_of_tag is Some ==> alias_allowed(
                old(self).graph(),
                id as usize,
                update.alias_of_tag.unwrap()@,
            ))),
            ok ==> final(self).graph() == tag_updated(old(self).graph(), id as usize, *update),
            !ok ==> final(self).graph() == old(self).graph(),
            final(self).entries() == old(self).entries(),
            final(self).rows() == old(self).rows(),
            final(self).asked() == old(self).asked(),
            final(self).last_id() == old(self).last_id(),
    {
        if id < 0 {
            return false;
        }
        self.tags.update_tag(id as usize, update)
    }

    /// The boundaries of up to `|page_count|` pages of the posts that pass
    /// the query.
    pub fn calculate_pages(
        &self,
        required: &Vec<String>,
        forbidden: &Vec<String>,
        posts_per_page: i32,
        page_count: i32,
        origin_page: Option<PageInfo>,
    ) -> (r: Result<Vec<PageInfo>, CoreError>)
        requires
            self.wf(),
        ensures
            r is Ok == (all_named(self.graph(), names_of(required@)) && all_named(
                self.graph(),
                names_of(forbidden@),
            )),
            r matches Err(e) ==> e == CoreError::UnknownTag,
            r matches Ok(pages) ==> pages@ == pages_of(
                self.entries(),
                filter_of(self.graph(), names_of(required@), names_of(forbidden@)),
                posts_per_page as int,
                page_count as int,
                origin_page,
            ),
    {
        match self.resolve_filter(required, forbidden) {
            Ok(filter) => Ok(self.index.calculate_pages(&filter, posts_per_page, page_count, origin_page)),
            Err(e) => Err(e),
        }
    }

    /// The boundary of the page that holds the oldest post that passes the
    /// query.
    pub fn calculate_last_page(&self, required: &Vec<String>, forbidden: &Vec<String>, posts_per_page: i32) -> (r:
        Result<PageInfo, CoreError>)
        requires
            self.wf(),
        ensures
            r is Ok == (all_named(self.graph(), names_of(required@)) && all_named(
                self.graph(),
                names_of(forbidden@),
            )),
            r matches Err(e) ==> e == CoreError::UnknownTag,
            r matches Ok(page) ==> page == last_page_of(
                self.entries(),
                filter_of(self.graph(), names_of(required@), names_of(forbidden@)),
                posts_per_page as int,
            ),
    {
        match self.resolve_filter(required, forbidden) {
            Ok(filter) => Ok(self.index.calculate_last_page(&filter, posts_per_page)),
            Err(e) => Err(e),
        }
    }
}

/// Whether `after` is what writing `post`, with the given tag names, makes
/// of `before`, `id` being the identifier that the post was given.
pub open spec fn created(
    before: PostCatalog,
    after: PostCatalog,
    post: dbm::NewPost,
    tags: Seq<Seq<char>>,
    user_name: String,
    created_at: i64,
    id: i32,
) -> bool {
    &&& id == before.last_id() + 1
    &&& after.last_id() == id
    &&& after.graph() == with_names(before.graph(), tags)
    &&& after.entries() == before.entries().push(
        PostEntry { id: id as int, tags: post_tags(after.graph(), tags) },
    )
    &&& after.asked() == before.asked().push(tags)
    &&& after.rows().len() == before.rows().len() + 1
    &&& after.rows().drop_last() == before.rows()
    &&& written(after.rows().last(), post, id, user_name, created_at)
    &&& names_of(after.rows().last().tags@).to_set() == name_set(after.graph(), post_tags(after.graph(), tags))
}

/// Whether `after` is what the change `update` makes of `before`, the post
/// at position `i` being the one that is changed.
pub open spec fn updated_at(before: PostCatalog, after: PostCatalog, update: dbm::UpdatePost, i: int) -> bool {
    let revised = names_with(
        names_without(before.asked()[i], names_of(update.remove_tags@)),
        names_of(update.add_tags@),
    );
    let row = after.rows()[i];
    let was = before.rows()[i];
    &&& update.id == Some(was.id)
    &&& after.last_id() == before.last_id()
    &&& after.graph() == with_names(before.graph(), revised)
    &&& after.asked() == before.asked().update(i, revised)
    &&& after.entries() == before.entries().update(
        i,
        PostEntry { id: was.id as int, tags: post_tags(after.graph(), revised) },
    )
    &&& after.rows().len() == before.rows().len()
    &&& forall|j: int| 0 <= j < after.rows().len() && j != i ==> (#[trigger] after.rows()[j]) == before.rows()[j]
    &&& row.id == was.id
    &&& row.created_at == was.created_at
    &&& row.user_id == was.user_id
    &&& row.user_name == was.user_name
    &&& row.title == (if update.title is Some {
        update.title
    } else {
        was.title
    })
    &&& row.description == (if update.description is Some {
        update.description
    } else {
        was.description
    })
    &&& row.source == (if update.source is Some {
        update.source
    } else {
        was.source
    })
    &&& row.filename == was.filename
    &&& row.size == was.size
    &&& row.width == was.width
    &&& row.height == was.height
    &&& row.hash == was.hash
    &&& row.ext == was.ext
    &&& row.tn_ext == was.tn_ext
    &&& names_of(row.tags@).to_set() == name_set(after.graph(), post_tags(after.graph(), revised))
}

/// No identifier is given out twice: the posts of a catalogue have
/// identifiers that grow from each post to the next.
pub proof fn law_identifiers_grow(catalog: PostCatalog)
    requires
        catalog.wf(),
    ensures
        forall|i: int, j: int|
            0 <= i < j < catalog.rows().len() ==> (#[trigger] catalog.rows()[i]).id < (
            #[trigger] catalog.rows()[j]).id,
{
    assert forall|i: int, j: int| 0 <= i < j < catalog.rows().len() implies (#[trigger] catalog.rows()[i]).id < (
    #[trigger] catalog.rows()[j]).id by {
        assert(catalog.entries()[i].id < catalog.entries()[j].id);
    }
}

/// Whether `row` is the post that was written from `post` under the
/// identifier `id`.
pub open spec fn written(row: Post, post: dbm::NewPost, id: i32, user_name: String, created_at: i64) -> bool {
    &&& row.id == id
    &&& row.created_at == created_at
    &&& row.user_id == post.user_id.unwrap()
    &&& row.user_name == user_name
    &&& row.title == post.title
    &&& row.description == post.description
    &&& row.source == post.source
    &&& row.filename == post.filename.unwrap()
    &&& row.size == post.size.unwrap()
    &&& row.width == post.width.unwrap()
    &&& row.height == post.height.unwrap()
    &&& row.hash == post.hash.unwrap()
    &&& row.ext == post.ext.unwrap()
    &&& row.tn_ext == post.tn_ext.unwrap()
}

} // verus!
